//! The clipboard history: a most-recent-first list of copied texts with a
//! configurable size limit, and a separate list of pinned texts that never
//! expire.
//!
//! The system pasteboard itself is read and written by the application; this
//! module receives what was read (the pasteboard's change counter and its
//! text) and decides what the history becomes.

use std::collections::VecDeque;
use vstd::prelude::*;

use crate::config::{DEFAULT_MAX_HISTORY, MAX_MAX_HISTORY, MIN_MAX_HISTORY};
use crate::text::{push_char, to_chars};

verus! {

broadcast use vstd::std_specs::vecdeque::group_vec_dequeue_axioms;

/// Number of characters kept in a menu label.
pub const LABEL_LEN: usize = 60;

/// Number of characters kept in a tooltip.
pub const TOOLTIP_LEN: usize = 300;

/// The character that stands for a line break in labels and tooltips.
pub const RETURN_SYMBOL: char = '\u{21A9}';

/// The texts of a list of strings.
pub open spec fn texts(q: Seq<String>) -> Seq<Seq<char>> {
    q.map_values(|s: String| s@)
}

/// The text of an optional string.
pub open spec fn opt_text(o: Option<String>) -> Option<Seq<char>> {
    match o {
        Some(s) => Some(s@),
        None => None,
    }
}

/// `n` clamped into the range of accepted history limits.
pub open spec fn clamp_limit(n: int) -> int {
    if n < MIN_MAX_HISTORY {
        MIN_MAX_HISTORY as int
    } else if n > MAX_MAX_HISTORY {
        MAX_MAX_HISTORY as int
    } else {
        n
    }
}

/// The abstract state of a clipboard history.
pub struct HistoryModel {
    /// History texts, most recent first.
    pub items: Seq<Seq<char>>,
    /// Pinned texts, in the order they were pinned.
    pub pinned: Seq<Seq<char>>,
    /// The pasteboard change counter last seen.
    pub change_count: int,
    /// The maximum number of history items.
    pub limit: int,
    /// Whether the next poll first trims the history to the limit.
    pub trim_pending: bool,
}

/// `items` cut down to at most `limit` entries, dropping the oldest.
pub open spec fn trimmed(items: Seq<Seq<char>>, limit: int) -> Seq<Seq<char>> {
    if items.len() > limit {
        items.take(limit)
    } else {
        items
    }
}

/// The history after `text` is copied: an earlier copy of it is removed, it
/// goes to the front, and the oldest entry is dropped when the list is then
/// longer than the limit.
pub open spec fn record_text(items: Seq<Seq<char>>, text: Seq<char>, limit: int) -> Seq<
    Seq<char>,
> {
    let front = seq![text] + items.remove_value(text);
    if front.len() > limit {
        front.drop_last()
    } else {
        front
    }
}

/// The history after a pinned text is moved back to its front: the oldest
/// entry is dropped first when the list is already at the limit.
pub open spec fn unpinned_into(items: Seq<Seq<char>>, text: Seq<char>, limit: int) -> Seq<
    Seq<char>,
> {
    if items.len() >= limit && items.len() > 0 {
        seq![text] + items.drop_last()
    } else {
        seq![text] + items
    }
}

/// What pinning history item `idx` does: the text moves to the end of the
/// pinned list, unless there is no such item or the text is already pinned.
pub open spec fn pin_spec(m: HistoryModel, idx: int) -> HistoryModel {
    if 0 <= idx < m.items.len() && !m.pinned.contains(m.items[idx]) {
        HistoryModel { items: m.items.remove(idx), pinned: m.pinned.push(m.items[idx]), ..m }
    } else {
        m
    }
}

/// What unpinning pinned item `idx` does: the text moves to the front of
/// the history, unless there is no such item.
pub open spec fn unpin_spec(m: HistoryModel, idx: int) -> HistoryModel {
    if 0 <= idx < m.pinned.len() {
        HistoryModel {
            items: unpinned_into(m.items, m.pinned[idx], m.limit),
            pinned: m.pinned.remove(idx),
            ..m
        }
    } else {
        m
    }
}

/// What a poll does: the history after it, and the text it reports as new.
pub open spec fn poll_result(m: HistoryModel, change_count: int, text: Option<Seq<char>>) -> (
    HistoryModel,
    Option<Seq<char>>,
) {
    let items0 = if m.trim_pending {
        trimmed(m.items, m.limit)
    } else {
        m.items
    };
    let m0 = HistoryModel { items: items0, trim_pending: false, ..m };
    if change_count == m.change_count {
        (m0, None)
    } else {
        let m1 = HistoryModel { change_count, ..m0 };
        match text {
            None => (m1, None),
            Some(t) => if t.len() == 0 || m.pinned.contains(t) {
                (m1, None)
            } else {
                (HistoryModel { items: record_text(items0, t, m.limit), ..m1 }, Some(t))
            },
        }
    }
}

/// Whether `c` breaks a line.
pub open spec fn is_line_break(c: char) -> bool {
    c == '\n' || c == '\r'
}

/// `text` with every line ending replaced by one return symbol: a `\r`
/// directly followed by `\n` is one line ending, any other `\r` or `\n`
/// is one on its own.
pub open spec fn clean_text(text: Seq<char>) -> Seq<char>
    decreases text.len(),
{
    if text.len() == 0 {
        Seq::empty()
    } else if text.len() > 1 && text[0] == '\r' && text[1] == '\n' {
        seq![RETURN_SYMBOL] + clean_text(text.skip(2))
    } else if is_line_break(text[0]) {
        seq![RETURN_SYMBOL] + clean_text(text.skip(1))
    } else {
        seq![text[0]] + clean_text(text.skip(1))
    }
}

/// `text` with its line endings replaced by the return symbol, cut to
/// `max_len` characters followed by three dots when it is longer.
pub open spec fn truncate_clean_spec(text: Seq<char>, max_len: int) -> Seq<char> {
    let cleaned = clean_text(text);
    if cleaned.len() > max_len {
        cleaned.take(max_len) + seq!['.', '.', '.']
    } else {
        cleaned
    }
}

/// Whether `text` holds no line break.
pub open spec fn single_line(text: Seq<char>) -> bool {
    forall|i: int| 0 <= i < text.len() ==> !is_line_break(#[trigger] text[i])
}

/// Cleaned text holds no line break.
pub proof fn lemma_clean_single_line(text: Seq<char>)
    ensures
        single_line(clean_text(text)),
    decreases text.len(),
{
    if text.len() > 1 && text[0] == '\r' && text[1] == '\n' {
        lemma_clean_single_line(text.skip(2));
        let r = clean_text(text.skip(2));
        assert forall|i: int| 0 <= i < clean_text(text).len() implies !is_line_break(
            #[trigger] clean_text(text)[i],
        ) by {
            if i > 0 {
                assert(clean_text(text)[i] == r[i - 1]);
            }
        };
    } else if text.len() > 0 {
        lemma_clean_single_line(text.skip(1));
        let r = clean_text(text.skip(1));
        assert forall|i: int| 0 <= i < clean_text(text).len() implies !is_line_break(
            #[trigger] clean_text(text)[i],
        ) by {
            if i > 0 {
                assert(clean_text(text)[i] == r[i - 1]);
            }
        };
    }
}

/// Cleaning leaves a text without line breaks as it is.
pub proof fn lemma_clean_single_line_id(text: Seq<char>)
    requires
        single_line(text),
    ensures
        clean_text(text) == text,
    decreases text.len(),
{
    if text.len() > 0 {
        assert(!is_line_break(text[0]));
        let t = text.skip(1);
        assert forall|i: int| 0 <= i < t.len() implies !is_line_break(#[trigger] t[i]) by {
            assert(t[i] == text[i + 1]);
        };
        lemma_clean_single_line_id(t);
        assert(seq![text[0]] + t =~= text);
    }
}

/// Labels and tooltips are stable: cleaning and cutting a text that was
/// already cleaned and cut with the same length gives it back unchanged
/// (so `display_label` of a label is that label).
pub proof fn law_clean_label_idempotent(text: Seq<char>, max_len: nat)
    ensures
        truncate_clean_spec(truncate_clean_spec(text, max_len as int), max_len as int)
            == truncate_clean_spec(text, max_len as int),
{
    let c = clean_text(text);
    let r = truncate_clean_spec(text, max_len as int);
    lemma_clean_single_line(text);
    if c.len() > max_len {
        let dots = seq!['.', '.', '.'];
        assert forall|i: int| 0 <= i < r.len() implies !is_line_break(#[trigger] r[i]) by {
            if i < max_len {
                assert(r[i] == c[i]);
            } else {
                assert(r[i] == dots[i - max_len]);
            }
        };
        lemma_clean_single_line_id(r);
        assert(r.take(max_len as int) =~= c.take(max_len as int));
    } else {
        lemma_clean_single_line_id(c);
    }
}

/// The in-memory clipboard history and pinned list.
pub struct ClipboardHistory {
    items: VecDeque<String>,
    pinned: VecDeque<String>,
    last_change_count: isize,
    max_history: usize,
    trim_requested: bool,
}

impl View for ClipboardHistory {
    type V = HistoryModel;

    closed spec fn view(&self) -> HistoryModel {
        HistoryModel {
            items: texts(self.items@),
            pinned: texts(self.pinned@),
            change_count: self.last_change_count as int,
            limit: self.max_history as int,
            trim_pending: self.trim_requested,
        }
    }
}

/// Sets the maximum number of history items, clamped to the accepted range.
pub fn set_max_history(history: &mut ClipboardHistory, n: usize)
    requires
        old(history).wf(),
    ensures
        final(history).wf(),
        final(history)@ == (HistoryModel { limit: clamp_limit(n as int), ..old(history)@ }),
{
    let v = if n < MIN_MAX_HISTORY {
        MIN_MAX_HISTORY
    } else if n > MAX_MAX_HISTORY {
        MAX_MAX_HISTORY
    } else {
        n
    };
    history.max_history = v;
}

/// The maximum number of history items.
pub fn get_max_history(history: &ClipboardHistory) -> (n: usize)
    ensures
        n as int == history@.limit,
{
    history.max_history
}

/// Asks the next poll to first trim the history to the current limit.
pub fn request_trim(history: &mut ClipboardHistory)
    requires
        old(history).wf(),
    ensures
        final(history).wf(),
        final(history)@ == (HistoryModel { trim_pending: true, ..old(history)@ }),
{
    history.trim_requested = true;
}

impl ClipboardHistory {
    /// The limit lies in the accepted range.
    pub open spec fn wf(&self) -> bool {
        MIN_MAX_HISTORY <= self@.limit <= MAX_MAX_HISTORY
    }

    /// An empty history that has seen the pasteboard at `change_count`,
    /// with the default limit.
    pub fn new(change_count: isize) -> (h: Self)
        ensures
            h.wf(),
            h@ == (HistoryModel {
                items: Seq::empty(),
                pinned: Seq::empty(),
                change_count: change_count as int,
                limit: DEFAULT_MAX_HISTORY as int,
                trim_pending: false,
            }),
    {
        let h = ClipboardHistory {
            items: VecDeque::new(),
            pinned: VecDeque::new(),
            last_change_count: change_count,
            max_history: DEFAULT_MAX_HISTORY,
            trim_requested: false,
        };
        assert(texts(h.items@) =~= Seq::empty());
        assert(texts(h.pinned@) =~= Seq::empty());
        h
    }

    /// Drops the oldest history items until the history fits the limit.
    fn trim_to_limit(&mut self)
        requires
            old(self).wf(),
        ensures
            final(self).wf(),
            final(self)@ == (HistoryModel {
                items: trimmed(old(self)@.items, old(self)@.limit),
                ..old(self)@
            }),
    {
        let limit = self.max_history;
        let ghost orig = self.items@;
        while self.items.len() > limit
            invariant
                limit == self.max_history,
                self.pinned@ == old(self).pinned@,
                self.last_change_count == old(self).last_change_count,
                self.trim_requested == old(self).trim_requested,
                orig == old(self).items@,
                limit == old(self).max_history,
                MIN_MAX_HISTORY <= limit <= MAX_MAX_HISTORY,
                orig.len() > limit ==> self.items@ == orig.take(
                    self.items@.len() as int,
                ) && limit <= self.items@.len() <= orig.len(),
                orig.len() <= limit ==> self.items@ == orig,
            decreases self.items@.len(),
        {
            self.items.pop_back();
        }
        proof {
            if orig.len() > limit {
                assert(self.items@ == orig.take(limit as int));
            }
            assert(texts(self.items@) =~= trimmed(texts(orig), limit as int));
        }
    }

    /// Takes in what the pasteboard holds now: its change counter and its
    /// text, if it has one. When the counter has moved and the text is new,
    /// non-empty and not pinned, the text goes to the front of the history
    /// (an earlier copy of it is removed) and is returned; otherwise `None`.
    /// A pending trim request is applied first.
    pub fn poll(&mut self, change_count: isize, text: Option<String>) -> (r: Option<String>)
        requires
            old(self).wf(),
        ensures
            final(self).wf(),
            (final(self)@, opt_text(r)) == poll_result(
                old(self)@,
                change_count as int,
                opt_text(text),
            ),
    {
        if self.trim_requested {
            self.trim_to_limit();
        }
        self.trim_requested = false;
        if change_count == self.last_change_count {
            return None;
        }
        self.last_change_count = change_count;
        let text = match text {
            Some(t) => t,
            None => return None,
        };
        if text.as_str().is_empty() {
            return None;
        }
        if contains_text(&self.pinned, &text) {
            return None;
        }
        let ghost before = self.items@;
        let pos = find_text(&self.items, &text);
        match pos {
            Some(i) => {
                self.items.remove(i);
            },
            None => {},
        }
        proof {
            lemma_remove_value_texts(before, text@, pos);
        }
        let ghost removed = self.items@;
        self.items.push_front(text.clone());
        proof {
            assert(texts(self.items@) =~= seq![text@] + texts(removed));
        }
        if self.items.len() > self.max_history {
            let ghost full = self.items@;
            self.items.pop_back();
            proof {
                assert(texts(self.items@) =~= texts(full).drop_last());
            }
        }
        Some(text)
    }

    /// The history texts, most recent first.
    pub fn items(&self) -> (r: &VecDeque<String>)
        ensures
            texts(r@) == self@.items,
    {
        &self.items
    }

    /// The text of history item `index`, to be written to the pasteboard;
    /// `None` when there is no such item.
    pub fn select(&self, index: usize) -> (r: Option<String>)
        ensures
            opt_text(r) == (if index < self@.items.len() {
                Some(self@.items[index as int])
            } else {
                None
            }),
    {
        if index < self.items.len() {
            Some(self.items[index].clone())
        } else {
            None
        }
    }

    /// Records the pasteboard's change counter after the application wrote
    /// to it itself, so that the next poll does not take that write for a
    /// new copy.
    pub fn note_own_write(&mut self, change_count: isize)
        requires
            old(self).wf(),
        ensures
            final(self).wf(),
            final(self)@ == (HistoryModel { change_count: change_count as int, ..old(self)@ }),
    {
        self.last_change_count = change_count;
    }

    /// Seeds the history from persisted texts, keeping at most the limit
    /// (the first ones), and records the pasteboard's current change counter
    /// so that the next poll does not take its content for a new copy.
    pub fn load_items(&mut self, items: Vec<String>, change_count: isize)
        requires
            old(self).wf(),
        ensures
            final(self).wf(),
            final(self)@ == (HistoryModel {
                items: texts(items@).take(
                    if items@.len() < old(self)@.limit {
                        items@.len() as int
                    } else {
                        old(self)@.limit
                    },
                ),
                change_count: change_count as int,
                ..old(self)@
            }),
    {
        let limit = self.max_history;
        let mut d: VecDeque<String> = VecDeque::new();
        let mut i: usize = 0;
        while i < items.len() && i < limit
            invariant
                i <= items@.len(),
                i <= limit,
                d@ == items@.take(i as int),
            decreases items@.len() - i,
        {
            d.push_back(items[i].clone());
            proof {
                assert(items@.take(i + 1) =~= items@.take(i as int).push(items@[i as int]));
            }
            i = i + 1;
        }
        self.items = d;
        self.last_change_count = change_count;
        proof {
            assert(texts(self.items@) =~= texts(items@).take(i as int));
        }
    }

    /// Clears the history and the pinned list.
    pub fn clear(&mut self)
        requires
            old(self).wf(),
        ensures
            final(self).wf(),
            final(self)@ == (HistoryModel {
                items: Seq::empty(),
                pinned: Seq::empty(),
                ..old(self)@
            }),
    {
        self.items.clear();
        self.pinned.clear();
        assert(texts(self.items@) =~= Seq::empty());
        assert(texts(self.pinned@) =~= Seq::empty());
    }

    /// The pinned texts, in the order they were pinned.
    pub fn pinned_items(&self) -> (r: &VecDeque<String>)
        ensures
            texts(r@) == self@.pinned,
    {
        &self.pinned
    }

    /// Moves history item `idx` to the end of the pinned list. Nothing
    /// changes when there is no such item or its text is already pinned.
    pub fn pin(&mut self, idx: usize)
        requires
            old(self).wf(),
        ensures
            final(self).wf(),
            final(self)@ == pin_spec(old(self)@, idx as int),
    {
        if idx >= self.items.len() {
            return;
        }
        let text = self.items[idx].clone();
        if contains_text(&self.pinned, &text) {
            return;
        }
        let ghost before_items = self.items@;
        let ghost before_pinned = self.pinned@;
        self.items.remove(idx);
        self.pinned.push_back(text);
        proof {
            assert(texts(self.items@) =~= texts(before_items).remove(idx as int));
            assert(texts(self.pinned@) =~= texts(before_pinned).push(text@));
        }
    }

    /// Moves pinned item `idx` to the front of the history, first dropping
    /// the oldest history item when the history is already at the limit.
    /// Nothing changes when there is no such pinned item.
    pub fn unpin(&mut self, idx: usize)
        requires
            old(self).wf(),
        ensures
            final(self).wf(),
            final(self)@ == unpin_spec(old(self)@, idx as int),
    {
        if idx >= self.pinned.len() {
            return;
        }
        let text = self.pinned[idx].clone();
        let ghost before_pinned = self.pinned@;
        let ghost before_items = self.items@;
        self.pinned.remove(idx);
        proof {
            assert(texts(self.pinned@) =~= texts(before_pinned).remove(idx as int));
        }
        if self.items.len() >= self.max_history {
            self.items.pop_back();
            proof {
                assert(texts(self.items@) =~= texts(before_items).drop_last());
            }
        }
        let ghost mid = self.items@;
        self.items.push_front(text);
        proof {
            assert(texts(self.items@) =~= seq![text@] + texts(mid));
        }
    }

    /// Seeds the pinned list from persisted texts.
    pub fn load_pinned(&mut self, items: Vec<String>)
        requires
            old(self).wf(),
        ensures
            final(self).wf(),
            final(self)@ == (HistoryModel { pinned: texts(items@), ..old(self)@ }),
    {
        let mut d: VecDeque<String> = VecDeque::new();
        let mut i: usize = 0;
        while i < items.len()
            invariant
                i <= items@.len(),
                d@ == items@.take(i as int),
            decreases items@.len() - i,
        {
            d.push_back(items[i].clone());
            proof {
                assert(items@.take(i + 1) =~= items@.take(i as int).push(items@[i as int]));
            }
            i = i + 1;
        }
        proof {
            assert(items@.take(i as int) =~= items@);
        }
        self.pinned = d;
    }

    /// The text of pinned item `idx`, to be written to the pasteboard;
    /// `None` when there is no such item.
    pub fn select_pinned(&self, idx: usize) -> (r: Option<String>)
        ensures
            opt_text(r) == (if idx < self@.pinned.len() {
                Some(self@.pinned[idx as int])
            } else {
                None
            }),
    {
        if idx < self.pinned.len() {
            Some(self.pinned[idx].clone())
        } else {
            None
        }
    }

    /// Removes history item `idx`; nothing changes when there is none.
    pub fn delete_history(&mut self, idx: usize)
        requires
            old(self).wf(),
        ensures
            final(self).wf(),
            final(self)@ == (if idx < old(self)@.items.len() {
                HistoryModel { items: old(self)@.items.remove(idx as int), ..old(self)@ }
            } else {
                old(self)@
            }),
    {
        let ghost before = self.items@;
        self.items.remove(idx);
        proof {
            if idx < before.len() {
                assert(texts(self.items@) =~= texts(before).remove(idx as int));
            }
        }
    }

    /// Removes pinned item `idx`; nothing changes when there is none.
    pub fn delete_pinned(&mut self, idx: usize)
        requires
            old(self).wf(),
        ensures
            final(self).wf(),
            final(self)@ == (if idx < old(self)@.pinned.len() {
                HistoryModel { pinned: old(self)@.pinned.remove(idx as int), ..old(self)@ }
            } else {
                old(self)@
            }),
    {
        let ghost before = self.pinned@;
        self.pinned.remove(idx);
        proof {
            if idx < before.len() {
                assert(texts(self.pinned@) =~= texts(before).remove(idx as int));
            }
        }
    }

    /// A single-line label of at most 60 characters (plus "...") for menus.
    pub fn display_label(text: &str) -> (r: String)
        ensures
            r@ == truncate_clean_spec(text@, LABEL_LEN as int),
    {
        Self::truncate_clean(text, LABEL_LEN)
    }

    /// A single-line tooltip of at most 300 characters (plus "...").
    pub fn display_tooltip(text: &str) -> (r: String)
        ensures
            r@ == truncate_clean_spec(text@, TOOLTIP_LEN as int),
    {
        Self::truncate_clean(text, TOOLTIP_LEN)
    }

    /// Replaces line breaks with the return symbol and cuts the text to
    /// `max_len` characters, appending "..." when it was longer.
    fn truncate_clean(text: &str, max_len: usize) -> (r: String)
        ensures
            r@ == truncate_clean_spec(text@, max_len as int),
    {
        let chars = to_chars(text);
        let cleaned = clean_chars(&chars);
        let n = if cleaned.len() > max_len {
            max_len
        } else {
            cleaned.len()
        };
        let mut out = String::new();
        let mut i: usize = 0;
        while i < n
            invariant
                n <= cleaned@.len(),
                i <= n,
                out@ == cleaned@.take(i as int),
            decreases n - i,
        {
            push_char(&mut out, cleaned[i]);
            proof {
                assert(cleaned@.take(i + 1) =~= cleaned@.take(i as int).push(cleaned@[i as int]));
            }
            i = i + 1;
        }
        if cleaned.len() > max_len {
            push_char(&mut out, '.');
            push_char(&mut out, '.');
            push_char(&mut out, '.');
            proof {
                assert(out@ =~= cleaned@.take(max_len as int) + seq!['.', '.', '.']);
            }
        } else {
            proof {
                assert(cleaned@.take(i as int) =~= cleaned@);
            }
        }
        out
    }
}

/// The characters of `v` with their line endings replaced by the return
/// symbol.
fn clean_chars(v: &Vec<char>) -> (r: Vec<char>)
    ensures
        r@ == clean_text(v@),
{
    let mut out: Vec<char> = Vec::new();
    let mut i: usize = 0;
    proof {
        assert(v@.skip(0) =~= v@);
    }
    while i < v.len()
        invariant
            i <= v@.len(),
            out@ + clean_text(v@.skip(i as int)) == clean_text(v@),
        decreases v@.len() - i,
    {
        let ghost rest = v@.skip(i as int);
        let ghost before = out@;
        if i + 1 < v.len() && v[i] == '\r' && v[i + 1] == '\n' {
            out.push(RETURN_SYMBOL);
            proof {
                assert(rest.skip(2) =~= v@.skip(i + 2));
                assert(before + clean_text(rest) =~= out@ + clean_text(v@.skip(i + 2)));
            }
            i = i + 2;
        } else {
            let c = v[i];
            if c == '\n' || c == '\r' {
                out.push(RETURN_SYMBOL);
            } else {
                out.push(c);
            }
            proof {
                assert(rest.skip(1) =~= v@.skip(i + 1));
                assert(before + clean_text(rest) =~= out@ + clean_text(v@.skip(i + 1)));
            }
            i = i + 1;
        }
    }
    proof {
        assert(v@.skip(i as int) =~= Seq::<char>::empty());
        assert(out@ + Seq::<char>::empty() =~= out@);
    }
    out
}

/// What pressing the hotkey does to the history: it first takes in what
/// the pasteboard holds now, as `poll` does (so the popup shows a copy made
/// since the last poll), and tells whether there is anything to show.
pub fn on_hotkey(h: &mut ClipboardHistory, change_count: isize, text: Option<String>) -> (r: (
    Option<String>,
    bool,
))
    requires
        old(h).wf(),
    ensures
        final(h).wf(),
        (final(h)@, opt_text(r.0)) == poll_result(old(h)@, change_count as int, opt_text(text)),
        r.1 == !(final(h)@.items.len() == 0 && final(h)@.pinned.len() == 0),
{
    let copied = h.poll(change_count, text);
    let show = !(h.items().len() == 0 && h.pinned_items().len() == 0);
    (copied, show)
}

/// Whether `text` occurs in `list`.
fn contains_text(list: &VecDeque<String>, text: &String) -> (r: bool)
    ensures
        r == texts(list@).contains(text@),
{
    match find_text(list, text) {
        Some(_) => true,
        None => false,
    }
}

/// The first position of `text` in `list`.
fn find_text(list: &VecDeque<String>, text: &String) -> (r: Option<usize>)
    ensures
        match r {
            Some(i) => {
                &&& i < list@.len()
                &&& texts(list@)[i as int] == text@
                &&& forall|j: int| 0 <= j < i ==> texts(list@)[j] != text@
            },
            None => !texts(list@).contains(text@),
        },
{
    let mut i: usize = 0;
    while i < list.len()
        invariant
            i <= list@.len(),
            forall|j: int| 0 <= j < i ==> texts(list@)[j] != text@,
        decreases list@.len() - i,
    {
        if list[i] == *text {
            return Some(i);
        }
        i = i + 1;
    }
    None
}

/// Removing the first copy of a text by position is `remove_value` on the
/// texts.
proof fn lemma_remove_value_texts(before: Seq<String>, t: Seq<char>, pos: Option<usize>)
    requires
        match pos {
            Some(i) => {
                &&& i < before.len()
                &&& texts(before)[i as int] == t
                &&& forall|j: int| 0 <= j < i ==> texts(before)[j] != t
            },
            None => !texts(before).contains(t),
        },
    ensures
        texts(
            match pos {
                Some(i) => before.remove(i as int),
                None => before,
            },
        ) == texts(before).remove_value(t),
{
    let tb = texts(before);
    tb.index_of_first_ensures(t);
    match pos {
        Some(i) => {
            assert(tb.contains(t));
            let k = tb.index_of_first(t).unwrap();
            assert(k == i as int);
            assert(texts(before.remove(i as int)) =~= tb.remove(i as int));
        },
        None => {},
    }
}

/// Removing the one copy of `t` from a list without repeats leaves a list
/// without repeats that no longer holds `t`.
proof fn lemma_remove_value_no_dup(s: Seq<Seq<char>>, t: Seq<char>)
    requires
        s.no_duplicates(),
    ensures
        s.remove_value(t).no_duplicates(),
        !s.remove_value(t).contains(t),
        forall|x: Seq<char>| x != t ==> (s.remove_value(t).contains(x) <==> s.contains(x)),
{
    s.index_of_first_ensures(t);
    match s.index_of_first(t) {
        Some(i) => {
            let r = s.remove(i);
            assert forall|a: int, b: int| 0 <= a < b < r.len() implies r[a] != r[b] by {
                let a2 = if a < i {
                    a
                } else {
                    a + 1
                };
                let b2 = if b < i {
                    b
                } else {
                    b + 1
                };
                assert(r[a] == s[a2] && r[b] == s[b2]);
            };
            assert forall|k: int| 0 <= k < r.len() implies r[k] != t by {
                let k2 = if k < i {
                    k
                } else {
                    k + 1
                };
                assert(r[k] == s[k2]);
            };
            assert forall|x: Seq<char>| x != t implies (r.contains(x) <==> s.contains(x)) by {
                if s.contains(x) {
                    let k = choose|k: int| 0 <= k < s.len() && s[k] == x;
                    if k < i {
                        assert(r[k] == x);
                    } else {
                        assert(k != i);
                        assert(r[k - 1] == x);
                    }
                }
                if r.contains(x) {
                    let k = choose|k: int| 0 <= k < r.len() && r[k] == x;
                    if k < i {
                        assert(s[k] == x);
                    } else {
                        assert(s[k + 1] == x);
                    }
                }
            };
        },
        None => {},
    }
}

/// A list without repeats keeps none when its tail is cut off.
proof fn lemma_take_no_dup(s: Seq<Seq<char>>, n: int)
    requires
        s.no_duplicates(),
        0 <= n <= s.len(),
    ensures
        s.take(n).no_duplicates(),
{
    assert forall|a: int, b: int| 0 <= a < b < n implies s.take(n)[a] != s.take(n)[b] by {
        assert(s.take(n)[a] == s[a] && s.take(n)[b] == s[b]);
    };
}

/// Copying a text that is already in the history moves it to the front
/// instead of adding a second copy: when a poll reports a new text, that
/// text heads the history, the history keeps no repeated texts if it had
/// none, it stays within the limit if it was within it (a pending trim
/// makes it so in any case), and the pinned list is untouched.
pub proof fn law_poll_moves_copy_to_front(m: HistoryModel, change_count: int, text: Option<Seq<char>>)
    requires
        MIN_MAX_HISTORY <= m.limit,
    ensures
        ({
            let (m2, r) = poll_result(m, change_count, text);
            &&& m2.pinned == m.pinned
            &&& r matches Some(t) ==> m2.items[0] == t && !m.pinned.contains(t)
            &&& m.items.no_duplicates() ==> m2.items.no_duplicates()
            &&& (m.items.len() <= m.limit || m.trim_pending) ==> m2.items.len() <= m.limit
        }),
{
    let items0 = if m.trim_pending {
        trimmed(m.items, m.limit)
    } else {
        m.items
    };
    if m.items.no_duplicates() && m.trim_pending && m.items.len() > m.limit {
        lemma_take_no_dup(m.items, m.limit);
    }
    let (m2, r) = poll_result(m, change_count, text);
    match r {
        Some(t) => {
            if items0.no_duplicates() {
                lemma_remove_value_no_dup(items0, t);
                let rest = items0.remove_value(t);
                let front = seq![t] + rest;
                assert forall|a: int, b: int| 0 <= a < b < front.len() implies front[a]
                    != front[b] by {
                    if a == 0 {
                        assert(front[b] == rest[b - 1]);
                    } else {
                        assert(front[a] == rest[a - 1] && front[b] == rest[b - 1]);
                    }
                };
                if front.len() > m.limit {
                    assert forall|a: int, b: int|
                        0 <= a < b < front.drop_last().len() implies front.drop_last()[a]
                        != front.drop_last()[b] by {
                        assert(front.drop_last()[a] == front[a]);
                        assert(front.drop_last()[b] == front[b]);
                    };
                }
            }
            items0.index_of_first_ensures(t);
        },
        None => {},
    }
}

/// A pinned text never enters the history: a poll that finds a pinned text
/// on the pasteboard reports nothing and adds nothing.
pub proof fn law_pinned_text_stays_out(m: HistoryModel, change_count: int, t: Seq<char>)
    requires
        m.pinned.contains(t),
    ensures
        poll_result(m, change_count, Some(t)).1 is None,
        poll_result(m, change_count, Some(t)).0.items == (if m.trim_pending {
            trimmed(m.items, m.limit)
        } else {
            m.items
        }),
{
}

/// The application's own pasteboard write is not taken for a copy: after
/// the change counter of that write is noted, a poll that sees the same
/// counter reports nothing and leaves the lists as they were (but for a
/// pending trim).
pub proof fn law_own_write_not_recorded(m: HistoryModel, change_count: int, text: Option<Seq<char>>)
    ensures
        ({
            let noted = HistoryModel { change_count, ..m };
            &&& poll_result(noted, change_count, text).1 is None
            &&& poll_result(noted, change_count, text).0.pinned == m.pinned
            &&& poll_result(noted, change_count, text).0.items == (if m.trim_pending {
                trimmed(m.items, m.limit)
            } else {
                m.items
            })
        }),
{
}

/// Unpinning undoes pinning: a history text that is pinned and then
/// unpinned (it is last in the pinned list) comes back at the front of
/// the history, the rest of the history is as before, and the pinned list
/// is as before. This needs the history to be within the limit, so that
/// unpinning evicts nothing.
pub proof fn law_pin_then_unpin(m: HistoryModel, idx: int)
    requires
        0 <= idx < m.items.len(),
        !m.pinned.contains(m.items[idx]),
        m.items.len() <= m.limit,
    ensures
        ({
            let p = pin_spec(m, idx);
            let u = unpin_spec(p, p.pinned.len() - 1);
            &&& u.items == seq![m.items[idx]] + m.items.remove(idx)
            &&& u.pinned == m.pinned
        }),
{
    let p = pin_spec(m, idx);
    assert(p.pinned.remove(p.pinned.len() - 1) =~= m.pinned);
}

/// Copying, pinning and unpinning never make the history outgrow its limit:
/// a history within the limit stays within it after a poll, a pin or an
/// unpin.
pub proof fn law_history_within_limit(m: HistoryModel, change_count: int, text: Option<Seq<char>>, idx: int)
    requires
        MIN_MAX_HISTORY <= m.limit,
        m.items.len() <= m.limit,
    ensures
        poll_result(m, change_count, text).0.items.len() <= m.limit,
        pin_spec(m, idx).items.len() <= m.limit,
        unpin_spec(m, idx).items.len() <= m.limit,
{
    law_poll_moves_copy_to_front(m, change_count, text);
}

/// Pinned texts are kept apart from the history: no text is in both
/// lists, and neither list repeats a text.
pub open spec fn separate(m: HistoryModel) -> bool {
    &&& m.items.no_duplicates()
    &&& m.pinned.no_duplicates()
    &&& forall|i: int| 0 <= i < m.items.len() ==> !m.pinned.contains(#[trigger] m.items[i])
}

/// Removing an element keeps only elements of the list, keeps it free of
/// repeats, and (when there were none) drops the removed text entirely.
proof fn lemma_remove_facts(s: Seq<Seq<char>>, i: int)
    requires
        0 <= i < s.len(),
    ensures
        forall|x: Seq<char>| s.remove(i).contains(x) ==> s.contains(x),
        s.no_duplicates() ==> s.remove(i).no_duplicates(),
        s.no_duplicates() ==> !s.remove(i).contains(s[i]),
{
    let r = s.remove(i);
    assert forall|x: Seq<char>| r.contains(x) implies s.contains(x) by {
        let k = choose|k: int| 0 <= k < r.len() && r[k] == x;
        if k < i {
            assert(s[k] == x);
        } else {
            assert(s[k + 1] == x);
        }
    };
    if s.no_duplicates() {
        assert forall|a: int, b: int| 0 <= a < b < r.len() implies r[a] != r[b] by {
            let a2 = if a < i {
                a
            } else {
                a + 1
            };
            let b2 = if b < i {
                b
            } else {
                b + 1
            };
            assert(r[a] == s[a2] && r[b] == s[b2]);
        };
        if r.contains(s[i]) {
            let k = choose|k: int| 0 <= k < r.len() && r[k] == s[i];
            if k < i {
                assert(r[k] == s[k]);
            } else {
                assert(r[k] == s[k + 1]);
            }
        }
    }
}

/// The elements of a list cut short are elements of the list.
proof fn lemma_prefix_contains(s: Seq<Seq<char>>, n: int)
    requires
        0 <= n <= s.len(),
    ensures
        forall|x: Seq<char>| s.take(n).contains(x) ==> s.contains(x),
{
    assert forall|x: Seq<char>| s.take(n).contains(x) implies s.contains(x) by {
        let k = choose|k: int| 0 <= k < n && s.take(n)[k] == x;
        assert(s[k] == x);
    };
}

/// Every text in the history after a poll was in it before, or is the text
/// the poll reports.
proof fn lemma_poll_items_from(m: HistoryModel, change_count: int, text: Option<Seq<char>>)
    requires
        m.items.no_duplicates(),
        MIN_MAX_HISTORY <= m.limit,
    ensures
        ({
            let (m2, r) = poll_result(m, change_count, text);
            forall|x: Seq<char>|
                m2.items.contains(x) ==> m.items.contains(x) || r == Some(x)
        }),
{
    let items0 = if m.trim_pending {
        trimmed(m.items, m.limit)
    } else {
        m.items
    };
    if m.trim_pending && m.items.len() > m.limit {
        lemma_prefix_contains(m.items, m.limit);
        lemma_take_no_dup(m.items, m.limit);
    }
    let (m2, r) = poll_result(m, change_count, text);
    if let Some(t) = r {
        lemma_remove_value_no_dup(items0, t);
        let rest = items0.remove_value(t);
        let front = seq![t] + rest;
        assert forall|x: Seq<char>| m2.items.contains(x) implies m.items.contains(x) || x == t by {
            let k = choose|k: int| 0 <= k < m2.items.len() && m2.items[k] == x;
            assert(front[k] == x);
            if k > 0 {
                assert(rest[k - 1] == x);
                assert(rest.contains(x));
            }
        };
    }
}

/// Pinned texts stay apart from the rolling history: when no text is both
/// pinned and in the history and neither list repeats a text, that stays
/// so after a poll, a pin, an unpin, or deleting a history or pinned item.
pub proof fn law_pinned_stay_separate(
    m: HistoryModel,
    change_count: int,
    text: Option<Seq<char>>,
    idx: int,
)
    requires
        separate(m),
        MIN_MAX_HISTORY <= m.limit,
    ensures
        separate(poll_result(m, change_count, text).0),
        separate(pin_spec(m, idx)),
        separate(unpin_spec(m, idx)),
        0 <= idx < m.items.len() ==> separate(HistoryModel { items: m.items.remove(idx), ..m }),
        0 <= idx < m.pinned.len() ==> separate(
            HistoryModel { pinned: m.pinned.remove(idx), ..m },
        ),
{
    // Poll.
    law_poll_moves_copy_to_front(m, change_count, text);
    lemma_poll_items_from(m, change_count, text);
    let (m2, r) = poll_result(m, change_count, text);
    assert forall|i: int| 0 <= i < m2.items.len() implies !m2.pinned.contains(
        #[trigger] m2.items[i],
    ) by {
        let x = m2.items[i];
        assert(m2.items.contains(x));
        if m.items.contains(x) {
            let k = choose|k: int| 0 <= k < m.items.len() && m.items[k] == x;
            assert(!m.pinned.contains(m.items[k]));
        }
    };
    // Pin.
    if 0 <= idx < m.items.len() && !m.pinned.contains(m.items[idx]) {
        lemma_remove_facts(m.items, idx);
        let p = pin_spec(m, idx);
        let x = m.items[idx];
        assert forall|a: int, b: int| 0 <= a < b < p.pinned.len() implies p.pinned[a]
            != p.pinned[b] by {
            if b == p.pinned.len() - 1 {
                assert(m.pinned.contains(m.pinned[a]));
            }
        };
        assert forall|i: int| 0 <= i < p.items.len() implies !p.pinned.contains(
            #[trigger] p.items[i],
        ) by {
            let y = p.items[i];
            assert(p.items.contains(y));
            let k = choose|k: int| 0 <= k < m.items.len() && m.items[k] == y;
            assert(!m.pinned.contains(m.items[k]));
            if p.pinned.contains(y) {
                let j = choose|j: int| 0 <= j < p.pinned.len() && p.pinned[j] == y;
                if j < m.pinned.len() {
                    assert(m.pinned[j] == y);
                }
            }
        };
    }
    // Unpin.
    if 0 <= idx < m.pinned.len() {
        lemma_remove_facts(m.pinned, idx);
        let u = unpin_spec(m, idx);
        let t = m.pinned[idx];
        let base = if m.items.len() >= m.limit && m.items.len() > 0 {
            m.items.drop_last()
        } else {
            m.items
        };
        assert forall|x: Seq<char>| base.contains(x) implies m.items.contains(x) by {
            let k = choose|k: int| 0 <= k < base.len() && base[k] == x;
            assert(m.items[k] == x);
        };
        assert(!base.contains(t)) by {
            if base.contains(t) {
                let k = choose|k: int| 0 <= k < m.items.len() && m.items[k] == t;
                assert(!m.pinned.contains(m.items[k]));
                assert(m.pinned.contains(t));
            }
        };
        assert(u.items == seq![t] + base);
        assert forall|a: int, b: int| 0 <= a < b < u.items.len() implies u.items[a]
            != u.items[b] by {
            if a == 0 {
                assert(u.items[b] == base[b - 1]);
            } else {
                assert(u.items[a] == base[a - 1] && u.items[b] == base[b - 1]);
                assert(base[a - 1] == m.items[a - 1] && base[b - 1] == m.items[b - 1]);
            }
        };
        assert forall|i: int| 0 <= i < u.items.len() implies !u.pinned.contains(
            #[trigger] u.items[i],
        ) by {
            if i > 0 {
                let y = u.items[i];
                assert(y == base[i - 1]);
                assert(base.contains(y));
                let k = choose|k: int| 0 <= k < m.items.len() && m.items[k] == y;
                assert(!m.pinned.contains(m.items[k]));
            }
        };
    }
    // Deleting a history item.
    if 0 <= idx < m.items.len() {
        lemma_remove_facts(m.items, idx);
        let d = HistoryModel { items: m.items.remove(idx), ..m };
        assert forall|i: int| 0 <= i < d.items.len() implies !d.pinned.contains(
            #[trigger] d.items[i],
        ) by {
            let y = d.items[i];
            assert(d.items.contains(y));
            let k = choose|k: int| 0 <= k < m.items.len() && m.items[k] == y;
            assert(!m.pinned.contains(m.items[k]));
        };
    }
    // Deleting a pinned item.
    if 0 <= idx < m.pinned.len() {
        lemma_remove_facts(m.pinned, idx);
        let d = HistoryModel { pinned: m.pinned.remove(idx), ..m };
        assert forall|i: int| 0 <= i < d.items.len() implies !d.pinned.contains(
            #[trigger] d.items[i],
        ) by {
            assert(!m.pinned.contains(m.items[i]));
        };
    }
}

/// What a poll that records a copy does to the history, in terms of the
/// lists alone: the copied text heads the history. Re-copying a text that
/// is already there moves that text to the front: the length stays the
/// same and the other texts keep their order; nothing is evicted. A new
/// text is put in front of the history, and the oldest text is evicted
/// only when the history was already full.
pub proof fn law_poll_moves_or_evicts(m: HistoryModel, change_count: int, t: Seq<char>)
    requires
        !m.trim_pending,
        change_count != m.change_count,
        t.len() > 0,
        !m.pinned.contains(t),
        MIN_MAX_HISTORY <= m.limit,
        m.items.len() <= m.limit,
    ensures
        ({
            let (m2, r) = poll_result(m, change_count, Some(t));
            &&& r == Some(t)
            &&& m2.pinned == m.pinned
            &&& m2.items.len() > 0 && m2.items[0] == t
            &&& m.items.contains(t) ==> m2.items.len() == m.items.len() && m2.items.skip(1)
                == m.items.remove_value(t)
            &&& !m.items.contains(t) && m.items.len() < m.limit ==> m2.items == seq![t]
                + m.items
            &&& !m.items.contains(t) && m.items.len() == m.limit ==> m2.items == seq![t]
                + m.items.drop_last()
        }),
{
    let (m2, r) = poll_result(m, change_count, Some(t));
    m.items.index_of_first_ensures(t);
    let rest = m.items.remove_value(t);
    let front = seq![t] + rest;
    if m.items.contains(t) {
        let k = m.items.index_of_first(t).unwrap();
        assert(rest == m.items.remove(k));
        assert(rest.len() == m.items.len() - 1);
        assert(front.skip(1) =~= rest);
    } else {
        assert(m.items.index_of_first(t) is None);
        assert(rest == m.items);
        if m.items.len() == m.limit {
            assert(front.drop_last() =~= seq![t] + m.items.drop_last());
        }
    }
}

} // verus!
