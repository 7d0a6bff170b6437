//! The decisions of the clipboard popup: what a click, a context-menu choice
//! or a key press asks for, which rows the search query leaves visible, and
//! how rows and context-menu items are tagged. The panel itself is drawn by
//! the application.

use std::collections::VecDeque;
use vstd::prelude::*;
use vstd::string::{StrSliceExecFns, StringExecFns};

use crate::clipboard::{
    opt_text, pin_spec, texts, truncate_clean_spec, unpin_spec, ClipboardHistory, HistoryModel,
    LABEL_LEN, TOOLTIP_LEN,
};
use crate::text::{lowercase, str_to_lowercase, to_chars};

verus! {

broadcast use vstd::string::group_string_axioms;

/// What the user asked for in the popup.
#[derive(Debug, Copy, Clone, PartialEq, Eq, Structural)]
pub enum PopupAction {
    /// Paste history item `index`, or pinned item `index` when `pinned`.
    Paste { pinned: bool, index: usize },
    /// Pin history item `history_index`.
    Pin { history_index: usize },
    /// Unpin pinned item `pinned_index`.
    Unpin { pinned_index: usize },
    /// Delete history item `index`.
    DeleteHistory { index: usize },
    /// Delete pinned item `index`.
    DeletePinned { index: usize },
}

/// The context-menu action kind "pin".
pub const CTX_PIN: isize = 0;

/// The context-menu action kind "unpin".
pub const CTX_UNPIN: isize = 1;

/// The context-menu action kind "delete from history".
pub const CTX_DEL_HISTORY: isize = 2;

/// The context-menu action kind "delete pinned item".
pub const CTX_DEL_PINNED: isize = 3;

/// `s` without its last character.
pub fn backspace_str(s: &str) -> (r: &str)
    ensures
        r@ == (if s@.len() == 0 {
            s@
        } else {
            s@.drop_last()
        }),
{
    let n = s.unicode_len();
    if n == 0 {
        s.substring_char(0, 0)
    } else {
        s.substring_char(0, n - 1)
    }
}

/// The tag of a context-menu item: the action kind above bit 16, the item
/// index in the low 16 bits.
pub open spec fn ctx_tag_spec(kind: isize, index: usize) -> isize {
    (kind << 16) | ((index as isize) & 0xFFFF)
}

/// Tags a context-menu item with its action kind and item index.
pub fn ctx_tag(kind: isize, index: usize) -> (r: isize)
    ensures
        r == ctx_tag_spec(kind, index),
{
    (kind << 16) | (index as isize & 0xFFFF)
}

/// The action kind (two bits above bit 16) and item index (low 16 bits) of
/// a context-menu tag.
pub fn ctx_decode(tag: isize) -> (r: (isize, usize))
    ensures
        r == ((tag >> 16) & 3, (tag & 0xFFFF) as usize),
{
    let kind = (tag >> 16) & 0x3;
    let index = (tag & 0xFFFF) as usize;
    (kind, index)
}

/// Tagging then decoding gives back the kind and index, for the four kinds
/// and indices below 2^16 (the tag keeps only 16 bits of the index).
pub proof fn law_ctx_tag_decode(kind: isize, index: usize)
    requires
        0 <= kind <= 3,
        index < 65536,
    ensures
        ((ctx_tag_spec(kind, index) >> 16) & 3, (ctx_tag_spec(kind, index) & 0xFFFF) as usize) == (
        kind,
        index,
    ),
{
    let i = index as isize;
    assert(i == index);
    assert((((kind << 16) | (i & 0xFFFF)) >> 16) & 3 == kind) by (bit_vector)
        requires
            0 <= kind <= 3,
            0 <= i < 65536,
    ;
    assert(((kind << 16) | (i & 0xFFFF)) & 0xFFFF == i) by (bit_vector)
        requires
            0 <= kind <= 3,
            0 <= i < 65536,
    ;
}

/// The action for a context-menu tag.
pub open spec fn ctx_action_spec(kind: isize, index: usize) -> Option<PopupAction> {
    if kind == CTX_PIN {
        Some(PopupAction::Pin { history_index: index })
    } else if kind == CTX_UNPIN {
        Some(PopupAction::Unpin { pinned_index: index })
    } else if kind == CTX_DEL_HISTORY {
        Some(PopupAction::DeleteHistory { index })
    } else if kind == CTX_DEL_PINNED {
        Some(PopupAction::DeletePinned { index })
    } else {
        None
    }
}

/// The action chosen in a row's context menu: none when the menu was
/// dismissed or no item was highlighted (tag below zero).
pub fn context_menu_action(selected: bool, highlighted_tag: isize) -> (r: Option<PopupAction>)
    ensures
        r == (if selected && highlighted_tag >= 0 {
            ctx_action_spec((highlighted_tag >> 16) & 3, (highlighted_tag & 0xFFFF) as usize)
        } else {
            None
        }),
{
    if selected && highlighted_tag >= 0 {
        let (kind, idx) = ctx_decode(highlighted_tag);
        if kind == CTX_PIN {
            Some(PopupAction::Pin { history_index: idx })
        } else if kind == CTX_UNPIN {
            Some(PopupAction::Unpin { pinned_index: idx })
        } else if kind == CTX_DEL_HISTORY {
            Some(PopupAction::DeleteHistory { index: idx })
        } else if kind == CTX_DEL_PINNED {
            Some(PopupAction::DeletePinned { index: idx })
        } else {
            None
        }
    } else {
        None
    }
}

/// The items of a row's context menu, as titles and tags: Unpin and Delete
/// for a pinned row, Pin and Delete from history for a history row.
pub fn context_menu_items(is_pinned: bool, index: usize) -> (r: Vec<(String, isize)>)
    ensures
        r@.len() == 2,
        r@[0].0@ == (if is_pinned {
            "Unpin"@
        } else {
            "Pin"@
        }),
        r@[0].1 == ctx_tag_spec(
            if is_pinned {
                CTX_UNPIN
            } else {
                CTX_PIN
            },
            index,
        ),
        r@[1].0@ == (if is_pinned {
            "Delete"@
        } else {
            "Delete from history"@
        }),
        r@[1].1 == ctx_tag_spec(
            if is_pinned {
                CTX_DEL_PINNED
            } else {
                CTX_DEL_HISTORY
            },
            index,
        ),
{
    let mut r: Vec<(String, isize)> = Vec::new();
    if is_pinned {
        r.push((String::from_str("Unpin"), ctx_tag(CTX_UNPIN, index)));
        r.push((String::from_str("Delete"), ctx_tag(CTX_DEL_PINNED, index)));
    } else {
        r.push((String::from_str("Pin"), ctx_tag(CTX_PIN, index)));
        r.push((String::from_str("Delete from history"), ctx_tag(CTX_DEL_HISTORY, index)));
    }
    r
}

/// The tag of a popup row: bit 16 set for a pinned row, the index below.
pub open spec fn row_tag_spec(pinned: bool, index: usize) -> isize {
    if pinned {
        (1isize << 16) | (index as isize)
    } else {
        index as isize
    }
}

/// Tags a popup row.
pub fn row_tag(pinned: bool, index: usize) -> (r: isize)
    ensures
        r == row_tag_spec(pinned, index),
{
    if pinned {
        (1isize << 16) | (index as isize)
    } else {
        index as isize
    }
}

/// The action of a click on the row with tag `tag`: paste that row.
pub fn row_click_action(tag: isize) -> (r: PopupAction)
    ensures
        r == (PopupAction::Paste {
            pinned: (tag >> 16) & 1 == 1,
            index: (tag & 0xFFFF) as usize,
        }),
{
    let is_pinned = (tag >> 16) & 1 == 1;
    let index = (tag & 0xFFFF) as usize;
    PopupAction::Paste { pinned: is_pinned, index }
}

/// Clicking a row pastes the row it tags, for indices below 2^16.
pub proof fn law_row_tag_click(pinned: bool, index: usize)
    requires
        index < 65536,
    ensures
        (row_tag_spec(pinned, index) >> 16) & 1 == 1 <==> pinned,
        (row_tag_spec(pinned, index) & 0xFFFF) as usize == index,
{
    let i = index as isize;
    assert(i == index);
    if pinned {
        assert(((1isize << 16) | i) >> 16 & 1 == 1) by (bit_vector)
            requires
                0 <= i < 65536,
        ;
        assert(((1isize << 16) | i) & 0xFFFF == i) by (bit_vector)
            requires
                0 <= i < 65536,
        ;
    } else {
        assert((i >> 16) & 1 == 0) by (bit_vector)
            requires
                0 <= i < 65536,
        ;
        assert(i & 0xFFFF == i) by (bit_vector)
            requires
                0 <= i < 65536,
        ;
    }
}

/// The first visible row at or after `start`.
pub open spec fn first_visible_from(hidden: Seq<bool>, start: int) -> Option<usize>
    decreases hidden.len() - start,
{
    if start >= hidden.len() || start < 0 {
        None
    } else if !hidden[start] {
        Some(start as usize)
    } else {
        first_visible_from(hidden, start + 1)
    }
}

/// The last visible row before `end`.
pub open spec fn last_visible_before(hidden: Seq<bool>, end: int) -> Option<usize>
    decreases end,
{
    if end <= 0 {
        None
    } else if end - 1 < hidden.len() && !hidden[end - 1] {
        Some((end - 1) as usize)
    } else {
        last_visible_before(hidden, end - 1)
    }
}

/// The first visible row at or after `start`, computed.
fn find_visible_from(hidden: &Vec<bool>, start: usize) -> (r: Option<usize>)
    ensures
        r == first_visible_from(hidden@, start as int),
    decreases hidden@.len() - start,
{
    if start >= hidden.len() {
        None
    } else if !hidden[start] {
        Some(start)
    } else {
        find_visible_from(hidden, start + 1)
    }
}

/// The row that Down selects: the first visible row after the selected
/// one, or from the top when none is selected.
pub fn next_visible_row(hidden: &Vec<bool>, selected: Option<usize>) -> (r: Option<usize>)
    requires
        selected matches Some(i) ==> i < usize::MAX,
    ensures
        r == first_visible_from(
            hidden@,
            match selected {
                None => 0,
                Some(i) => i + 1,
            },
        ),
{
    let start = match selected {
        None => 0,
        Some(i) => i + 1,
    };
    find_visible_from(hidden, start)
}

/// The row that Up selects: the last visible row before the selected one;
/// none when nothing or the first row is selected, or no row above is
/// visible.
pub fn prev_visible_row(hidden: &Vec<bool>, selected: Option<usize>) -> (r: Option<usize>)
    ensures
        r == match selected {
            None => None,
            Some(i) => last_visible_before(hidden@, i as int),
        },
{
    match selected {
        None => None,
        Some(i) => {
            let mut j = i;
            while j > 0
                invariant
                    j <= i,
                    selected == Some(i),
                    last_visible_before(hidden@, i as int) == last_visible_before(
                        hidden@,
                        j as int,
                    ),
                decreases j,
            {
                if j - 1 < hidden.len() && !hidden[j - 1] {
                    proof {
                        assert(last_visible_before(hidden@, j as int) == Some((j - 1) as usize));
                    }
                    return Some(j - 1);
                }
                j = j - 1;
            }
            None
        },
    }
}

/// The paste action for overall row `index`: history rows come first, then
/// pinned rows.
pub open spec fn paste_row_spec(index: usize, history_count: usize) -> PopupAction {
    if index < history_count {
        PopupAction::Paste { pinned: false, index }
    } else {
        PopupAction::Paste { pinned: true, index: (index - history_count) as usize }
    }
}

/// What Enter asks for: paste the selected row, or the first visible row
/// when none is selected; nothing when no row is visible.
pub fn enter_action(hidden: &Vec<bool>, selected: Option<usize>, history_count: usize) -> (r:
    Option<PopupAction>)
    ensures
        r == match selected {
            Some(i) => Some(paste_row_spec(i, history_count)),
            None => match first_visible_from(hidden@, 0) {
                Some(i) => Some(paste_row_spec(i, history_count)),
                None => None,
            },
        },
{
    let index = match selected {
        Some(i) => Some(i),
        None => find_visible_from(hidden, 0),
    };
    match index {
        Some(i) => if i < history_count {
            Some(PopupAction::Paste { pinned: false, index: i })
        } else {
            Some(PopupAction::Paste { pinned: true, index: i - history_count })
        },
        None => None,
    }
}

/// What the `p` key asks for on the selected row: pin a history row, unpin
/// a pinned row.
pub fn pin_key_action(selected: usize, history_count: usize) -> (r: PopupAction)
    ensures
        r == (if selected < history_count {
            PopupAction::Pin { history_index: selected }
        } else {
            PopupAction::Unpin { pinned_index: (selected - history_count) as usize }
        }),
{
    if selected < history_count {
        PopupAction::Pin { history_index: selected }
    } else {
        PopupAction::Unpin { pinned_index: selected - history_count }
    }
}

/// Whether `needle` occurs in `hay`.
pub open spec fn contains_seq(hay: Seq<char>, needle: Seq<char>) -> bool {
    exists|i: int|
        0 <= i && i + needle.len() <= hay.len() && #[trigger] hay.subrange(i, i + needle.len())
            == needle
}

/// Whether `needle` occurs in `hay`, computed.
fn contains_chars(hay: &Vec<char>, needle: &Vec<char>) -> (r: bool)
    ensures
        r == contains_seq(hay@, needle@),
{
    let n = needle.len();
    if n > hay.len() {
        return false;
    }
    let mut i: usize = 0;
    while i <= hay.len() - n
        invariant
            n == needle@.len(),
            n <= hay@.len(),
            i <= hay@.len() - n + 1,
            forall|k: int| 0 <= k < i ==> #[trigger] hay@.subrange(k, k + n) != needle@,
        decreases hay@.len() - i,
    {
        let mut j: usize = 0;
        let mut ok = true;
        while j < n
            invariant
                n == needle@.len(),
                n <= hay@.len(),
                i <= hay@.len() - n,
                j <= n,
                ok == (forall|k: int| 0 <= k < j ==> hay@[i + k] == needle@[k]),
            decreases n - j,
        {
            proof {
                assert(hay@.len() == hay.len());
            }
            if hay[i + j] != needle[j] {
                ok = false;
            }
            j = j + 1;
        }
        if ok {
            proof {
                assert(hay@.subrange(i as int, i + n) =~= needle@);
            }
            return true;
        } else {
            proof {
                let k = choose|k: int| 0 <= k < n && hay@[i + k] != needle@[k];
                assert(hay@.subrange(i as int, i + n)[k] != needle@[k]);
            }
        }
        i = i + 1;
    }
    proof {
        assert forall|k: int|
            0 <= k && k + n <= hay@.len() implies #[trigger] hay@.subrange(k, k + n)
            != needle@ by {};
    }
    false
}

/// Whether a row with searchable text `text` stays visible for `query`:
/// the query is empty, or its lower case occurs in the text's lower case.
pub open spec fn row_matches_spec(query: Seq<char>, text: Seq<char>) -> bool {
    str_to_lowercase(query).len() == 0 || contains_seq(
        str_to_lowercase(text),
        str_to_lowercase(query),
    )
}

/// Whether a row with searchable text `text` stays visible for `query`.
pub fn row_matches(query: &str, text: &str) -> (r: bool)
    ensures
        r == row_matches_spec(query@, text@),
{
    let q = lowercase(query);
    if q.as_str().is_empty() {
        return true;
    }
    let t = lowercase(text);
    let qc = to_chars(q.as_str());
    let tc = to_chars(t.as_str());
    contains_chars(&tc, &qc)
}

/// Which rows the search query hides, one flag per row text.
pub fn filter_hidden(query: &str, row_texts: &Vec<String>) -> (r: Vec<bool>)
    ensures
        r@.len() == row_texts@.len(),
        forall|i: int| 0 <= i < r@.len() ==> #[trigger] r@[i] == !row_matches_spec(
            query@,
            row_texts@[i]@,
        ),
{
    let mut r: Vec<bool> = Vec::new();
    let mut i: usize = 0;
    while i < row_texts.len()
        invariant
            i <= row_texts@.len(),
            r@.len() == i,
            forall|k: int| 0 <= k < i ==> #[trigger] r@[k] == !row_matches_spec(
                query@,
                row_texts@[k]@,
            ),
        decreases row_texts@.len() - i,
    {
        r.push(!row_matches(query, row_texts[i].as_str()));
        i = i + 1;
    }
    r
}

/// The popup rows of a list of texts: each index with its label and
/// tooltip.
pub fn popup_rows(list: &VecDeque<String>) -> (r: Vec<(usize, String, String)>)
    ensures
        r@.len() == list@.len(),
        forall|i: int|
            0 <= i < r@.len() ==> {
                &&& #[trigger] r@[i].0 == i
                &&& r@[i].1@ == truncate_clean_spec(texts(list@)[i], LABEL_LEN as int)
                &&& r@[i].2@ == truncate_clean_spec(texts(list@)[i], TOOLTIP_LEN as int)
            },
{
    let mut r: Vec<(usize, String, String)> = Vec::new();
    let mut i: usize = 0;
    while i < list.len()
        invariant
            i <= list@.len(),
            r@.len() == i,
            forall|k: int|
                0 <= k < i ==> {
                    &&& #[trigger] r@[k].0 == k
                    &&& r@[k].1@ == truncate_clean_spec(texts(list@)[k], LABEL_LEN as int)
                    &&& r@[k].2@ == truncate_clean_spec(texts(list@)[k], TOOLTIP_LEN as int)
                },
        decreases list@.len() - i,
    {
        let t = list[i].as_str();
        let ghost before = r@;
        r.push((i, ClipboardHistory::display_label(t), ClipboardHistory::display_tooltip(t)));
        proof {
            assert(texts(list@)[i as int] == list@[i as int]@);
            assert forall|k: int| 0 <= k < i implies r@[k] == before[k] by {};
        }
        i = i + 1;
    }
    r
}

/// What the popup loop does after the popup closed with an action.
pub struct PopupStep {
    /// The text to write to the pasteboard and paste, if any.
    pub paste: Option<String>,
    /// Whether to save the history and rebuild the tray menu.
    pub save: bool,
    /// Whether to show the popup again, where it was.
    pub reshow: bool,
}

/// The history after a popup action: pin, unpin and delete change it;
/// pasting and dismissing do not.
pub open spec fn model_after_action(m: HistoryModel, a: Option<PopupAction>) -> HistoryModel {
    match a {
        Some(PopupAction::Pin { history_index }) => pin_spec(m, history_index as int),
        Some(PopupAction::Unpin { pinned_index }) => unpin_spec(m, pinned_index as int),
        Some(PopupAction::DeleteHistory { index }) => if index < m.items.len() {
            HistoryModel { items: m.items.remove(index as int), ..m }
        } else {
            m
        },
        Some(PopupAction::DeletePinned { index }) => if index < m.pinned.len() {
            HistoryModel { pinned: m.pinned.remove(index as int), ..m }
        } else {
            m
        },
        _ => m,
    }
}

/// The text a paste action picks: the history or pinned item it names,
/// when there is one.
pub open spec fn pasted_text(m: HistoryModel, a: Option<PopupAction>) -> Option<Seq<char>> {
    match a {
        Some(PopupAction::Paste { pinned, index }) => if pinned {
            if index < m.pinned.len() {
                Some(m.pinned[index as int])
            } else {
                None
            }
        } else {
            if index < m.items.len() {
                Some(m.items[index as int])
            } else {
                None
            }
        },
        _ => None,
    }
}

/// Carries out the action the popup closed with. A paste picks its text
/// (to be written to the pasteboard and pasted) and ends the popup, saving
/// when there was a text; pin, unpin and delete change the history, which is
/// saved, and the popup is shown again unless both lists are now empty;
/// dismissing ends the popup and changes nothing.
pub fn apply_popup_action(h: &mut ClipboardHistory, a: Option<PopupAction>) -> (r: PopupStep)
    requires
        old(h).wf(),
    ensures
        final(h).wf(),
        final(h)@ == model_after_action(old(h)@, a),
        opt_text(r.paste) == pasted_text(old(h)@, a),
        match a {
            None => !r.save && !r.reshow,
            Some(PopupAction::Paste { .. }) => r.save == (r.paste is Some) && !r.reshow,
            Some(_) => r.save && r.reshow == !(final(h)@.items.len() == 0
                && final(h)@.pinned.len() == 0),
        },
{
    match a {
        None => {
            return PopupStep { paste: None, save: false, reshow: false };
        },
        Some(PopupAction::Paste { pinned, index }) => {
            let text = if pinned {
                h.select_pinned(index)
            } else {
                h.select(index)
            };
            let save = text.is_some();
            return PopupStep { paste: text, save, reshow: false };
        },
        Some(PopupAction::Pin { history_index }) => h.pin(history_index),
        Some(PopupAction::Unpin { pinned_index }) => h.unpin(pinned_index),
        Some(PopupAction::DeleteHistory { index }) => h.delete_history(index),
        Some(PopupAction::DeletePinned { index }) => h.delete_pinned(index),
    };
    let reshow = !(h.items().len() == 0 && h.pinned_items().len() == 0);
    PopupStep { paste: None, save: true, reshow }
}

/// The search filter looks at a row's whole text: a row stays visible
/// exactly when the query is empty or the lower-cased query occurs at some
/// position of the lower-cased full text, however far into the text that is.
pub proof fn law_filter_searches_full_text(query: Seq<char>, text: Seq<char>)
    ensures
        row_matches_spec(query, text) <==> (str_to_lowercase(query).len() == 0 || exists|i: int|
            0 <= i && i + str_to_lowercase(query).len() <= str_to_lowercase(text).len()
                && #[trigger] str_to_lowercase(text).subrange(
                i,
                i + str_to_lowercase(query).len(),
            ) == str_to_lowercase(query)),
{
}

/// Up goes to the nearest visible row above: the row it picks lies before
/// `end` and is visible, every row between it and `end` is hidden, and it
/// picks none only when every row before `end` is hidden (row 0 included).
pub proof fn law_up_picks_nearest_visible_row(hidden: Seq<bool>, end: int)
    requires
        hidden.len() <= usize::MAX,
    ensures
        match last_visible_before(hidden, end) {
            Some(j) => {
                &&& j < end && j < hidden.len()
                &&& !hidden[j as int]
                &&& forall|k: int| j < k < end && k < hidden.len() ==> hidden[k]
            },
            None => forall|k: int| 0 <= k < end && k < hidden.len() ==> hidden[k],
        },
    decreases end,
{
    if end > 0 {
        law_up_picks_nearest_visible_row(hidden, end - 1);
    }
}

/// Down goes to the nearest visible row from `start` on: the row it picks
/// is at or after `start` and visible, every row between is hidden, and it
/// picks none only when every row from `start` on is hidden.
pub proof fn law_down_picks_nearest_visible_row(hidden: Seq<bool>, start: int)
    requires
        0 <= start,
        hidden.len() <= usize::MAX,
    ensures
        match first_visible_from(hidden, start) {
            Some(j) => {
                &&& start <= j < hidden.len()
                &&& !hidden[j as int]
                &&& forall|k: int| start <= k < j ==> hidden[k]
            },
            None => forall|k: int| start <= k < hidden.len() ==> hidden[k],
        },
    decreases hidden.len() - start,
{
    if start < hidden.len() {
        law_down_picks_nearest_visible_row(hidden, start + 1);
    }
}

} // verus!
