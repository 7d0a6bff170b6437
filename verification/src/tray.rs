//! The tray menu: which entries it shows, in which order, with which tags,
//! and what a click on a tagged entry asks for. The menu itself is built by
//! the application from these entries.

use std::collections::VecDeque;
use vstd::prelude::*;
use vstd::string::StringExecFns;

use crate::clipboard::{texts, truncate_clean_spec, ClipboardHistory, LABEL_LEN, TOOLTIP_LEN};
use crate::text::push_char;

verus! {

broadcast use vstd::string::group_string_axioms;

/// One entry of the tray menu.
pub enum MenuEntry {
    /// A line of text that cannot be clicked.
    Disabled(String),
    /// A clipboard item that pastes when clicked.
    Item { title: String, tooltip: String, tag: isize },
    /// A separator line.
    Separator,
    /// "Clear History".
    ClearHistory,
    /// "Settings", with the `,` key equivalent.
    Settings,
    /// "Quit Cliphop", with the `q` key equivalent.
    Quit,
}

/// The abstract content of a `MenuEntry`.
pub enum MenuView {
    Disabled(Seq<char>),
    Item(Seq<char>, Seq<char>, isize),
    Separator,
    ClearHistory,
    Settings,
    Quit,
}

impl View for MenuEntry {
    type V = MenuView;

    open spec fn view(&self) -> MenuView {
        match self {
            MenuEntry::Disabled(s) => MenuView::Disabled(s@),
            MenuEntry::Item { title, tooltip, tag } => MenuView::Item(title@, tooltip@, *tag),
            MenuEntry::Separator => MenuView::Separator,
            MenuEntry::ClearHistory => MenuView::ClearHistory,
            MenuEntry::Settings => MenuView::Settings,
            MenuEntry::Quit => MenuView::Quit,
        }
    }
}

/// The pin shown before pinned entries.
pub const PIN_SYMBOL: char = '\u{1F4CC}';

/// The tag of a pinned tray entry: bit 16 set, the index below.
pub open spec fn pinned_tag(index: int) -> isize {
    ((1usize << 16) | (index as usize)) as isize
}

/// The menu entries of the history rows (label, tooltip), tagged with
/// their index.
pub open spec fn history_entries(items: Seq<(Seq<char>, Seq<char>)>) -> Seq<MenuView> {
    Seq::new(items.len(), |i: int| MenuView::Item(items[i].0, items[i].1, i as isize))
}

/// The menu entries of the pinned rows, titled with the pin symbol and
/// tagged with bit 16 and their index.
pub open spec fn pinned_entries(pinned: Seq<(Seq<char>, Seq<char>)>) -> Seq<MenuView> {
    Seq::new(
        pinned.len(),
        |i: int| MenuView::Item(seq![PIN_SYMBOL, ' '] + pinned[i].0, pinned[i].1, pinned_tag(i)),
    )
}

/// The whole tray menu: "No items yet" when both lists are empty, else the
/// history entries and, when there are pinned rows, a separator, a
/// "Pinned" header and the pinned entries; then a separator, Clear History,
/// a separator, Settings and Quit.
pub open spec fn menu_spec(
    items: Seq<(Seq<char>, Seq<char>)>,
    pinned: Seq<(Seq<char>, Seq<char>)>,
) -> Seq<MenuView> {
    let body = if items.len() == 0 && pinned.len() == 0 {
        seq![MenuView::Disabled("No items yet"@)]
    } else {
        history_entries(items) + if pinned.len() > 0 {
            seq![MenuView::Separator, MenuView::Disabled("Pinned"@)] + pinned_entries(pinned)
        } else {
            Seq::empty()
        }
    };
    body + seq![
        MenuView::Separator,
        MenuView::ClearHistory,
        MenuView::Separator,
        MenuView::Settings,
        MenuView::Quit,
    ]
}

/// The views of (label, tooltip) rows.
pub open spec fn row_views(v: Seq<(String, String)>) -> Seq<(Seq<char>, Seq<char>)> {
    v.map_values(|p: (String, String)| (p.0@, p.1@))
}

/// The views of menu entries.
pub open spec fn entry_views(v: Seq<MenuEntry>) -> Seq<MenuView> {
    v.map_values(|e: MenuEntry| e@)
}

/// Appends the entries of `rows` to `out`, pinned or not.
fn push_rows(out: &mut Vec<MenuEntry>, rows: &Vec<(String, String)>, pinned: bool)
    ensures
        entry_views(final(out)@) == entry_views(old(out)@) + if pinned {
            pinned_entries(row_views(rows@))
        } else {
            history_entries(row_views(rows@))
        },
{
    let ghost start = entry_views(out@);
    let ghost want = if pinned {
        pinned_entries(row_views(rows@))
    } else {
        history_entries(row_views(rows@))
    };
    let mut i: usize = 0;
    while i < rows.len()
        invariant
            i <= rows@.len(),
            want == (if pinned {
                pinned_entries(row_views(rows@))
            } else {
                history_entries(row_views(rows@))
            }),
            entry_views(out@) == start + want.take(i as int),
        decreases rows@.len() - i,
    {
        let (label, tooltip) = &rows[i];
        let e = if pinned {
            let mut title = String::new();
            push_char(&mut title, PIN_SYMBOL);
            push_char(&mut title, ' ');
            title.append(label.as_str());
            proof {
                assert(title@ =~= seq![PIN_SYMBOL, ' '] + label@);
            }
            MenuEntry::Item {
                title,
                tooltip: tooltip.clone(),
                tag: ((1usize << 16) | i) as isize,
            }
        } else {
            MenuEntry::Item { title: label.clone(), tooltip: tooltip.clone(), tag: i as isize }
        };
        let ghost before = entry_views(out@);
        out.push(e);
        proof {
            assert(want[i as int] == e@);
            assert(entry_views(out@) =~= before.push(e@));
            assert(want.take(i + 1) =~= want.take(i as int).push(want[i as int]));
            assert(start + want.take(i + 1) =~= (start + want.take(i as int)).push(want[i as int]));
        }
        i = i + 1;
    }
    proof {
        assert(want.take(i as int) =~= want);
    }
}

/// The entries of the tray menu for the history rows and the pinned rows,
/// each a (label, tooltip) pair.
pub fn menu_entries(items: &Vec<(String, String)>, pinned: &Vec<(String, String)>) -> (r: Vec<
    MenuEntry,
>)
    ensures
        entry_views(r@) == menu_spec(row_views(items@), row_views(pinned@)),
{
    let mut out: Vec<MenuEntry> = Vec::new();
    proof {
        assert(entry_views(out@) =~= Seq::empty());
    }
    if items.len() == 0 && pinned.len() == 0 {
        out.push(MenuEntry::Disabled(String::from_str("No items yet")));
        proof {
            assert(entry_views(out@) =~= seq![MenuView::Disabled("No items yet"@)]);
        }
    } else {
        push_rows(&mut out, items, false);
        if pinned.len() > 0 {
            out.push(MenuEntry::Separator);
            out.push(MenuEntry::Disabled(String::from_str("Pinned")));
            push_rows(&mut out, pinned, true);
        }
    }
    let ghost body = entry_views(out@);
    out.push(MenuEntry::Separator);
    out.push(MenuEntry::ClearHistory);
    out.push(MenuEntry::Separator);
    out.push(MenuEntry::Settings);
    out.push(MenuEntry::Quit);
    proof {
        let hs = history_entries(row_views(items@));
        let ps = pinned_entries(row_views(pinned@));
        if !(items@.len() == 0 && pinned@.len() == 0) {
            if pinned@.len() > 0 {
                assert(body =~= hs + (seq![MenuView::Separator, MenuView::Disabled("Pinned"@)]
                    + ps));
            } else {
                assert(body =~= hs + Seq::<MenuView>::empty());
            }
        }
        assert(entry_views(out@) =~= body + seq![
            MenuView::Separator,
            MenuView::ClearHistory,
            MenuView::Separator,
            MenuView::Settings,
            MenuView::Quit,
        ]);
    }
    out
}

/// What a click on a tray entry with tag `tag` asks for: whether the entry
/// is pinned (bit 16), and its index (the low 16 bits).
pub fn decode_tray_tag(tag: usize) -> (r: (bool, usize))
    ensures
        r == ((tag >> 16) & 1 == 1, tag & 0xFFFF),
{
    ((tag >> 16) & 1 == 1, tag & 0xFFFF)
}

/// A click on a tray entry decodes to the entry it tags, for indices below
/// 2^16: pinned entries carry bit 16, history entries do not.
pub proof fn law_tray_tag_click(index: usize, pinned: bool)
    requires
        index < 65536,
    ensures
        ({
            let tag: usize = if pinned {
                (1usize << 16) | index
            } else {
                index
            };
            ((tag >> 16) & 1 == 1) == pinned && tag & 0xFFFF == index
        }),
{
    assert(((1usize << 16) | index) >> 16 & 1 == 1) by (bit_vector)
        requires
            index < 65536,
    ;
    assert(((1usize << 16) | index) & 0xFFFF == index) by (bit_vector)
        requires
            index < 65536,
    ;
    assert((index >> 16) & 1 == 0) by (bit_vector)
        requires
            index < 65536,
    ;
    assert(index & 0xFFFF == index) by (bit_vector)
        requires
            index < 65536,
    ;
}

/// The (label, tooltip) rows of a list of texts, for the tray menu.
pub fn tray_rows(list: &VecDeque<String>) -> (r: Vec<(String, String)>)
    ensures
        r@.len() == list@.len(),
        forall|i: int|
            0 <= i < r@.len() ==> {
                &&& #[trigger] r@[i].0@ == truncate_clean_spec(texts(list@)[i], LABEL_LEN as int)
                &&& r@[i].1@ == truncate_clean_spec(texts(list@)[i], TOOLTIP_LEN as int)
            },
{
    let mut r: Vec<(String, String)> = Vec::new();
    let mut i: usize = 0;
    while i < list.len()
        invariant
            i <= list@.len(),
            r@.len() == i,
            forall|k: int|
                0 <= k < i ==> {
                    &&& #[trigger] r@[k].0@ == truncate_clean_spec(
                        texts(list@)[k],
                        LABEL_LEN as int,
                    )
                    &&& r@[k].1@ == truncate_clean_spec(texts(list@)[k], TOOLTIP_LEN as int)
                },
        decreases list@.len() - i,
    {
        let t = list[i].as_str();
        let ghost before = r@;
        r.push((ClipboardHistory::display_label(t), ClipboardHistory::display_tooltip(t)));
        proof {
            assert(texts(list@)[i as int] == list@[i as int]@);
            assert forall|k: int| 0 <= k < i implies r@[k] == before[k] by {};
        }
        i = i + 1;
    }
    r
}

/// Every row appears in the tray menu. The history rows come first, in
/// order, each tagged with its index. Each pinned row appears, whether or
/// not the history is empty, titled with the pin and tagged with bit 16
/// and its index. "No items yet" is shown exactly when both lists are
/// empty.
pub proof fn law_menu_shows_every_row(
    items: Seq<(Seq<char>, Seq<char>)>,
    pinned: Seq<(Seq<char>, Seq<char>)>,
)
    requires
        pinned.len() < 65536,
    ensures
        menu_spec(items, pinned).contains(MenuView::Disabled("No items yet"@)) <==> (items.len()
            == 0 && pinned.len() == 0),
        forall|i: int|
            0 <= i < items.len() ==> menu_spec(items, pinned)[i] == MenuView::Item(
                items[i].0,
                items[i].1,
                i as isize,
            ),
        forall|i: int|
            0 <= i < pinned.len() ==> menu_spec(items, pinned).contains(
                MenuView::Item(seq![PIN_SYMBOL, ' '] + pinned[i].0, pinned[i].1, (65536 + i) as isize),
            ),
{
    reveal_strlit("No items yet");
    reveal_strlit("Pinned");
    let menu = menu_spec(items, pinned);
    let none = MenuView::Disabled("No items yet"@);
    if items.len() == 0 && pinned.len() == 0 {
        assert(menu[0] == none);
    } else {
        assert("Pinned"@.len() != "No items yet"@.len());
        assert forall|k: int| 0 <= k < menu.len() implies menu[k] != none by {
            if menu[k] == none {
                assert(menu[k] != MenuView::Disabled("Pinned"@));
            }
        };
        assert forall|i: int| 0 <= i < pinned.len() implies menu.contains(
            MenuView::Item(seq![PIN_SYMBOL, ' '] + pinned[i].0, pinned[i].1, (65536 + i) as isize),
        ) by {
            let iu = i as usize;
            assert(((1usize << 16) | iu) == 65536 + iu) by (bit_vector)
                requires
                    iu < 65536,
            ;
            let k = items.len() + 2 + i;
            assert(menu[k] == pinned_entries(pinned)[i]);
        };
    }
}

} // verus!
