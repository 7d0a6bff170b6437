use std::collections::VecDeque;

use cliphop::popup::{
    backspace_str, context_menu_action, context_menu_items, ctx_decode, ctx_tag, enter_action,
    filter_hidden, next_visible_row, pin_key_action, popup_rows, prev_visible_row,
    row_click_action, row_matches, row_tag, PopupAction, CTX_DEL_HISTORY, CTX_DEL_PINNED,
    CTX_PIN, CTX_UNPIN,
};

#[test]
fn backspace_ascii() {
    assert_eq!(backspace_str("hello"), "hell");
}

#[test]
fn backspace_empty() {
    assert_eq!(backspace_str(""), "");
}

#[test]
fn backspace_single_char() {
    assert_eq!(backspace_str("a"), "");
}

#[test]
fn backspace_hebrew() {
    assert_eq!(backspace_str("שלום"), "שלו");
}

#[test]
fn backspace_emoji() {
    assert_eq!(backspace_str("hi🙂"), "hi");
}

#[test]
fn backspace_mixed_scripts() {
    assert_eq!(backspace_str("abcדהו"), "abcדה");
}

// ── Further cases ────────────────────────────────────────────────────

#[test]
fn context_tags_round_trip() {
    for kind in [CTX_PIN, CTX_UNPIN, CTX_DEL_HISTORY, CTX_DEL_PINNED] {
        for index in [0usize, 1, 49, 65535] {
            assert_eq!(ctx_decode(ctx_tag(kind, index)), (kind, index));
        }
    }
    assert_eq!(ctx_tag(CTX_DEL_HISTORY, 3), (2 << 16) | 3);
    // Only the low 16 bits of the index are kept.
    assert_eq!(ctx_decode(ctx_tag(CTX_PIN, 65536 + 7)), (CTX_PIN, 7));
}

#[test]
fn context_menu_choices() {
    assert_eq!(context_menu_action(false, ctx_tag(CTX_PIN, 2)), None);
    assert_eq!(context_menu_action(true, -1), None);
    assert_eq!(
        context_menu_action(true, ctx_tag(CTX_PIN, 2)),
        Some(PopupAction::Pin { history_index: 2 })
    );
    assert_eq!(
        context_menu_action(true, ctx_tag(CTX_UNPIN, 4)),
        Some(PopupAction::Unpin { pinned_index: 4 })
    );
    assert_eq!(
        context_menu_action(true, ctx_tag(CTX_DEL_HISTORY, 0)),
        Some(PopupAction::DeleteHistory { index: 0 })
    );
    assert_eq!(
        context_menu_action(true, ctx_tag(CTX_DEL_PINNED, 9)),
        Some(PopupAction::DeletePinned { index: 9 })
    );
}

#[test]
fn context_menu_items_per_row_kind() {
    let p = context_menu_items(true, 5);
    assert_eq!(p[0], ("Unpin".to_string(), ctx_tag(CTX_UNPIN, 5)));
    assert_eq!(p[1], ("Delete".to_string(), ctx_tag(CTX_DEL_PINNED, 5)));
    let h = context_menu_items(false, 5);
    assert_eq!(h[0], ("Pin".to_string(), ctx_tag(CTX_PIN, 5)));
    assert_eq!(h[1], ("Delete from history".to_string(), ctx_tag(CTX_DEL_HISTORY, 5)));
}

#[test]
fn row_clicks_paste_the_row() {
    assert_eq!(row_tag(true, 3), (1 << 16) | 3);
    assert_eq!(row_click_action(row_tag(true, 3)), PopupAction::Paste { pinned: true, index: 3 });
    assert_eq!(row_click_action(row_tag(false, 7)), PopupAction::Paste { pinned: false, index: 7 });
}

#[test]
fn arrow_keys_skip_hidden_rows() {
    let hidden = vec![true, false, true, false, false];
    assert_eq!(next_visible_row(&hidden, None), Some(1));
    assert_eq!(next_visible_row(&hidden, Some(1)), Some(3));
    assert_eq!(next_visible_row(&hidden, Some(4)), None);
    assert_eq!(prev_visible_row(&hidden, Some(3)), Some(1));
    assert_eq!(prev_visible_row(&hidden, Some(1)), None);
    assert_eq!(prev_visible_row(&hidden, Some(0)), None);
    assert_eq!(prev_visible_row(&hidden, None), None);
    assert_eq!(prev_visible_row(&hidden, Some(9)), Some(4));
}

#[test]
fn enter_pastes_selected_or_first_visible() {
    let hidden = vec![true, false, false];
    assert_eq!(enter_action(&hidden, Some(2), 2), Some(PopupAction::Paste { pinned: true, index: 0 }));
    assert_eq!(enter_action(&hidden, None, 2), Some(PopupAction::Paste { pinned: false, index: 1 }));
    assert_eq!(enter_action(&vec![true, true], None, 1), None);
}

#[test]
fn p_key_pins_or_unpins() {
    assert_eq!(pin_key_action(1, 3), PopupAction::Pin { history_index: 1 });
    assert_eq!(pin_key_action(4, 3), PopupAction::Unpin { pinned_index: 1 });
}

#[test]
fn search_is_case_insensitive_substring() {
    assert!(row_matches("", "anything"));
    assert!(row_matches("WOR", "hello world"));
    assert!(!row_matches("xyz", "hello world"));
    let texts = vec!["Alpha".to_string(), "beta".to_string(), "ALPHABET".to_string()];
    assert_eq!(filter_hidden("alpha", &texts), vec![false, true, false]);
}

#[test]
fn popup_rows_carry_labels_and_tooltips() {
    let mut list = VecDeque::new();
    list.push_back("a\nb".to_string());
    list.push_back("x".repeat(70));
    let rows = popup_rows(&list);
    assert_eq!(rows[0], (0, "a\u{21A9}b".to_string(), "a\u{21A9}b".to_string()));
    assert_eq!(rows[1].0, 1);
    assert_eq!(rows[1].1, format!("{}...", "x".repeat(60)));
    assert_eq!(rows[1].2, "x".repeat(70));
}
