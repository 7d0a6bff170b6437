use cliphop::clipboard::{
    get_max_history, request_trim, set_max_history, ClipboardHistory, LABEL_LEN, TOOLTIP_LEN,
};

fn history(items: &[&str], pinned: &[&str]) -> ClipboardHistory {
    let mut h = ClipboardHistory::new(0);
    h.load_items(items.iter().map(|s| s.to_string()).collect(), 0);
    h.load_pinned(pinned.iter().map(|s| s.to_string()).collect());
    h
}

fn items_of(h: &ClipboardHistory) -> Vec<String> {
    h.items().iter().cloned().collect()
}

#[test]
fn display_label_short_string_unchanged() {
    assert_eq!(ClipboardHistory::display_label("hello world"), "hello world");
}

#[test]
fn display_label_empty_string() {
    assert_eq!(ClipboardHistory::display_label(""), "");
}

#[test]
fn display_label_exact_boundary_no_truncation() {
    let input: String = "a".repeat(LABEL_LEN);
    let result = ClipboardHistory::display_label(&input);
    assert_eq!(result, input);
    assert!(!result.ends_with("..."));
}

#[test]
fn display_label_one_over_boundary_truncated() {
    let input: String = "a".repeat(LABEL_LEN + 1);
    let result = ClipboardHistory::display_label(&input);
    assert_eq!(result.chars().count(), LABEL_LEN + 3);
    assert!(result.ends_with("..."));
}

#[test]
fn display_label_newlines_replaced() {
    let result = ClipboardHistory::display_label("line1\nline2\rline3");
    assert_eq!(result, "line1\u{21A9}line2\u{21A9}line3");
}

#[test]
fn display_label_newlines_and_truncation_combined() {
    let input = "hello\nworld\n".repeat(10);
    let result = ClipboardHistory::display_label(&input);
    assert!(result.ends_with("..."));
    assert!(!result.contains('\n'));
    assert!(result.contains('\u{21A9}'));
}

#[test]
fn display_tooltip_longer_limit() {
    let input: String = "b".repeat(TOOLTIP_LEN);
    assert_eq!(ClipboardHistory::display_tooltip(&input), input);

    let long_input: String = "b".repeat(TOOLTIP_LEN + 1);
    let result = ClipboardHistory::display_tooltip(&long_input);
    assert!(result.ends_with("..."));
    assert_eq!(result.chars().count(), TOOLTIP_LEN + 3);
}

#[test]
fn display_label_preserves_unicode() {
    let input = "caf\u{e9} \u{1F600}";
    assert_eq!(ClipboardHistory::display_label(input), input);
}

#[test]
fn display_label_only_newlines() {
    // CHANGELOG 0.3.5: a `\r\n` line ending displays as a single return
    // symbol, a lone `\r` or `\n` as one each.
    assert_eq!(
        ClipboardHistory::display_label("\n\r\n"),
        "\u{21A9}\u{21A9}"
    );
}

#[test]
fn display_label_crlf_is_one_symbol() {
    assert_eq!(ClipboardHistory::display_label("a\r\nb"), "a\u{21A9}b");
    assert_eq!(ClipboardHistory::display_label("a\n\rb"), "a\u{21A9}\u{21A9}b");
    assert_eq!(ClipboardHistory::display_label("a\r\r\nb\r"), "a\u{21A9}\u{21A9}b\u{21A9}");
}

#[test]
fn display_label_of_a_label_is_unchanged() {
    let long = "x\r\ny".repeat(40);
    let label = ClipboardHistory::display_label(&long);
    assert_eq!(ClipboardHistory::display_label(&label), label);
    let tip = ClipboardHistory::display_tooltip(&long);
    assert_eq!(ClipboardHistory::display_tooltip(&tip), tip);
}

#[test]
fn display_label_preserves_tabs_and_spaces() {
    assert_eq!(
        ClipboardHistory::display_label("hello\tworld there"),
        "hello\tworld there"
    );
}

#[test]
fn clear_empties_items() {
    let mut h = history(&["a", "b"], &[]);
    h.clear();
    assert!(h.items().is_empty());
}

#[test]
fn load_items_seeds_ring() {
    let mut h = ClipboardHistory::new(0);
    let items = vec!["x".to_string(), "y".to_string()];
    h.load_items(items.clone(), 0);
    let loaded: Vec<String> = h.items().iter().cloned().collect();
    assert_eq!(loaded, items);
}

#[test]
fn load_items_caps_at_max_history() {
    let mut h = ClipboardHistory::new(0);
    let saved_limit = get_max_history(&h);
    set_max_history(&mut h, 2);
    let items: Vec<String> = (0..5).map(|i| i.to_string()).collect();
    h.load_items(items, 0);
    assert_eq!(h.items().len(), 2, "should cap at MAX_HISTORY");
    set_max_history(&mut h, saved_limit);
}

#[test]
fn pin_moves_item_to_pinned_list() {
    let mut h = history(&["a", "b"], &[]);
    h.pin(1);
    assert_eq!(h.items().len(), 1);
    assert_eq!(h.items()[0], "a");
    assert_eq!(h.pinned_items().len(), 1);
    assert_eq!(h.pinned_items()[0], "b");
}

#[test]
fn pin_is_noop_when_already_pinned() {
    let mut h = history(&["a"], &["a"]);
    h.pin(0);
    assert_eq!(h.items().len(), 1);
    assert_eq!(h.pinned_items().len(), 1);
}

#[test]
fn unpin_moves_item_to_front_of_history() {
    let mut h = history(&["a"], &["b"]);
    h.unpin(0);
    assert_eq!(h.items()[0], "b");
    assert_eq!(h.items()[1], "a");
    assert!(h.pinned_items().is_empty());
}

#[test]
fn unpin_evicts_oldest_when_at_capacity() {
    let mut h = ClipboardHistory::new(0);
    set_max_history(&mut h, 2);
    h.load_items(vec!["a".to_string(), "b".to_string()], 0);
    h.load_pinned(vec!["c".to_string()]);
    h.unpin(0);
    assert_eq!(h.items().len(), 2);
    assert_eq!(h.items()[0], "c");
    assert_eq!(h.items()[1], "a");
    set_max_history(&mut h, 10);
}

#[test]
fn poll_ignores_copy_of_pinned_text() {
    let mut h = history(&[], &["secret"]);
    let text = "secret".to_string();
    let r = h.poll(1, Some(text));
    assert!(r.is_none());
    assert!(h.items().is_empty(), "pinned item should not enter history");
}

#[test]
fn clear_clears_both_history_and_pinned() {
    let mut h = history(&["a"], &["b"]);
    h.clear();
    assert!(h.items().is_empty());
    assert!(h.pinned_items().is_empty());
}

#[test]
fn display_label_sixty_char_limit() {
    let input: String = "x".repeat(60);
    assert_eq!(ClipboardHistory::display_label(&input), input);

    let long: String = "x".repeat(61);
    let result = ClipboardHistory::display_label(&long);
    assert!(result.ends_with("..."));
    assert_eq!(result.chars().count(), 63);
}

// ── Further cases ────────────────────────────────────────────────────

#[test]
fn set_max_history_clamps_to_range() {
    let mut h = ClipboardHistory::new(0);
    assert_eq!(get_max_history(&h), 10);
    set_max_history(&mut h, 0);
    assert_eq!(get_max_history(&h), 1);
    set_max_history(&mut h, 999);
    assert_eq!(get_max_history(&h), 50);
    set_max_history(&mut h, 7);
    assert_eq!(get_max_history(&h), 7);
}

#[test]
fn requested_trim_applies_at_next_poll() {
    let mut h = history(&["a", "b", "c", "d"], &[]);
    set_max_history(&mut h, 2);
    assert_eq!(h.items().len(), 4);
    request_trim(&mut h);
    // The pasteboard has not changed, but the trim still happens.
    assert_eq!(h.poll(0, Some("zzz".to_string())), None);
    assert_eq!(items_of(&h), vec!["a".to_string(), "b".to_string()]);
}

#[test]
fn poll_without_trim_request_drops_only_one() {
    let mut h = history(&["a", "b", "c", "d"], &[]);
    set_max_history(&mut h, 2);
    assert_eq!(h.poll(1, Some("e".to_string())), Some("e".to_string()));
    assert_eq!(items_of(&h), vec!["e", "a", "b", "c"]);
}

#[test]
fn poll_with_no_text_records_change_count_only() {
    let mut h = history(&["a"], &[]);
    assert_eq!(h.poll(3, None), None);
    assert_eq!(items_of(&h), vec!["a"]);
    // The same counter again with text: still no change seen.
    assert_eq!(h.poll(3, Some("b".to_string())), None);
}

#[test]
fn pin_then_unpin_returns_text_to_front() {
    let mut h = history(&["a", "b", "c"], &["p"]);
    h.pin(1);
    assert_eq!(items_of(&h), vec!["a", "c"]);
    let last = h.pinned_items().len() - 1;
    h.unpin(last);
    assert_eq!(items_of(&h), vec!["b", "a", "c"]);
    assert_eq!(h.pinned_items().iter().cloned().collect::<Vec<_>>(), vec!["p"]);
}

#[test]
fn out_of_range_indices_change_nothing() {
    let mut h = history(&["a"], &["b"]);
    h.pin(5);
    h.unpin(5);
    h.delete_history(5);
    h.delete_pinned(5);
    assert_eq!(items_of(&h), vec!["a"]);
    assert_eq!(h.pinned_items().len(), 1);
    assert_eq!(h.select(1), None);
    assert_eq!(h.select_pinned(1), None);
}

#[test]
fn delete_removes_the_indexed_item() {
    let mut h = history(&["a", "b", "c"], &["x", "y"]);
    h.delete_history(1);
    h.delete_pinned(0);
    assert_eq!(items_of(&h), vec!["a", "c"]);
    assert_eq!(h.pinned_items().iter().cloned().collect::<Vec<_>>(), vec!["y"]);
}

#[test]
fn select_pinned_returns_the_text() {
    let h = history(&["a"], &["x", "y"]);
    assert_eq!(h.select_pinned(1), Some("y".to_string()));
    assert_eq!(h.select(0), Some("a".to_string()));
}
