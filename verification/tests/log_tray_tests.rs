use std::collections::VecDeque;

use cliphop::log::{is_verbose, log, log_path, log_verbose, set_verbose, LogState};
use cliphop::tray::{decode_tray_tag, menu_entries, tray_rows, MenuEntry};

#[test]
fn nothing_is_logged_before_init() {
    let state = LogState::new();
    assert_eq!(log(&state, 1, 2, "hi"), None);
    assert_eq!(log_path(&state), "");
    assert!(!is_verbose(&state));
}

#[test]
fn log_lines_are_timestamped() {
    let mut state = LogState::new();
    state.init("/tmp/x/log".to_string());
    assert_eq!(log_path(&state), "/tmp/x/log");
    assert_eq!(log(&state, 3, 7, "started"), Some("[+3.007] started\n".to_string()));
    assert_eq!(log(&state, 12, 45, "a"), Some("[+12.045] a\n".to_string()));
    assert_eq!(log(&state, 0, 999, "b"), Some("[+0.999] b\n".to_string()));
}

#[test]
fn verbose_lines_only_when_enabled() {
    let mut state = LogState::new();
    state.init("log".to_string());
    assert_eq!(log_verbose(&state, 1, 0, "v"), None);
    set_verbose(&mut state, true);
    assert!(is_verbose(&state));
    assert_eq!(log_verbose(&state, 1, 0, "v"), Some("[+1.000] v\n".to_string()));
}

fn titles(entries: &[MenuEntry]) -> Vec<String> {
    entries
        .iter()
        .map(|e| match e {
            MenuEntry::Disabled(s) => format!("({})", s),
            MenuEntry::Item { title, tag, .. } => format!("{}#{}", title, tag),
            MenuEntry::Separator => "-".to_string(),
            MenuEntry::ClearHistory => "Clear".to_string(),
            MenuEntry::Settings => "Settings".to_string(),
            MenuEntry::Quit => "Quit".to_string(),
        })
        .collect()
}

#[test]
fn empty_menu_says_no_items() {
    assert_eq!(
        titles(&menu_entries(&vec![], &vec![])),
        vec!["(No items yet)", "-", "Clear", "-", "Settings", "Quit"]
    );
}

#[test]
fn menu_lists_history_then_pinned() {
    let items = vec![("a".to_string(), "A".to_string()), ("b".to_string(), "B".to_string())];
    let pinned = vec![("p".to_string(), "P".to_string())];
    assert_eq!(
        titles(&menu_entries(&items, &pinned)),
        vec!["a#0", "b#1", "-", "(Pinned)", "\u{1F4CC} p#65536", "-", "Clear", "-", "Settings", "Quit"]
    );
    assert_eq!(
        titles(&menu_entries(&items, &vec![])),
        vec!["a#0", "b#1", "-", "Clear", "-", "Settings", "Quit"]
    );
}

#[test]
fn tray_tags_decode() {
    assert_eq!(decode_tray_tag(65536 + 3), (true, 3));
    assert_eq!(decode_tray_tag(5), (false, 5));
}

#[test]
fn tray_rows_are_labels_and_tooltips() {
    let mut list = VecDeque::new();
    list.push_back("one\r\ntwo".to_string());
    let rows = tray_rows(&list);
    assert_eq!(rows, vec![("one\u{21A9}two".to_string(), "one\u{21A9}two".to_string())]);
}
