use cliphop::clipboard::{on_hotkey, ClipboardHistory};
use cliphop::hotkey::{after_register, KeyCode, Modifiers};
use cliphop::popup::{apply_popup_action, PopupAction};

fn seeded(items: &[&str], pinned: &[&str]) -> ClipboardHistory {
    let mut h = ClipboardHistory::new(0);
    h.load_items(items.iter().map(|s| s.to_string()).collect(), 0);
    h.load_pinned(pinned.iter().map(|s| s.to_string()).collect());
    h
}

fn texts(list: &std::collections::VecDeque<String>) -> Vec<&str> {
    list.iter().map(|s| s.as_str()).collect()
}

#[test]
fn hotkey_press_takes_in_a_fresh_copy_first() {
    let mut h = seeded(&[], &[]);
    let (copied, show) = on_hotkey(&mut h, 7, Some("fresh".to_string()));
    assert_eq!(copied.as_deref(), Some("fresh"));
    assert!(show);
    assert_eq!(texts(h.items()), vec!["fresh"]);
}

#[test]
fn hotkey_press_with_nothing_to_show() {
    let mut h = seeded(&[], &[]);
    let (copied, show) = on_hotkey(&mut h, 0, Some("same counter".to_string()));
    assert!(copied.is_none());
    assert!(!show);
    let mut p = seeded(&[], &["pinned"]);
    assert_eq!(on_hotkey(&mut p, 0, None), (None, true));
}

#[test]
fn paste_picks_its_text_and_ends_the_popup() {
    let mut h = seeded(&["a", "b"], &["p"]);
    let step = apply_popup_action(&mut h, Some(PopupAction::Paste { pinned: false, index: 1 }));
    assert_eq!(step.paste.as_deref(), Some("b"));
    assert!(step.save && !step.reshow);
    let step = apply_popup_action(&mut h, Some(PopupAction::Paste { pinned: true, index: 0 }));
    assert_eq!(step.paste.as_deref(), Some("p"));
    let step = apply_popup_action(&mut h, Some(PopupAction::Paste { pinned: true, index: 5 }));
    assert!(step.paste.is_none() && !step.save && !step.reshow);
    assert_eq!(texts(h.items()), vec!["a", "b"]);
}

#[test]
fn mutating_actions_reshow_until_everything_is_gone() {
    let mut h = seeded(&["a", "b"], &[]);
    let step = apply_popup_action(&mut h, Some(PopupAction::Pin { history_index: 0 }));
    assert!(step.paste.is_none() && step.save && step.reshow);
    assert_eq!(texts(h.items()), vec!["b"]);
    assert_eq!(texts(h.pinned_items()), vec!["a"]);
    let step = apply_popup_action(&mut h, Some(PopupAction::Unpin { pinned_index: 0 }));
    assert!(step.reshow);
    assert_eq!(texts(h.items()), vec!["a", "b"]);
    apply_popup_action(&mut h, Some(PopupAction::DeleteHistory { index: 0 }));
    let step = apply_popup_action(&mut h, Some(PopupAction::DeleteHistory { index: 0 }));
    assert!(step.save && !step.reshow);
    assert!(h.items().is_empty());
}

#[test]
fn dismissing_changes_nothing() {
    let mut h = seeded(&["a"], &["p"]);
    let step = apply_popup_action(&mut h, None);
    assert!(step.paste.is_none() && !step.save && !step.reshow);
    assert_eq!(texts(h.items()), vec!["a"]);
    assert_eq!(texts(h.pinned_items()), vec!["p"]);
    let step = apply_popup_action(&mut h, Some(PopupAction::DeletePinned { index: 0 }));
    assert!(step.save && step.reshow);
    assert!(h.pinned_items().is_empty());
}

#[test]
fn failed_registration_keeps_the_previous_hotkey() {
    let alt = Modifiers { meta: false, control: false, alt: true, shift: false };
    let ctrl = Modifiers { meta: false, control: true, alt: false, shift: false };
    let previous = (Some(alt), KeyCode::KeyV);
    let new = (Some(ctrl), KeyCode::F1);
    assert_eq!(after_register(previous, new, true), (new, false));
    assert_eq!(after_register(previous, new, false), (previous, true));
}

#[test]
fn pinned_texts_and_history_never_share_a_text() {
    let mut h = seeded(&["a", "b"], &[]);
    h.pin(0);
    h.poll(1, Some("a".to_string()));
    assert_eq!(texts(h.items()), vec!["b"]);
    assert_eq!(texts(h.pinned_items()), vec!["a"]);
    h.unpin(0);
    assert_eq!(texts(h.items()), vec!["a", "b"]);
    assert!(h.pinned_items().is_empty());
}
