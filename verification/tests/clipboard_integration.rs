//! The history driven by a stand-in pasteboard: a change counter that moves
//! on every write, and the text last written.

use cliphop::clipboard::ClipboardHistory;

struct Pasteboard {
    count: isize,
    text: Option<String>,
}

impl Pasteboard {
    fn new() -> Self {
        Pasteboard { count: 0, text: None }
    }

    fn write(&mut self, text: &str) {
        self.count += 1;
        self.text = Some(text.to_string());
    }

    fn read(&self) -> Option<String> {
        self.text.clone()
    }
}

fn poll(history: &mut ClipboardHistory, pb: &Pasteboard) -> Option<String> {
    history.poll(pb.count, pb.read())
}

fn select(history: &mut ClipboardHistory, pb: &mut Pasteboard, index: usize) -> Option<String> {
    let text = history.select(index)?;
    pb.write(&text);
    history.note_own_write(pb.count);
    Some(text)
}

#[test]
fn poll_detects_new_clipboard_content() {
    let mut pb = Pasteboard::new();
    let mut history = ClipboardHistory::new(pb.count);
    pb.write("test_poll_1");

    assert!(
        poll(&mut history, &pb).is_some(),
        "poll() should return true for new content"
    );
    assert_eq!(history.items().len(), 1);
    assert_eq!(history.items()[0], "test_poll_1");
}

#[test]
fn poll_returns_false_when_no_change() {
    let mut pb = Pasteboard::new();
    let mut history = ClipboardHistory::new(pb.count);
    pb.write("test_no_change");
    poll(&mut history, &pb);

    assert!(
        poll(&mut history, &pb).is_none(),
        "poll() should return false when unchanged"
    );
}

#[test]
fn poll_ignores_empty_clipboard() {
    let mut pb = Pasteboard::new();
    let mut history = ClipboardHistory::new(pb.count);
    pb.write("");

    assert!(
        poll(&mut history, &pb).is_none(),
        "poll() should return false for empty string"
    );
    assert_eq!(history.items().len(), 0);
}

#[test]
fn poll_deduplicates_moves_to_front() {
    let mut pb = Pasteboard::new();
    let mut history = ClipboardHistory::new(pb.count);

    pb.write("item_A");
    poll(&mut history, &pb);
    pb.write("item_B");
    poll(&mut history, &pb);

    assert_eq!(history.items()[0], "item_B");
    assert_eq!(history.items()[1], "item_A");

    pb.write("item_A");
    poll(&mut history, &pb);

    assert_eq!(history.items().len(), 2);
    assert_eq!(history.items()[0], "item_A");
    assert_eq!(history.items()[1], "item_B");
}

#[test]
fn poll_caps_at_max_history() {
    let mut pb = Pasteboard::new();
    let mut history = ClipboardHistory::new(pb.count);

    for i in 0..12 {
        pb.write(&format!("overflow_{}", i));
        poll(&mut history, &pb);
    }

    assert_eq!(history.items().len(), 10);
    assert_eq!(history.items()[0], "overflow_11");
    assert_eq!(history.items()[9], "overflow_2");
}

#[test]
fn select_writes_to_clipboard() {
    let mut pb = Pasteboard::new();
    let mut history = ClipboardHistory::new(pb.count);

    pb.write("sel_A");
    poll(&mut history, &pb);
    pb.write("sel_B");
    poll(&mut history, &pb);

    let result = select(&mut history, &mut pb, 1);
    assert_eq!(result, Some("sel_A".to_string()));
    assert_eq!(pb.read(), Some("sel_A".to_string()));
}

#[test]
fn select_out_of_bounds_returns_none() {
    let mut pb = Pasteboard::new();
    let mut history = ClipboardHistory::new(pb.count);

    pb.write("only_item");
    poll(&mut history, &pb);

    assert_eq!(select(&mut history, &mut pb, 5), None);
    assert_eq!(select(&mut history, &mut pb, 1), None);
}

#[test]
fn select_does_not_trigger_duplicate_on_next_poll() {
    let mut pb = Pasteboard::new();
    let mut history = ClipboardHistory::new(pb.count);

    pb.write("no_dup_A");
    poll(&mut history, &pb);
    pb.write("no_dup_B");
    poll(&mut history, &pb);

    select(&mut history, &mut pb, 1);

    assert!(
        poll(&mut history, &pb).is_none(),
        "poll() after select() should not detect a change"
    );
    assert_eq!(history.items().len(), 2);
}

#[test]
fn e2e_copy_paste_flow() {
    let mut pb = Pasteboard::new();
    let mut history = ClipboardHistory::new(pb.count);

    pb.write("item A");
    assert!(poll(&mut history, &pb).is_some());
    assert_eq!(history.items().len(), 1);
    assert_eq!(history.items()[0], "item A");

    pb.write("item B");
    assert!(poll(&mut history, &pb).is_some());
    assert_eq!(history.items().len(), 2);
    assert_eq!(history.items()[0], "item B");
    assert_eq!(history.items()[1], "item A");

    pb.write("item A");
    assert!(poll(&mut history, &pb).is_some());
    assert_eq!(history.items().len(), 2);
    assert_eq!(history.items()[0], "item A");
    assert_eq!(history.items()[1], "item B");

    let selected = select(&mut history, &mut pb, 1);
    assert_eq!(selected, Some("item B".to_string()));
    assert_eq!(pb.read(), Some("item B".to_string()));

    for i in 0..10 {
        pb.write(&format!("fill_{}", i));
        poll(&mut history, &pb);
    }
    assert_eq!(history.items().len(), 10);
    assert_eq!(history.items()[0], "fill_9");

    let top = select(&mut history, &mut pb, 0);
    assert_eq!(top, Some("fill_9".to_string()));
    assert_eq!(pb.read(), Some("fill_9".to_string()));

    assert!(poll(&mut history, &pb).is_none());
}
