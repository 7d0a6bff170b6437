//! Saving and loading history files: their JSON text, the sealed records
//! in it, and the entries loaded back.

use cliphop::history::{
    decode_entries, encode_entries, load_records, save_records, split_entries, HistoryEntry,
    StoredEntry,
};

fn test_key() -> [u8; 32] {
    [99u8; 32]
}

fn strings(v: &[&str]) -> Vec<String> {
    v.iter().map(|s| s.to_string()).collect()
}

fn save(key: [u8; 32], history: &[&str], pinned: &[&str]) -> String {
    save_records(&key, &strings(history), &strings(pinned)).0
}

fn load(file: &str, key: [u8; 32]) -> Vec<HistoryEntry> {
    load_records(&key, Some(file)).unwrap().0
}

/// `file` with one more JSON object appended to its array.
fn with_record(file: &str, object: &str) -> String {
    let body = &file[..file.len() - 1];
    if body == "[" {
        format!("[{}]", object)
    } else {
        format!("{},{}]", body, object)
    }
}

fn raw(kind: &str, n: &str, d: &str) -> StoredEntry {
    StoredEntry {
        version: Some(1),
        kind: Some(kind.to_string()),
        nonce: Some(n.to_string()),
        data: Some(d.to_string()),
    }
}

#[test]
fn round_trip_single_entry() {
    let key = test_key();
    let file = save(key, &["hello world"], &[]);
    let entries = load(&file, key);
    assert_eq!(entries.len(), 1);
    assert!(matches!(&entries[0], HistoryEntry::Text(s) if s == "hello world"));
}

#[test]
fn round_trip_preserves_order() {
    let key = test_key();
    let items = strings(&["first", "second", "third"]);
    let file = save(key, &["first", "second", "third"], &[]);
    let entries = load(&file, key);
    let texts: Vec<String> = entries
        .into_iter()
        .filter_map(|e| match e {
            HistoryEntry::Text(s) => Some(s),
            HistoryEntry::PinnedText(_) => None,
        })
        .collect();
    assert_eq!(texts, items);
}

#[test]
fn missing_file_returns_empty() {
    // No file to read: no contents.
    let (entries, failed) = load_records(&test_key(), None).unwrap();
    assert!(entries.is_empty());
    assert_eq!(failed, 0);
}

#[test]
fn wrong_key_returns_empty_with_no_panic() {
    let file = save([1u8; 32], &["secret"], &[]);
    let entries = load(&file, [2u8; 32]);
    assert!(entries.is_empty(), "wrong key must return empty, not panic");
}

#[test]
fn corrupt_entry_skipped_valid_entries_load() {
    let key = test_key();
    let file = with_record(
        &save(key, &["good1", "good2"], &[]),
        r#"{"v":1,"kind":"text","n":"bm90YmFzZTY0","d":"bm90YmFzZTY0"}"#,
    );
    let entries = load(&file, key);
    assert_eq!(entries.len(), 2);
}

#[test]
fn pinned_text_round_trip() {
    let key = test_key();
    let file = save(key, &["regular"], &["pinned"]);
    let entries = load(&file, key);
    assert_eq!(entries.len(), 2);
    assert!(matches!(&entries[0], HistoryEntry::Text(s) if s == "regular"));
    assert!(matches!(&entries[1], HistoryEntry::PinnedText(s) if s == "pinned"));
}

#[test]
fn pinned_text_survives_reload_with_old_kind_skipped() {
    let key = test_key();
    let file = with_record(
        &save(key, &[], &["pinned_item"]),
        r#"{"v":1,"kind":"future_kind","n":"AAAAAAAAAA==","d":"AAAA"}"#,
    );
    let entries = load(&file, key);
    assert_eq!(entries.len(), 1);
    assert!(matches!(&entries[0], HistoryEntry::PinnedText(s) if s == "pinned_item"));
}

#[test]
fn empty_pinned_list_round_trips() {
    let key = test_key();
    let file = save(key, &["only_history"], &[]);
    let entries = load(&file, key);
    assert_eq!(entries.len(), 1);
    assert!(matches!(&entries[0], HistoryEntry::Text(_)));
}

// ── Further cases ────────────────────────────────────────────────────

#[test]
fn saved_records_carry_kind_and_base64_fields() {
    let records = encode_entries(&test_key(), &strings(&["a"]), &strings(&["b"]));
    assert_eq!(records.len(), 2);
    assert_eq!(records[0].version, Some(1));
    assert_eq!(records[0].kind.as_deref(), Some("text"));
    assert_eq!(records[1].kind.as_deref(), Some("pinned_text"));
    // 12 nonce bytes are 16 base64 characters.
    assert_eq!(records[0].nonce.as_ref().unwrap().len(), 16);
    // 1 text byte + 16 tag bytes are 17 bytes, 24 base64 characters.
    assert_eq!(records[0].data.as_ref().unwrap().len(), 24);
}

#[test]
fn failed_records_are_counted_and_unknown_kinds_are_not() {
    let key = test_key();
    let mut records = encode_entries(&key, &strings(&["ok"]), &vec![]);
    records.push(raw("text", "!!!", "AAAA"));
    records.push(StoredEntry { version: None, kind: Some("pinned_text".to_string()), nonce: None, data: None });
    records.push(raw("other", "x", "y"));
    records.push(StoredEntry { version: None, kind: None, nonce: None, data: None });
    let (entries, failed) = decode_entries(&key, &records);
    assert_eq!(entries.len(), 1);
    assert_eq!(failed, 2);
}

#[test]
fn at_most_a_thousand_records_are_read() {
    let key = test_key();
    let one = encode_entries(&key, &strings(&["x"]), &vec![]);
    let mut records = Vec::new();
    for _ in 0..1005 {
        let r = &one[0];
        records.push(StoredEntry {
            version: r.version,
            kind: r.kind.clone(),
            nonce: r.nonce.clone(),
            data: r.data.clone(),
        });
    }
    let (entries, failed) = decode_entries(&key, &records);
    assert_eq!(entries.len(), 1000);
    assert_eq!(failed, 0);
}

#[test]
fn unicode_text_round_trips() {
    let key = test_key();
    let file = save(key, &["caf\u{e9} \u{1F600} \u{5e9}\u{5dc}\u{5d5}\u{5dd}"], &[]);
    let entries = load(&file, key);
    assert!(matches!(&entries[0], HistoryEntry::Text(s) if s == "caf\u{e9} \u{1F600} \u{5e9}\u{5dc}\u{5d5}\u{5dd}"));
}

#[test]
fn split_restores_history_and_pinned_lists() {
    let key = test_key();
    let file = save(key, &["h1", "h2"], &["p1"]);
    let (history, pinned) = split_entries(load(&file, key));
    assert_eq!(history, strings(&["h1", "h2"]));
    assert_eq!(pinned, strings(&["p1"]));
}

#[test]
fn text_that_is_not_json_or_not_an_array() {
    let key = test_key();
    let err = match load_records(&key, Some("not json")) {
        Err(e) => e,
        Ok(_) => panic!("text that is not JSON must be refused"),
    };
    assert!(err.contains("expected"), "serde_json's message: {err}");
    let (entries, failed) = load_records(&key, Some("{\"kind\":\"text\"}")).unwrap();
    assert!(entries.is_empty());
    assert_eq!(failed, 0);
    let (entries, failed) = load_records(&key, Some("[]")).unwrap();
    assert!(entries.is_empty());
    assert_eq!(failed, 0);
}

#[test]
fn saved_file_is_a_json_array_of_versioned_records() {
    let file = save(test_key(), &["a"], &["b"]);
    assert!(file.starts_with("[{") && file.ends_with("}]"));
    assert_eq!(file.matches("\"v\":1").count(), 2);
    assert_eq!(file.matches("\"kind\":\"text\"").count(), 1);
    assert_eq!(file.matches("\"kind\":\"pinned_text\"").count(), 1);
    let (entries, failed) = load_records(&test_key(), Some(&file)).unwrap();
    assert_eq!(entries.len(), 2);
    assert_eq!(failed, 0);
}

#[test]
fn a_wrong_key_counts_every_record_as_failed() {
    let file = save([1u8; 32], &["x", "y"], &["z"]);
    let (entries, failed) = load_records(&[2u8; 32], Some(&file)).unwrap();
    assert!(entries.is_empty());
    assert_eq!(failed, 3);
}

#[test]
fn saving_reports_no_texts_left_out_for_ordinary_texts() {
    let (text, left_history, left_pinned) =
        save_records(&test_key(), &strings(&["a", "b"]), &strings(&["c"]));
    assert_eq!((left_history, left_pinned), (0, 0));
    assert_eq!(load(&text, test_key()).len(), 3);
}
