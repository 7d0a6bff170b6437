//! The persisted history: each history or pinned text is stored as a record
//! of its kind, a base64 nonce and a base64 AES-256-GCM ciphertext. Saving
//! turns texts into records; loading turns records back into entries,
//! skipping records of unknown kinds and counting records that fail.
//!
//! The history file's text is a JSON array of those records; reading and
//! writing the file itself is left to the application.

use base64::engine::general_purpose::STANDARD;
use base64::Engine;
use vstd::prelude::*;
use vstd::string::{StringExecFns, StringSliceAdditionalSpecFns};
use vstd::utf8::{decode_utf8, encode_utf8, valid_utf8};

use crate::crypto::{aes256gcm_open, aes256gcm_seal, decrypt, encrypt, PLAINTEXT_MAX};
use crate::json::{
    flat_json, flat_object, json_member, json_parse, json_write, member, parse_json, str_less,
    str_member, u64_member, write_json, JsonValue, JsonView,
};
use crate::text::{range_equals, to_chars};

verus! {

broadcast use vstd::utf8::group_utf8_lib;

/// At most this many records are read from a history file.
pub const MAX_ENTRIES: usize = 1000;

/// An entry of the persisted history.
pub enum HistoryEntry {
    /// A history text.
    Text(String),
    /// A pinned text.
    PinnedText(String),
}

impl View for HistoryEntry {
    /// Whether the entry is pinned, and its text.
    type V = (bool, Seq<char>);

    open spec fn view(&self) -> (bool, Seq<char>) {
        match self {
            HistoryEntry::Text(s) => (false, s@),
            HistoryEntry::PinnedText(s) => (true, s@),
        }
    }
}

/// The format version written into each record.
pub const RECORD_VERSION: u64 = 1;

/// One record of the history file, as read: its `v` (format version) field
/// when it is an unsigned number, and its `kind`, `n` (nonce) and `d`
/// (data) fields when they are strings.
pub struct StoredEntry {
    pub version: Option<u64>,
    pub kind: Option<String>,
    pub nonce: Option<String>,
    pub data: Option<String>,
}

/// The abstract content of a `StoredEntry`.
pub struct StoredView {
    pub version: Option<u64>,
    pub kind: Option<Seq<char>>,
    pub nonce: Option<Seq<char>>,
    pub data: Option<Seq<char>>,
}

/// The text of an optional string.
pub open spec fn opt_view(o: Option<String>) -> Option<Seq<char>> {
    match o {
        Some(s) => Some(s@),
        None => None,
    }
}

impl View for StoredEntry {
    type V = StoredView;

    open spec fn view(&self) -> StoredView {
        StoredView {
            version: self.version,
            kind: opt_view(self.kind),
            nonce: opt_view(self.nonce),
            data: opt_view(self.data),
        }
    }
}

/// The standard base64 encoding (with padding) of `bytes`.
pub uninterp spec fn base64_encode_spec(bytes: Seq<u8>) -> Seq<char>;

/// The bytes that standard base64 `text` decodes to, or `None` when it is
/// not valid standard base64.
pub uninterp spec fn base64_decode_spec(text: Seq<char>) -> Option<Seq<u8>>;

/// `base64`'s `STANDARD.encode`. Claimed: the text is the named encoding,
/// and decoding it gives the bytes back (what the encoding is for). The
/// length bound keeps the crate's buffer-size computation from overflowing,
/// where it panics.
#[verifier::external_body]
fn b64_encode(bytes: &[u8]) -> (r: String)
    requires
        bytes@.len() <= usize::MAX / 4 * 3,
    ensures
        r@ == base64_encode_spec(bytes@),
        base64_decode_spec(r@) == Some(bytes@),
{
    STANDARD.encode(bytes)
}

/// `base64`'s `STANDARD.decode`. Claimed: the result is the named decoding.
#[verifier::external_body]
fn b64_decode(text: &str) -> (r: Option<Vec<u8>>)
    ensures
        match r {
            Some(b) => base64_decode_spec(text@) == Some(b@),
            None => base64_decode_spec(text@) is None,
        },
{
    STANDARD.decode(text).ok()
}

/// `String::from_utf8`: succeeds exactly on valid UTF-8, with the decoded
/// characters.
#[verifier::external_body]
fn utf8_string(bytes: Vec<u8>) -> (r: Option<String>)
    ensures
        r is Some <==> valid_utf8(bytes@),
        r matches Some(s) ==> s@ == decode_utf8(bytes@),
{
    String::from_utf8(bytes).ok()
}

/// The record kind of history texts.
pub open spec fn text_kind() -> Seq<char> {
    "text"@
}

/// The record kind of pinned texts.
pub open spec fn pinned_kind() -> Seq<char> {
    "pinned_text"@
}

/// Whether a record kind is a pinned one; `None` for unknown kinds.
pub open spec fn kind_flag(kind: Option<Seq<char>>) -> Option<bool> {
    match kind {
        Some(k) => if k == text_kind() {
            Some(false)
        } else if k == pinned_kind() {
            Some(true)
        } else {
            None
        },
        None => None,
    }
}

/// What becomes of one record when it is loaded.
pub enum EntryOutcome {
    /// A record of unknown kind, passed over.
    Skipped,
    /// A record of a known kind that could not be read back.
    Failed,
    /// A record read back: whether it is pinned, and its text.
    Loaded(bool, Seq<char>),
}

/// What becomes of record `e` when it is loaded with `key`: its nonce must
/// be base64 of 12 bytes, its data base64 of a ciphertext that decrypts,
/// and the plaintext must be UTF-8.
pub open spec fn entry_outcome(key: Seq<u8>, e: StoredView) -> EntryOutcome {
    match kind_flag(e.kind) {
        None => EntryOutcome::Skipped,
        Some(pinned) => match (e.nonce, e.data) {
            (Some(n), Some(d)) => match (base64_decode_spec(n), base64_decode_spec(d)) {
                (Some(nb), Some(db)) => if nb.len() != 12 {
                    EntryOutcome::Failed
                } else {
                    match aes256gcm_open(key, nb, db) {
                        Some(pt) => if valid_utf8(pt) {
                            EntryOutcome::Loaded(pinned, decode_utf8(pt))
                        } else {
                            EntryOutcome::Failed
                        },
                        None => EntryOutcome::Failed,
                    }
                },
                _ => EntryOutcome::Failed,
            },
            _ => EntryOutcome::Failed,
        },
    }
}

/// The entries that `records` load to, in order.
pub open spec fn loaded(key: Seq<u8>, records: Seq<StoredView>) -> Seq<(bool, Seq<char>)>
    decreases records.len(),
{
    if records.len() == 0 {
        Seq::empty()
    } else {
        let rest = loaded(key, records.drop_last());
        match entry_outcome(key, records.last()) {
            EntryOutcome::Loaded(p, t) => rest.push((p, t)),
            _ => rest,
        }
    }
}

/// How many of `records` are of a known kind but fail to load.
pub open spec fn failed_count(key: Seq<u8>, records: Seq<StoredView>) -> nat
    decreases records.len(),
{
    if records.len() == 0 {
        0
    } else {
        failed_count(key, records.drop_last()) + match entry_outcome(key, records.last()) {
            EntryOutcome::Failed => 1nat,
            _ => 0nat,
        }
    }
}

/// The records that loading reads: at most the first thousand.
pub open spec fn read_window(records: Seq<StoredView>) -> Seq<StoredView> {
    if records.len() > MAX_ENTRIES {
        records.take(MAX_ENTRIES as int)
    } else {
        records
    }
}

/// The views of a list of records.
pub open spec fn stored_views(v: Seq<StoredEntry>) -> Seq<StoredView> {
    v.map_values(|e: StoredEntry| e@)
}

/// The views of a list of entries.
pub open spec fn entry_views(v: Seq<HistoryEntry>) -> Seq<(bool, Seq<char>)> {
    v.map_values(|e: HistoryEntry| e@)
}

/// Whether a text can be encrypted: its UTF-8 form is at most 2^36 bytes.
pub open spec fn encryptable(t: Seq<char>) -> bool {
    encode_utf8(t).len() <= PLAINTEXT_MAX
}

/// Whether the ciphertext of a text stays within what base64 encodes
/// without its buffer-size computation overflowing (always so where `usize`
/// has 64 bits).
pub open spec fn fits_base64(t: Seq<char>) -> bool {
    encode_utf8(t).len() + crate::crypto::TAG_LEN <= usize::MAX / 4 * 3
}

/// The texts of `ts` that can be encrypted, in order.
pub open spec fn kept(ts: Seq<Seq<char>>) -> Seq<Seq<char>>
    decreases ts.len(),
{
    if ts.len() == 0 {
        Seq::empty()
    } else if encryptable(ts.last()) {
        kept(ts.drop_last()).push(ts.last())
    } else {
        kept(ts.drop_last())
    }
}

/// The entries that saving `history` and `pinned` writes: the history
/// texts, then the pinned texts, each one that can be encrypted.
pub open spec fn saved(history: Seq<Seq<char>>, pinned: Seq<Seq<char>>) -> Seq<(bool, Seq<char>)> {
    kept(history).map_values(|t: Seq<char>| (false, t)) + kept(pinned).map_values(
        |t: Seq<char>| (true, t),
    )
}

/// Record `e` holds `entry` sealed under `key`: it carries the format
/// version, its kind names the entry's
/// kind, its nonce is the base64 of some 12 bytes, and its data is the
/// base64 of the entry's UTF-8 text sealed under the key and that nonce.
pub open spec fn sealed(key: Seq<u8>, e: StoredView, entry: (bool, Seq<char>)) -> bool {
    &&& e.version == Some(RECORD_VERSION)
    &&& e.kind == Some(
        if entry.0 {
            pinned_kind()
        } else {
            text_kind()
        },
    )
    &&& exists|n: Seq<u8>|
        n.len() == 12 && e.nonce == Some(#[trigger] base64_encode_spec(n)) && e.data == Some(
            base64_encode_spec(aes256gcm_seal(key, n, encode_utf8(entry.1))),
        )
}

/// `records` hold `expected`: one record per entry, in order, each of which
/// is its entry sealed under `key` and loads with `key` to its entry.
pub open spec fn stores(key: Seq<u8>, records: Seq<StoredView>, expected: Seq<(bool, Seq<char>)>) -> bool {
    &&& records.len() == expected.len()
    &&& forall|i: int|
        0 <= i < records.len() ==> #[trigger] entry_outcome(key, records[i])
            == EntryOutcome::Loaded(expected[i].0, expected[i].1) && sealed(
            key,
            records[i],
            expected[i],
        )
}

/// The history and pinned texts of a list of entries, each in order.
pub open spec fn split_spec(es: Seq<(bool, Seq<char>)>) -> (Seq<Seq<char>>, Seq<Seq<char>>)
    decreases es.len(),
{
    if es.len() == 0 {
        (Seq::empty(), Seq::empty())
    } else {
        let (h, p) = split_spec(es.drop_last());
        if es.last().0 {
            (h, p.push(es.last().1))
        } else {
            (h.push(es.last().1), p)
        }
    }
}

/// Whether the string `s` is exactly `w`.
fn string_is(s: &String, w: &str) -> (r: bool)
    ensures
        r == (s@ == w@),
{
    let c = to_chars(s.as_str());
    proof {
        assert(c@.subrange(0, c@.len() as int) =~= c@);
    }
    range_equals(&c, 0, c.len(), w)
}

/// Whether a record kind is a pinned one; `None` for unknown kinds.
fn kind_of(kind: &Option<String>) -> (r: Option<bool>)
    ensures
        r == kind_flag(opt_view(*kind)),
{
    match kind {
        Some(k) => {
            proof {
                assert(k@.subrange(0, k@.len() as int) =~= k@);
            }
            if string_is(k, "text") {
                Some(false)
            } else if string_is(k, "pinned_text") {
                Some(true)
            } else {
                None
            }
        },
        None => None,
    }
}

/// The 12-byte nonce held in `b`, when it has 12 bytes.
fn nonce_of(b: &Vec<u8>) -> (r: Option<[u8; 12]>)
    ensures
        r is Some <==> b@.len() == 12,
        r matches Some(n) ==> n@ == b@,
{
    if b.len() != 12 {
        return None;
    }
    let n: [u8; 12] = [b[0], b[1], b[2], b[3], b[4], b[5], b[6], b[7], b[8], b[9], b[10], b[11]];
    assert(n@ =~= b@);
    Some(n)
}

/// Loads one record: `None` for an unknown kind, `Some(None)` for a record
/// that fails, `Some(Some(entry))` otherwise.
fn decode_entry(key: &[u8; 32], e: &StoredEntry) -> (r: Option<Option<HistoryEntry>>)
    ensures
        match r {
            None => entry_outcome(key@, e@) is Skipped,
            Some(None) => entry_outcome(key@, e@) is Failed,
            Some(Some(h)) => entry_outcome(key@, e@) == EntryOutcome::Loaded(h@.0, h@.1),
        },
{
    let pinned = match kind_of(&e.kind) {
        Some(p) => p,
        None => return None,
    };
    let (n, d) = match (&e.nonce, &e.data) {
        (Some(n), Some(d)) => (n, d),
        _ => return Some(None),
    };
    let nb = match b64_decode(n.as_str()) {
        Some(b) => b,
        None => return Some(None),
    };
    let nonce = match nonce_of(&nb) {
        Some(x) => x,
        None => {
            proof {
                if base64_decode_spec(d@) is Some {
                }
            }
            return Some(None);
        },
    };
    let db = match b64_decode(d.as_str()) {
        Some(b) => b,
        None => return Some(None),
    };
    let pt = match decrypt(key, &nonce, db.as_slice()) {
        Ok(p) => p,
        Err(_) => return Some(None),
    };
    match utf8_string(pt) {
        Some(s) => if pinned {
            Some(Some(HistoryEntry::PinnedText(s)))
        } else {
            Some(Some(HistoryEntry::Text(s)))
        },
        None => Some(None),
    }
}

/// Loads history records with `key`: at most the first thousand are read,
/// records of unknown kinds are skipped, and records that fail (missing or
/// malformed nonce or data, wrong key, not UTF-8) are left out and counted.
/// Returns the entries in record order and the number of failed records.
pub fn decode_entries(key: &[u8; 32], records: &Vec<StoredEntry>) -> (r: (Vec<HistoryEntry>, usize))
    ensures
        entry_views(r.0@) == loaded(key@, read_window(stored_views(records@))),
        r.1 as int == failed_count(key@, read_window(stored_views(records@))),
{
    let ghost all = stored_views(records@);
    let n = if records.len() > MAX_ENTRIES {
        MAX_ENTRIES
    } else {
        records.len()
    };
    proof {
        assert(read_window(all) =~= all.take(n as int));
    }
    let mut out: Vec<HistoryEntry> = Vec::new();
    let mut failed: usize = 0;
    let mut i: usize = 0;
    while i < n
        invariant
            n <= records@.len(),
            n <= MAX_ENTRIES,
            all == stored_views(records@),
            i <= n,
            entry_views(out@) == loaded(key@, all.take(i as int)),
            failed as int == failed_count(key@, all.take(i as int)),
            failed <= i,
        decreases n - i,
    {
        let ghost prefix = all.take(i + 1);
        proof {
            assert(prefix.drop_last() =~= all.take(i as int));
            assert(prefix.last() == records@[i as int]@);
        }
        match decode_entry(key, &records[i]) {
            None => {},
            Some(None) => {
                failed = failed + 1;
            },
            Some(Some(h)) => {
                let ghost before = out@;
                out.push(h);
                proof {
                    assert(entry_views(out@) =~= entry_views(before).push(h@));
                }
            },
        }
        i = i + 1;
    }
    (out, failed)
}

/// A record holding `text` encrypted under `key`, of the history or the
/// pinned kind.
pub fn encode_entry(key: &[u8; 32], pinned: bool, text: &String) -> (r: Result<
    StoredEntry,
    crate::crypto::CryptoError,
>)
    requires
        fits_base64(text@),
    ensures
        r is Ok <==> encryptable(text@),
        r matches Ok(e) ==> entry_outcome(key@, e@) == EntryOutcome::Loaded(pinned, text@),
        r matches Ok(e) ==> sealed(key@, e@, (pinned, text@)),
{
    let bytes = text.as_str().as_bytes();
    proof {
        assert(bytes@ == encode_utf8(text@));
    }
    match encrypt(key, bytes) {
        Ok((nonce, ct)) => {
            let n = b64_encode(&nonce);
            let d = b64_encode(ct.as_slice());
            let kind = if pinned {
                String::from_str("pinned_text")
            } else {
                String::from_str("text")
            };
            let e = StoredEntry {
                version: Some(RECORD_VERSION),
                kind: Some(kind),
                nonce: Some(n),
                data: Some(d),
            };
            proof {
                vstd::utf8::encode_utf8_valid_utf8(text@);
                vstd::utf8::encode_utf8_decode_utf8(text@);
                reveal_strlit("text");
                reveal_strlit("pinned_text");
                assert("text"@.len() == 4);
                assert("pinned_text"@.len() == 11);
                assert(text_kind() != pinned_kind());
            }
            Ok(e)
        },
        Err(err) => Err(err),
    }
}

/// The records that save `history` and then `pinned` under `key`: one per
/// text that can be encrypted (texts over 2^36 bytes are left out), in
/// order, each of which loads back to its text with its kind.
pub fn encode_entries(key: &[u8; 32], history: &Vec<String>, pinned: &Vec<String>) -> (r: Vec<
    StoredEntry,
>)
    requires
        forall|i: int| 0 <= i < history@.len() ==> fits_base64(#[trigger] history@[i]@),
        forall|i: int| 0 <= i < pinned@.len() ==> fits_base64(#[trigger] pinned@[i]@),
    ensures
        stores(key@, stored_views(r@), saved(texts_of(history@), texts_of(pinned@))),
{
    let mut out: Vec<StoredEntry> = Vec::new();
    proof {
        assert(stores(key@, stored_views(out@), Seq::empty()));
    }
    encode_list(key, false, history, &mut out);
    proof {
        assert(Seq::<(bool, Seq<char>)>::empty() + kept(texts_of(history@)).map_values(
            |t: Seq<char>| (false, t),
        ) =~= kept(texts_of(history@)).map_values(|t: Seq<char>| (false, t)));
    }
    encode_list(key, true, pinned, &mut out);
    out
}

/// The texts of a list of strings.
pub open spec fn texts_of(v: Seq<String>) -> Seq<Seq<char>> {
    v.map_values(|s: String| s@)
}

/// Appends the records of `list`, of one kind, to `out`.
fn encode_list(key: &[u8; 32], pinned: bool, list: &Vec<String>, out: &mut Vec<StoredEntry>)
    requires
        forall|i: int| 0 <= i < list@.len() ==> fits_base64(#[trigger] list@[i]@),
    ensures
        forall|expected: Seq<(bool, Seq<char>)>| #[trigger]
            stores(key@, stored_views(old(out)@), expected) ==> stores(
                key@,
                stored_views(final(out)@),
                expected + kept(texts_of(list@)).map_values(|t: Seq<char>| (pinned, t)),
            ),
{
    let ghost start = out@;
    let mut i: usize = 0;
    while i < list.len()
        invariant
            forall|i: int| 0 <= i < list@.len() ==> fits_base64(#[trigger] list@[i]@),
            i <= list@.len(),
            out@.len() >= start.len(),
            forall|k: int| 0 <= k < start.len() ==> out@[k] == start[k],
            stores(
                key@,
                stored_views(out@).skip(start.len() as int),
                kept(texts_of(list@).take(i as int)).map_values(|t: Seq<char>| (pinned, t)),
            ),
        decreases list@.len() - i,
    {
        let ghost ts = texts_of(list@).take(i + 1);
        proof {
            assert(ts.drop_last() =~= texts_of(list@).take(i as int));
            assert(ts.last() == list@[i as int]@);
        }
        match encode_entry(key, pinned, &list[i]) {
            Ok(e) => {
                let ghost before = out@;
                out.push(e);
                proof {
                    let a = stored_views(before).skip(start.len() as int);
                    let b = stored_views(out@).skip(start.len() as int);
                    assert(b =~= a.push(e@));
                    let ka = kept(texts_of(list@).take(i as int)).map_values(
                        |t: Seq<char>| (pinned, t),
                    );
                    let kb = kept(ts).map_values(|t: Seq<char>| (pinned, t));
                    assert(kb =~= ka.push((pinned, list@[i as int]@)));
                    assert forall|k: int| 0 <= k < b.len() implies #[trigger] entry_outcome(
                        key@,
                        b[k],
                    ) == EntryOutcome::Loaded(kb[k].0, kb[k].1) && sealed(key@, b[k], kb[k]) by {
                        if k < a.len() {
                            assert(b[k] == a[k]);
                            assert(kb[k] == ka[k]);
                        }
                    };
                }
            },
            Err(_) => {
                proof {
                    let kb = kept(ts).map_values(|t: Seq<char>| (pinned, t));
                    let ka = kept(texts_of(list@).take(i as int)).map_values(
                        |t: Seq<char>| (pinned, t),
                    );
                    assert(kb =~= ka);
                }
            },
        }
        i = i + 1;
    }
    proof {
        assert(texts_of(list@).take(i as int) =~= texts_of(list@));
        let added = kept(texts_of(list@)).map_values(|t: Seq<char>| (pinned, t));
        assert forall|expected: Seq<(bool, Seq<char>)>| #[trigger]
            stores(key@, stored_views(start), expected) implies stores(
            key@,
            stored_views(out@),
            expected + added,
        ) by {
            let all = stored_views(out@);
            let e2 = expected + added;
            assert forall|k: int| 0 <= k < all.len() implies #[trigger] entry_outcome(key@, all[k])
                == EntryOutcome::Loaded(e2[k].0, e2[k].1) && sealed(key@, all[k], e2[k]) by {
                if k < start.len() {
                    assert(all[k] == stored_views(start)[k]);
                } else {
                    assert(all[k] == all.skip(start.len() as int)[k - start.len()]);
                }
            };
        };
    }
}

/// Splits loaded entries into the history texts and the pinned texts, each
/// in order.
pub fn split_entries(entries: Vec<HistoryEntry>) -> (r: (Vec<String>, Vec<String>))
    ensures
        (texts_of(r.0@), texts_of(r.1@)) == split_spec(entry_views(entries@)),
{
    let mut h: Vec<String> = Vec::new();
    let mut p: Vec<String> = Vec::new();
    let mut i: usize = 0;
    while i < entries.len()
        invariant
            i <= entries@.len(),
            (texts_of(h@), texts_of(p@)) == split_spec(entry_views(entries@).take(i as int)),
        decreases entries@.len() - i,
    {
        let ghost es = entry_views(entries@).take(i + 1);
        proof {
            assert(es.drop_last() =~= entry_views(entries@).take(i as int));
        }
        let ghost h0 = h@;
        let ghost p0 = p@;
        match &entries[i] {
            HistoryEntry::Text(s) => {
                h.push(s.clone());
                proof {
                    assert(texts_of(h@) =~= texts_of(h0).push(s@));
                }
            },
            HistoryEntry::PinnedText(s) => {
                p.push(s.clone());
                proof {
                    assert(texts_of(p@) =~= texts_of(p0).push(s@));
                }
            },
        }
        i = i + 1;
    }
    proof {
        assert(entry_views(entries@).take(i as int) =~= entry_views(entries@));
    }
    (h, p)
}

/// Records that hold a list of entries load back to exactly those entries,
/// with none failing.
proof fn lemma_stores_loaded(key: Seq<u8>, records: Seq<StoredView>, expected: Seq<(bool, Seq<char>)>)
    requires
        stores(key, records, expected),
    ensures
        loaded(key, records) == expected,
        failed_count(key, records) == 0,
    decreases records.len(),
{
    if records.len() > 0 {
        let r0 = records.drop_last();
        let e0 = expected.drop_last();
        assert forall|i: int| 0 <= i < r0.len() implies #[trigger] entry_outcome(key, r0[i])
            == EntryOutcome::Loaded(e0[i].0, e0[i].1) && sealed(key, r0[i], e0[i]) by {
            assert(r0[i] == records[i]);
            assert(e0[i] == expected[i]);
        };
        lemma_stores_loaded(key, r0, e0);
        assert(entry_outcome(key, records[records.len() - 1]) == EntryOutcome::Loaded(
            expected[records.len() - 1].0,
            expected[records.len() - 1].1,
        ));
        assert(loaded(key, records) =~= expected);
    }
}

/// Splitting a concatenation splits each part.
proof fn lemma_split_concat(x: Seq<(bool, Seq<char>)>, y: Seq<(bool, Seq<char>)>)
    ensures
        split_spec(x + y) == (split_spec(x).0 + split_spec(y).0, split_spec(x).1 + split_spec(
            y,
        ).1),
    decreases y.len(),
{
    if y.len() == 0 {
        assert(x + y =~= x);
        assert(split_spec(x).0 + Seq::<Seq<char>>::empty() =~= split_spec(x).0);
        assert(split_spec(x).1 + Seq::<Seq<char>>::empty() =~= split_spec(x).1);
    } else {
        assert((x + y).drop_last() =~= x + y.drop_last());
        lemma_split_concat(x, y.drop_last());
        let (a, b) = split_spec(x);
        let (c, d) = split_spec(y.drop_last());
        assert((a + c).push(y.last().1) =~= a + c.push(y.last().1));
        assert((b + d).push(y.last().1) =~= b + d.push(y.last().1));
    }
}

/// Entries all of one kind split to their texts on that side.
proof fn lemma_split_uniform(ts: Seq<Seq<char>>, pinned: bool)
    ensures
        split_spec(ts.map_values(|t: Seq<char>| (pinned, t))) == (if pinned {
            (Seq::<Seq<char>>::empty(), ts)
        } else {
            (ts, Seq::<Seq<char>>::empty())
        }),
    decreases ts.len(),
{
    if ts.len() > 0 {
        assert(ts.map_values(|t: Seq<char>| (pinned, t)).drop_last() =~= ts.drop_last().map_values(
            |t: Seq<char>| (pinned, t),
        ));
        lemma_split_uniform(ts.drop_last(), pinned);
        assert(ts.drop_last().push(ts.last()) =~= ts);
    } else {
        assert(ts.map_values(|t: Seq<char>| (pinned, t)) =~= Seq::empty());
        assert(ts =~= Seq::empty());
    }
}

/// What a save writes, a load gives back: records that hold the saved
/// history and pinned texts load, with the same key, to those entries with
/// none failing, and split back into the history texts and the pinned
/// texts (those that can be encrypted), each in order. This needs the
/// records to fit the thousand that loading reads.
pub proof fn law_save_then_load(
    key: Seq<u8>,
    records: Seq<StoredView>,
    history: Seq<Seq<char>>,
    pinned: Seq<Seq<char>>,
)
    requires
        stores(key, records, saved(history, pinned)),
        records.len() <= MAX_ENTRIES,
    ensures
        loaded(key, read_window(records)) == saved(history, pinned),
        failed_count(key, read_window(records)) == 0,
        split_spec(loaded(key, read_window(records))) == (kept(history), kept(pinned)),
{
    assert(read_window(records) == records);
    lemma_stores_loaded(key, records, saved(history, pinned));
    let a = kept(history).map_values(|t: Seq<char>| (false, t));
    let b = kept(pinned).map_values(|t: Seq<char>| (true, t));
    lemma_split_concat(a, b);
    lemma_split_uniform(kept(history), false);
    lemma_split_uniform(kept(pinned), true);
    assert(kept(history) + Seq::<Seq<char>>::empty() =~= kept(history));
    assert(Seq::<Seq<char>>::empty() + kept(pinned) =~= kept(pinned));
}

/// The text of an optional string slice.
pub open spec fn str_opt(o: Option<&str>) -> Option<Seq<char>> {
    match o {
        Some(t) => Some(t@),
        None => None,
    }
}

/// The record that a JSON value holds: its `v` member when that is an
/// unsigned number, its `kind`, `n` and `d` members when they are strings.
pub open spec fn record_of(v: JsonView) -> StoredView {
    StoredView {
        version: u64_member(v, "v"@),
        kind: str_member(v, "kind"@),
        nonce: str_member(v, "n"@),
        data: str_member(v, "d"@),
    }
}

/// The records that a history file's text holds: `None` when the text is
/// not JSON, `Some(None)` when it is not an array, otherwise one record per
/// element of the array.
pub open spec fn file_records(text: Seq<char>) -> Option<Option<Seq<StoredView>>> {
    match json_parse(text) {
        None => None,
        Some(JsonView::Array(items)) => Some(Some(items.map_values(|e: JsonView| record_of(e)))),
        Some(_) => Some(None),
    }
}

/// A JSON string, or null for none.
pub open spec fn str_json(o: Option<Seq<char>>) -> JsonView {
    match o {
        Some(s) => JsonView::Str(s),
        None => JsonView::Null,
    }
}

/// A JSON unsigned number, or null for none.
pub open spec fn u64_json(o: Option<u64>) -> JsonView {
    match o {
        Some(n) => JsonView::U64(n),
        None => JsonView::Null,
    }
}

/// The JSON object written for a record: its `d`, `kind`, `n` and `v`
/// members, in that order (null where a field is absent).
pub open spec fn record_json(e: StoredView) -> JsonView {
    JsonView::Object(
        seq![
            ("d"@, str_json(e.data)),
            ("kind"@, str_json(e.kind)),
            ("n"@, str_json(e.nonce)),
            ("v"@, u64_json(e.version)),
        ],
    )
}

/// The JSON array written for a list of records.
pub open spec fn records_json(recs: Seq<StoredView>) -> JsonView {
    JsonView::Array(recs.map_values(|e: StoredView| record_json(e)))
}

/// The object written for a record is flat and reads back as the record.
proof fn lemma_record_json(e: StoredView)
    ensures
        flat_object(record_json(e)),
        record_of(record_json(e)) == e,
{
    reveal_strlit("d");
    reveal_strlit("kind");
    reveal_strlit("n");
    reveal_strlit("v");
    reveal_with_fuel(json_member, 5);
    reveal_with_fuel(str_less, 2);
    let pairs = match record_json(e) {
        JsonView::Object(p) => p,
        _ => Seq::empty(),
    };
    assert(pairs.skip(1).skip(1).skip(1)[0] == pairs[3]);
    assert(pairs.skip(1).skip(1)[0] == pairs[2]);
    assert(pairs.skip(1)[0] == pairs[1]);
    assert("d"@ =~= seq!['d']);
    assert("kind"@ =~= seq!['k', 'i', 'n', 'd']);
    assert("n"@ =~= seq!['n']);
    assert("v"@ =~= seq!['v']);
    assert("d"@.len() == 1 && "kind"@.len() == 4 && "n"@.len() == 1 && "v"@.len() == 1);
    assert("d"@[0] == 'd' && "kind"@[0] == 'k' && "n"@[0] == 'n' && "v"@[0] == 'v');
    assert("d"@ != "kind"@ && "d"@ != "n"@ && "d"@ != "v"@);
    assert("kind"@ != "n"@ && "kind"@ != "v"@ && "n"@ != "v"@);
    assert(str_less("d"@, "kind"@) && str_less("d"@, "n"@) && str_less("d"@, "v"@));
    assert(str_less("kind"@, "n"@) && str_less("kind"@, "v"@) && str_less("n"@, "v"@));
}

/// The string member of `v` named `key`, as `str_member`.
fn str_field(v: &JsonValue, key: &str) -> (r: Option<String>)
    ensures
        opt_view(r) == str_member(v@, key@),
{
    match member(v, key) {
        Some(JsonValue::Str(s)) => Some(s.clone()),
        _ => None,
    }
}

/// The record that a JSON value holds.
fn record_from_json(v: &JsonValue) -> (r: StoredEntry)
    ensures
        r@ == record_of(v@),
{
    let version = match member(v, "v") {
        Some(JsonValue::U64(n)) => Some(*n),
        _ => None,
    };
    StoredEntry {
        version,
        kind: str_field(v, "kind"),
        nonce: str_field(v, "n"),
        data: str_field(v, "d"),
    }
}

/// The records of a JSON array, or `None` for a value that is not one.
fn records_from_json(v: &JsonValue) -> (r: Option<Vec<StoredEntry>>)
    ensures
        match v@ {
            JsonView::Array(items) => r matches Some(rs) && stored_views(rs@) == items.map_values(
                |e: JsonView| record_of(e),
            ),
            _ => r is None,
        },
{
    match v {
        JsonValue::Array(items) => {
            let ghost iv = match v@ {
                JsonView::Array(x) => x,
                _ => Seq::empty(),
            };
            proof {
                reveal_with_fuel(<JsonValue as View>::view, 2);
                assert(iv.len() == items@.len());
                assert forall|j: int| 0 <= j < items@.len() implies #[trigger] iv[j]
                    == items@[j]@ by {};
            }
            let mut out: Vec<StoredEntry> = Vec::new();
            let mut i: usize = 0;
            while i < items.len()
                invariant
                    iv.len() == items@.len(),
                    forall|j: int| 0 <= j < items@.len() ==> #[trigger] iv[j] == items@[j]@,
                    i <= items@.len(),
                    stored_views(out@) == iv.take(i as int).map_values(
                        |e: JsonView| record_of(e),
                    ),
                decreases items@.len() - i,
            {
                let e = record_from_json(&items[i]);
                let ghost before = out@;
                out.push(e);
                proof {
                    assert(stored_views(out@) =~= stored_views(before).push(e@));
                    assert(iv.take(i + 1).map_values(|e: JsonView| record_of(e)) =~= iv.take(
                        i as int,
                    ).map_values(|e: JsonView| record_of(e)).push(record_of(iv[i as int])));
                }
                i = i + 1;
            }
            proof {
                assert(iv.take(i as int) =~= iv);
            }
            Some(out)
        },
        _ => None,
    }
}

/// A JSON string for an optional string.
fn str_to_json(o: &Option<String>) -> (r: JsonValue)
    ensures
        r@ == str_json(opt_view(*o)),
{
    match o {
        Some(s) => JsonValue::Str(s.clone()),
        None => JsonValue::Null,
    }
}

/// The JSON object written for a record.
fn record_to_json(e: &StoredEntry) -> (r: JsonValue)
    ensures
        r@ == record_json(e@),
{
    let v = match e.version {
        Some(n) => JsonValue::U64(n),
        None => JsonValue::Null,
    };
    let mut pairs: Vec<(String, JsonValue)> = Vec::new();
    pairs.push((String::from_str("d"), str_to_json(&e.data)));
    pairs.push((String::from_str("kind"), str_to_json(&e.kind)));
    pairs.push((String::from_str("n"), str_to_json(&e.nonce)));
    pairs.push((String::from_str("v"), v));
    let r = JsonValue::Object(pairs);
    proof {
        reveal_with_fuel(<JsonValue as View>::view, 2);
        let pv = match r@ {
            JsonView::Object(p) => p,
            _ => Seq::empty(),
        };
        let want = match record_json(e@) {
            JsonView::Object(p) => p,
            _ => Seq::empty(),
        };
        assert(pv =~= want);
    }
    r
}

/// The JSON array written for a list of records.
fn records_to_json(recs: &Vec<StoredEntry>) -> (r: JsonValue)
    ensures
        r@ == records_json(stored_views(recs@)),
{
    let mut items: Vec<JsonValue> = Vec::new();
    let mut i: usize = 0;
    while i < recs.len()
        invariant
            i <= recs@.len(),
            items@.len() == i,
            forall|j: int| 0 <= j < i ==> #[trigger] items@[j]@ == record_json(recs@[j]@),
        decreases recs@.len() - i,
    {
        items.push(record_to_json(&recs[i]));
        i = i + 1;
    }
    let r = JsonValue::Array(items);
    proof {
        reveal_with_fuel(<JsonValue as View>::view, 2);
        let iv = match r@ {
            JsonView::Array(x) => x,
            _ => Seq::empty(),
        };
        let want = match records_json(stored_views(recs@)) {
            JsonView::Array(x) => x,
            _ => Seq::empty(),
        };
        assert(iv.len() == want.len());
        assert forall|j: int| 0 <= j < iv.len() implies iv[j] == want[j] by {
            assert(items@[j]@ == record_json(recs@[j]@));
        };
        assert(iv =~= want);
    }
    r
}

/// What loading a history file gives with `key`, from its contents (`None`
/// when there is no file to read): `None` when the text is not JSON; no
/// entries when there is no file or the JSON is not an array; otherwise the
/// entries of the records read and how many of them failed.
pub open spec fn file_loaded(key: Seq<u8>, contents: Option<Seq<char>>) -> Option<
    (Seq<(bool, Seq<char>)>, nat),
> {
    match contents {
        None => Some((Seq::empty(), 0nat)),
        Some(t) => match file_records(t) {
            None => None,
            Some(None) => Some((Seq::empty(), 0nat)),
            Some(Some(recs)) => Some(
                (loaded(key, read_window(recs)), failed_count(key, read_window(recs))),
            ),
        },
    }
}

/// Loads a history file's contents (`None` when there is no file) with
/// `key`: the entries and the number of records that failed, or, when the
/// text is not JSON, serde_json's message.
pub fn load_records(key: &[u8; 32], contents: Option<&str>) -> (r: Result<
    (Vec<HistoryEntry>, usize),
    String,
>)
    ensures
        match r {
            Err(_) => file_loaded(key@, str_opt(contents)) is None,
            Ok((es, n)) => file_loaded(key@, str_opt(contents)) == Some(
                (entry_views(es@), n as nat),
            ),
        },
{
    proof {
        assert(entry_views(Seq::<HistoryEntry>::empty()) =~= Seq::empty());
    }
    let text = match contents {
        None => {
            return Ok((Vec::new(), 0));
        },
        Some(t) => t,
    };
    match parse_json(text) {
        Err(e) => Err(e),
        Ok(v) => match records_from_json(&v) {
            None => Ok((Vec::new(), 0)),
            Some(records) => Ok(decode_entries(key, &records)),
        },
    }
}

/// Fewer texts can be encrypted than there are texts.
proof fn lemma_kept_len(ts: Seq<Seq<char>>)
    ensures
        kept(ts).len() <= ts.len(),
    decreases ts.len(),
{
    if ts.len() > 0 {
        lemma_kept_len(ts.drop_last());
    }
}

/// How many texts of `list` cannot be encrypted (their UTF-8 form is over
/// 2^36 bytes).
fn count_left_out(list: &Vec<String>) -> (n: usize)
    ensures
        n == list@.len() - kept(texts_of(list@)).len(),
{
    let mut n: usize = 0;
    let mut i: usize = 0;
    while i < list.len()
        invariant
            i <= list@.len(),
            n == i - kept(texts_of(list@).take(i as int)).len(),
            kept(texts_of(list@).take(i as int)).len() <= i,
        decreases list@.len() - i,
    {
        let ghost ts = texts_of(list@).take(i + 1);
        proof {
            assert(ts.drop_last() =~= texts_of(list@).take(i as int));
            assert(ts.last() == list@[i as int]@);
        }
        let bytes = list[i].as_str().as_bytes();
        proof {
            assert(bytes@ == encode_utf8(list@[i as int]@));
        }
        if bytes.len() as u64 > PLAINTEXT_MAX {
            n = n + 1;
        }
        i = i + 1;
    }
    proof {
        assert(texts_of(list@).take(i as int) =~= texts_of(list@));
    }
    n
}

/// The history file's text that saves `history` and then `pinned` under
/// `key` — a JSON array holding one sealed record per text that can be
/// encrypted — with the numbers of history and of pinned texts left out
/// because they cannot be encrypted. Loading the text with the same key
/// gives back exactly the saved entries, none failing, when there are at
/// most a thousand of them.
pub fn save_records(key: &[u8; 32], history: &Vec<String>, pinned: &Vec<String>) -> (r: (
    String,
    usize,
    usize,
))
    requires
        forall|i: int| 0 <= i < history@.len() ==> fits_base64(#[trigger] history@[i]@),
        forall|i: int| 0 <= i < pinned@.len() ==> fits_base64(#[trigger] pinned@[i]@),
    ensures
        exists|recs: Seq<StoredView>|
            r.0@ == #[trigger] json_write(records_json(recs)) && stores(
                key@,
                recs,
                saved(texts_of(history@), texts_of(pinned@)),
            ),
        r.1 == history@.len() - kept(texts_of(history@)).len(),
        r.2 == pinned@.len() - kept(texts_of(pinned@)).len(),
        saved(texts_of(history@), texts_of(pinned@)).len() <= MAX_ENTRIES ==> file_loaded(
            key@,
            Some(r.0@),
        ) == Some((saved(texts_of(history@), texts_of(pinned@)), 0nat)),
{
    let records = encode_entries(key, history, pinned);
    let json = records_to_json(&records);
    let text = write_json(&json);
    proof {
        let recs = stored_views(records@);
        let want = saved(texts_of(history@), texts_of(pinned@));
        let items = recs.map_values(|e: StoredView| record_json(e));
        assert forall|i: int| 0 <= i < items.len() implies flat_object(#[trigger] items[i]) by {
            lemma_record_json(recs[i]);
        };
        assert(flat_json(json@));
        let back = items.map_values(|e: JsonView| record_of(e));
        assert forall|i: int| 0 <= i < back.len() implies #[trigger] back[i] == recs[i] by {
            lemma_record_json(recs[i]);
        };
        assert(back =~= recs);
        assert(file_records(text@) == Some(Some(recs)));
        if want.len() <= MAX_ENTRIES {
            assert(read_window(recs) == recs);
            lemma_stores_loaded(key@, recs, want);
        }
    }
    (text, count_left_out(history), count_left_out(pinned))
}

} // verus!
