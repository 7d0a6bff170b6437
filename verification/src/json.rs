//! JSON values as the library holds them, read from and written to text by
//! `serde_json`, and the lookup of an object's members.

use vstd::prelude::*;

use crate::text::to_chars;

verus! {

broadcast use vstd::std_specs::vec::group_vec_axioms;

/// A JSON value. A number is kept when it is an unsigned 64-bit integer;
/// any other number only as being a number.
pub enum JsonValue {
    Null,
    Bool(bool),
    U64(u64),
    OtherNumber,
    Str(String),
    Array(Vec<JsonValue>),
    /// The members of an object, in order.
    Object(Vec<(String, JsonValue)>),
}

/// The abstract content of a `JsonValue`.
pub enum JsonView {
    Null,
    Bool(bool),
    U64(u64),
    OtherNumber,
    Str(Seq<char>),
    Array(Seq<JsonView>),
    Object(Seq<(Seq<char>, JsonView)>),
}

impl View for JsonValue {
    type V = JsonView;

    open spec fn view(&self) -> JsonView
        decreases self,
    {
        match self {
            JsonValue::Null => JsonView::Null,
            JsonValue::Bool(b) => JsonView::Bool(*b),
            JsonValue::U64(n) => JsonView::U64(*n),
            JsonValue::OtherNumber => JsonView::OtherNumber,
            JsonValue::Str(s) => JsonView::Str(s@),
            JsonValue::Array(items) => JsonView::Array(
                Seq::new(
                    items@.len(),
                    |i: int|
                        if 0 <= i < items@.len() {
                            proof {
                                assert(decreases_to!(items => items@));
                                assert(decreases_to!(items@ => items@[i]));
                            }
                            items@[i].view()
                        } else {
                            JsonView::Null
                        },
                ),
            ),
            JsonValue::Object(pairs) => JsonView::Object(
                Seq::new(
                    pairs@.len(),
                    |i: int|
                        if 0 <= i < pairs@.len() {
                            proof {
                                assert(decreases_to!(pairs => pairs@));
                                assert(decreases_to!(pairs@ => pairs@[i]));
                                assert(decreases_to!(pairs@[i] => pairs@[i].1));
                            }
                            (pairs@[i].0@, pairs@[i].1.view())
                        } else {
                            (Seq::empty(), JsonView::Null)
                        },
                ),
            ),
        }
    }
}

#[verifier::external_type_specification]
#[verifier::external_body]
pub struct ExSerdeJsonValue(serde_json::Value);

/// The JSON value that `text` holds, as `serde_json::from_str` reads it into
/// a `serde_json::Value` (an object's members in the order of its map, by
/// key, each key once), or `None` when the text is not JSON.
pub uninterp spec fn json_parse(text: Seq<char>) -> Option<JsonView>;

/// The compact text that `serde_json::to_string` writes for a value.
pub uninterp spec fn json_write(v: JsonView) -> Seq<char>;

/// Whether `a` comes before `b` in the order of `String`s (by characters,
/// the shorter first when one begins the other).
pub open spec fn str_less(a: Seq<char>, b: Seq<char>) -> bool
    decreases a.len(),
{
    if a.len() == 0 {
        b.len() > 0
    } else if b.len() == 0 {
        false
    } else if a[0] != b[0] {
        (a[0] as int) < (b[0] as int)
    } else {
        str_less(a.skip(1), b.skip(1))
    }
}

/// Whether a value is null, an unsigned number or a string.
pub open spec fn json_scalar(v: JsonView) -> bool {
    v is Null || v is U64 || v is Str
}

/// Whether a value is an object whose keys are in increasing order and
/// whose members are all null, unsigned numbers or strings.
pub open spec fn flat_object(v: JsonView) -> bool {
    match v {
        JsonView::Object(pairs) => {
            &&& forall|j: int, k: int|
                0 <= j < k < pairs.len() ==> str_less(#[trigger] pairs[j].0, #[trigger] pairs[k].0)
            &&& forall|j: int| 0 <= j < pairs.len() ==> json_scalar(#[trigger] pairs[j].1)
        },
        _ => false,
    }
}

/// Whether a value is an array of flat objects.
pub open spec fn flat_json(v: JsonView) -> bool {
    match v {
        JsonView::Array(items) => forall|i: int| 0 <= i < items.len() ==> flat_object(#[trigger] items[i]),
        _ => false,
    }
}

/// `serde_json::Value` converted one for one (a number that is not an
/// unsigned 64-bit integer becomes `OtherNumber`).
#[verifier::external_body]
fn json_from_serde(v: &serde_json::Value) -> JsonValue {
    match v {
        serde_json::Value::Null => JsonValue::Null,
        serde_json::Value::Bool(b) => JsonValue::Bool(*b),
        serde_json::Value::Number(n) => n.as_u64().map_or(JsonValue::OtherNumber, JsonValue::U64),
        serde_json::Value::String(s) => JsonValue::Str(s.clone()),
        serde_json::Value::Array(a) => JsonValue::Array(a.iter().map(json_from_serde).collect()),
        serde_json::Value::Object(m) => JsonValue::Object(
            m.iter().map(|(k, x)| (k.clone(), json_from_serde(x))).collect(),
        ),
    }
}

/// A `JsonValue` converted one for one to a `serde_json::Value` (an
/// `OtherNumber` becomes null).
#[verifier::external_body]
fn json_to_serde(v: &JsonValue) -> serde_json::Value {
    match v {
        JsonValue::Null | JsonValue::OtherNumber => serde_json::Value::Null,
        JsonValue::Bool(b) => serde_json::Value::Bool(*b),
        JsonValue::U64(n) => serde_json::Value::from(*n),
        JsonValue::Str(s) => serde_json::Value::String(s.clone()),
        JsonValue::Array(a) => serde_json::Value::Array(a.iter().map(json_to_serde).collect()),
        JsonValue::Object(p) => serde_json::Value::Object(
            p.iter().map(|(k, x)| (k.clone(), json_to_serde(x))).collect(),
        ),
    }
}

/// `serde_json::from_str` into a `serde_json::Value`, converted to a
/// `JsonValue`; on failure serde_json's error message. Claimed: the value is
/// the named reading of the text, and the text is refused exactly when the
/// name has no value for it.
#[verifier::external_body]
pub(crate) fn parse_json(text: &str) -> (r: Result<JsonValue, String>)
    ensures
        match r {
            Ok(v) => json_parse(text@) == Some(v@),
            Err(_) => json_parse(text@) is None,
        },
{
    serde_json::from_str::<serde_json::Value>(text).map(|v| json_from_serde(&v)).map_err(
        |e| e.to_string(),
    )
}

/// `serde_json::to_string` of the value converted to a `serde_json::Value`.
/// Claimed: it succeeds (a `serde_json::Value` has only string keys and no
/// failing `Serialize` impl); the text is the named writing of the value;
/// and a flat value (an array of objects whose keys are in increasing order,
/// each member null, an unsigned number or a string) reads back as itself,
/// since the map of an object keeps its members by key.
#[verifier::external_body]
pub(crate) fn write_json(v: &JsonValue) -> (r: String)
    ensures
        r@ == json_write(v@),
        flat_json(v@) ==> json_parse(r@) == Some(v@),
{
    serde_json::to_string(&json_to_serde(v)).unwrap_or_default()
}

/// The first member of `pairs` named `key`.
pub open spec fn json_member(pairs: Seq<(Seq<char>, JsonView)>, key: Seq<char>) -> Option<JsonView>
    decreases pairs.len(),
{
    if pairs.len() == 0 {
        None
    } else if pairs[0].0 == key {
        Some(pairs[0].1)
    } else {
        json_member(pairs.skip(1), key)
    }
}

/// The member of an object named `key`; `None` for a value that is not an
/// object or has no such member.
pub open spec fn member_of(v: JsonView, key: Seq<char>) -> Option<JsonView> {
    match v {
        JsonView::Object(pairs) => json_member(pairs, key),
        _ => None,
    }
}

/// The string member named `key`, when there is one.
pub open spec fn str_member(v: JsonView, key: Seq<char>) -> Option<Seq<char>> {
    match member_of(v, key) {
        Some(JsonView::Str(s)) => Some(s),
        _ => None,
    }
}

/// The unsigned number member named `key`, when there is one.
pub open spec fn u64_member(v: JsonView, key: Seq<char>) -> Option<u64> {
    match member_of(v, key) {
        Some(JsonView::U64(n)) => Some(n),
        _ => None,
    }
}

/// Members before the first one named `key` can be passed over.
proof fn lemma_member_skip(pairs: Seq<(Seq<char>, JsonView)>, key: Seq<char>, i: int)
    requires
        0 <= i <= pairs.len(),
        forall|j: int| 0 <= j < i ==> (#[trigger] pairs[j]).0 != key,
    ensures
        json_member(pairs, key) == json_member(pairs.skip(i), key),
    decreases i,
{
    if i > 0 {
        let rest = pairs.skip(1);
        assert forall|j: int| 0 <= j < i - 1 implies (#[trigger] rest[j]).0 != key by {
            assert(rest[j] == pairs[j + 1]);
        };
        lemma_member_skip(rest, key, i - 1);
        assert(rest.skip(i - 1) =~= pairs.skip(i));
    } else {
        assert(pairs.skip(0) =~= pairs);
    }
}

/// Whether a string is exactly `w`.
fn string_equals(s: &String, w: &str) -> (r: bool)
    ensures
        r == (s@ == w@),
{
    let a = to_chars(s.as_str());
    let b = to_chars(w);
    if a.len() != b.len() {
        return false;
    }
    let mut i: usize = 0;
    while i < a.len()
        invariant
            a@ == s@,
            b@ == w@,
            a@.len() == b@.len(),
            i <= a@.len(),
            forall|k: int| 0 <= k < i ==> a@[k] == b@[k],
        decreases a@.len() - i,
    {
        if a[i] != b[i] {
            return false;
        }
        i = i + 1;
    }
    assert(a@ =~= b@);
    true
}

/// The member of `v` named `key`, as `member_of`.
pub fn member<'a>(v: &'a JsonValue, key: &str) -> (r: Option<&'a JsonValue>)
    ensures
        match r {
            Some(x) => member_of(v@, key@) == Some(x@),
            None => member_of(v@, key@) is None,
        },
{
    match v {
        JsonValue::Object(pairs) => {
            let ghost pv = match v@ {
                JsonView::Object(p) => p,
                _ => Seq::empty(),
            };
            proof {
                reveal_with_fuel(<JsonValue as View>::view, 2);
                assert(pv.len() == pairs@.len());
                assert forall|j: int| 0 <= j < pairs@.len() implies #[trigger] pv[j] == (
                    pairs@[j].0@,
                    pairs@[j].1@,
                ) by {};
            }
            let mut i: usize = 0;
            while i < pairs.len()
                invariant
                    pv.len() == pairs@.len(),
                    forall|j: int| 0 <= j < pairs@.len() ==> #[trigger] pv[j] == (
                        pairs@[j].0@,
                        pairs@[j].1@,
                    ),
                    i <= pairs@.len(),
                    member_of(v@, key@) == json_member(pv, key@),
                    forall|j: int| 0 <= j < i ==> (#[trigger] pv[j]).0 != key@,
                decreases pairs@.len() - i,
            {
                if string_equals(&pairs[i].0, key) {
                    proof {
                        lemma_member_skip(pv, key@, i as int);
                        assert(pv.skip(i as int)[0] == pv[i as int]);
                    }
                    return Some(&pairs[i].1);
                }
                i = i + 1;
            }
            proof {
                lemma_member_skip(pv, key@, i as int);
            }
            None
        },
        _ => None,
    }
}

} // verus!
