//! JSON values, as the language server sends and receives them.

use vstd::prelude::*;
use crate::text::str_eq;
use serde_json::Value;

verus! {

/// A JSON number: a non-negative integer, a negative integer, or any other
/// number kept as its decimal text.
#[derive(Debug)]
pub enum JsonNumber {
    PosInt(u64),
    NegInt(i64),
    Float(String),
}

/// A JSON value.  An object's members are kept in order, each key once.
#[derive(Debug)]
pub enum JsonValue {
    Null,
    Bool(bool),
    Number(JsonNumber),
    String(String),
    Array(Vec<JsonValue>),
    Object(Vec<(String, JsonValue)>),
}

/// The mathematical form of a JSON value.
pub enum JsonData {
    Null,
    Bool(bool),
    PosInt(u64),
    NegInt(i64),
    Float(Seq<char>),
    Str(Seq<char>),
    Array(Seq<JsonData>),
    Object(Seq<(Seq<char>, JsonData)>),
}

impl JsonValue {
    pub open spec fn data(self) -> JsonData
        decreases self,
    {
        match self {
            JsonValue::Null => JsonData::Null,
            JsonValue::Bool(b) => JsonData::Bool(b),
            JsonValue::Number(JsonNumber::PosInt(n)) => JsonData::PosInt(n),
            JsonValue::Number(JsonNumber::NegInt(n)) => JsonData::NegInt(n),
            JsonValue::Number(JsonNumber::Float(s)) => JsonData::Float(s@),
            JsonValue::String(s) => JsonData::Str(s@),
            JsonValue::Array(vs) => JsonData::Array(data_seq(vs@)),
            JsonValue::Object(es) => JsonData::Object(members_data(es@)),
        }
    }
}

/// The mathematical forms of a sequence of values.
pub open spec fn data_seq(vs: Seq<JsonValue>) -> Seq<JsonData>
    decreases vs,
{
    if vs.len() == 0 {
        Seq::empty()
    } else {
        data_seq(vs.drop_last()).push(vs.last().data())
    }
}

/// The mathematical forms of an object's members.
pub open spec fn members_data(es: Seq<(String, JsonValue)>) -> Seq<(Seq<char>, JsonData)>
    decreases es,
{
    if es.len() == 0 {
        Seq::empty()
    } else {
        members_data(es.drop_last()).push((es.last().0@, es.last().1.data()))
    }
}

/// Sequences whose values have the same forms have the same forms.
pub proof fn lemma_data_seq_pointwise(a: Seq<JsonValue>, b: Seq<JsonValue>)
    requires
        a.len() == b.len(),
        forall|k: int| 0 <= k < a.len() ==> (#[trigger] a[k]).data() == b[k].data(),
    ensures
        data_seq(a) == data_seq(b),
    decreases a.len(),
{
    if a.len() > 0 {
        lemma_data_seq_pointwise(a.drop_last(), b.drop_last());
    }
}

/// Members with the same keys and forms have the same forms.
pub proof fn lemma_members_data_pointwise(a: Seq<(String, JsonValue)>, b: Seq<(String, JsonValue)>)
    requires
        a.len() == b.len(),
        forall|k: int| 0 <= k < a.len() ==> (#[trigger] a[k]).0@ == b[k].0@ && a[k].1.data() == b[k].1.data(),
    ensures
        members_data(a) == members_data(b),
    decreases a.len(),
{
    if a.len() > 0 {
        lemma_members_data_pointwise(a.drop_last(), b.drop_last());
    }
}

/// A copy of a JSON value.
pub fn clone_json(v: &JsonValue) -> (r: JsonValue)
    ensures
        r.data() == v.data(),
    decreases v,
{
    match v {
        JsonValue::Null => JsonValue::Null,
        JsonValue::Bool(b) => JsonValue::Bool(*b),
        JsonValue::Number(JsonNumber::PosInt(n)) => JsonValue::Number(JsonNumber::PosInt(*n)),
        JsonValue::Number(JsonNumber::NegInt(n)) => JsonValue::Number(JsonNumber::NegInt(*n)),
        JsonValue::Number(JsonNumber::Float(s)) => JsonValue::Number(JsonNumber::Float(s.clone())),
        JsonValue::String(s) => JsonValue::String(s.clone()),
        JsonValue::Array(vs) => {
            let mut out: Vec<JsonValue> = Vec::new();
            let mut i: usize = 0;
            while i < vs.len()
                invariant
                    *v == JsonValue::Array(*vs),
                    i <= vs.len(),
                    out@.len() == i,
                    forall|k: int| 0 <= k < i ==> (#[trigger] out@[k]).data() == vs@[k].data(),
                decreases vs.len() - i,
            {
                proof {
                    assert(decreases_to!(*v => (*v)->Array_0));
                    assert(decreases_to!(*vs => vs@));
                    assert(decreases_to!(vs@ => vs@[i as int]));
                }
                let c = clone_json(&vs[i]);
                out.push(c);
                i = i + 1;
            }
            let r = JsonValue::Array(out);
            proof {
                lemma_data_seq_pointwise(out@, vs@);
            }
            r
        },
        JsonValue::Object(es) => {
            let mut out: Vec<(String, JsonValue)> = Vec::new();
            let mut i: usize = 0;
            while i < es.len()
                invariant
                    *v == JsonValue::Object(*es),
                    i <= es.len(),
                    out@.len() == i,
                    forall|k: int| 0 <= k < i ==> (#[trigger] out@[k]).0@ == es@[k].0@ && out@[k].1.data() == es@[k].1.data(),
                decreases es.len() - i,
            {
                proof {
                    assert(decreases_to!(*v => (*v)->Object_0));
                    assert(decreases_to!(*es => es@));
                    assert(decreases_to!(es@ => es@[i as int]));
                    assert(decreases_to!(es@[i as int] => es@[i as int].1));
                }
                let c = clone_json(&es[i].1);
                out.push((es[i].0.clone(), c));
                i = i + 1;
            }
            let r = JsonValue::Object(out);
            proof {
                lemma_members_data_pointwise(out@, es@);
            }
            r
        },
    }
}

/// The value of the first member named `key`.
pub open spec fn lookup(entries: Seq<(Seq<char>, JsonData)>, key: Seq<char>) -> Option<JsonData>
    decreases entries.len(),
{
    if entries.len() == 0 {
        None
    } else if entries[0].0 == key {
        Some(entries[0].1)
    } else {
        lookup(entries.drop_first(), key)
    }
}

/// The member `key` of an object; `None` for other values.
pub open spec fn json_get(v: JsonData, key: Seq<char>) -> Option<JsonData> {
    match v {
        JsonData::Object(entries) => lookup(entries, key),
        _ => None,
    }
}

/// The text of a string value.
pub open spec fn json_str(v: JsonData) -> Option<Seq<char>> {
    match v {
        JsonData::Str(s) => Some(s),
        _ => None,
    }
}

/// The value as an unsigned integer, as `Value::as_u64` gives it.
pub open spec fn json_u64(v: JsonData) -> Option<u64> {
    match v {
        JsonData::PosInt(u) => Some(u),
        _ => None,
    }
}

/// The value as a signed integer, as `Value::as_i64` gives it.
pub open spec fn json_i64(v: JsonData) -> Option<i64> {
    match v {
        JsonData::PosInt(u) => if u <= i64::MAX {
            Some(u as i64)
        } else {
            None
        },
        JsonData::NegInt(i) => Some(i),
        _ => None,
    }
}

/// The items of an array value.
pub open spec fn json_array(v: JsonData) -> Option<Seq<JsonData>> {
    match v {
        JsonData::Array(items) => Some(items),
        _ => None,
    }
}

/// The members of an object value.
pub open spec fn json_object(v: JsonData) -> Option<Seq<(Seq<char>, JsonData)>> {
    match v {
        JsonData::Object(entries) => Some(entries),
        _ => None,
    }
}

/// The forms of a sequence of values, item by item.
pub proof fn lemma_data_seq_index(vs: Seq<JsonValue>)
    ensures
        data_seq(vs).len() == vs.len(),
        forall|i: int| 0 <= i < vs.len() ==> #[trigger] data_seq(vs)[i] == vs[i].data(),
    decreases vs.len(),
{
    if vs.len() > 0 {
        lemma_data_seq_index(vs.drop_last());
    }
}

/// The forms of an object's members, member by member.
pub proof fn lemma_members_data_index(es: Seq<(String, JsonValue)>)
    ensures
        members_data(es).len() == es.len(),
        forall|i: int|
            0 <= i < es.len() ==> #[trigger] members_data(es)[i] == (es[i].0@, es[i].1.data()),
    decreases es.len(),
{
    if es.len() > 0 {
        lemma_members_data_index(es.drop_last());
    }
}

/// The member `key` of an object value.
pub fn get<'a>(v: &'a JsonValue, key: &str) -> (r: Option<&'a JsonValue>)
    ensures
        match r {
            Some(x) => json_get(v.data(), key@) == Some(x.data()),
            None => json_get(v.data(), key@) is None,
        },
{
    match v {
        JsonValue::Object(entries) => {
            let ghost m = members_data(entries@);
            proof {
                lemma_members_data_index(entries@);
                assert(m.skip(0) =~= m);
            }
            let mut i: usize = 0;
            while i < entries.len()
                invariant
                    i <= entries@.len(),
                    m == members_data(entries@),
                    m.len() == entries@.len(),
                    forall|j: int|
                        0 <= j < entries@.len() ==> #[trigger] m[j] == (
                            entries@[j].0@,
                            entries@[j].1.data(),
                        ),
                    json_get(v.data(), key@) == lookup(m, key@),
                    lookup(m, key@) == lookup(m.skip(i as int), key@),
                decreases entries@.len() - i,
            {
                proof {
                    assert(m.skip(i as int).drop_first() =~= m.skip(i + 1));
                    assert(m.skip(i as int)[0] == m[i as int]);
                }
                if str_eq(entries[i].0.as_str(), key) {
                    return Some(&entries[i].1);
                }
                i = i + 1;
            }
            None
        },
        _ => None,
    }
}

/// The text of a string value.
pub fn as_str(v: &JsonValue) -> (r: Option<&str>)
    ensures
        match r {
            Some(s) => json_str(v.data()) == Some(s@),
            None => json_str(v.data()) is None,
        },
{
    match v {
        JsonValue::String(s) => Some(s.as_str()),
        _ => None,
    }
}

/// The value as an unsigned integer.
pub fn as_u64(v: &JsonValue) -> (r: Option<u64>)
    ensures
        r == json_u64(v.data()),
{
    match v {
        JsonValue::Number(JsonNumber::PosInt(u)) => Some(*u),
        _ => None,
    }
}

/// The value as a signed integer.
pub fn as_i64(v: &JsonValue) -> (r: Option<i64>)
    ensures
        r == json_i64(v.data()),
{
    match v {
        JsonValue::Number(JsonNumber::PosInt(u)) => if *u <= i64::MAX as u64 {
            Some(*u as i64)
        } else {
            None
        },
        JsonValue::Number(JsonNumber::NegInt(i)) => Some(*i),
        _ => None,
    }
}

/// The items of an array value.
pub fn as_array(v: &JsonValue) -> (r: Option<&Vec<JsonValue>>)
    ensures
        match r {
            Some(a) => json_array(v.data()) == Some(data_seq(a@)),
            None => json_array(v.data()) is None,
        },
{
    match v {
        JsonValue::Array(items) => Some(items),
        _ => None,
    }
}

/// The members of an object value.
pub fn as_object(v: &JsonValue) -> (r: Option<&Vec<(String, JsonValue)>>)
    ensures
        match r {
            Some(o) => json_object(v.data()) == Some(members_data(o@)),
            None => json_object(v.data()) is None,
        },
{
    match v {
        JsonValue::Object(entries) => Some(entries),
        _ => None,
    }
}

/// Removing a member with another key keeps the lookup of `key`.
pub proof fn lemma_lookup_remove(s: Seq<(Seq<char>, JsonData)>, i: int, key: Seq<char>)
    requires
        0 <= i < s.len(),
        s[i].0 != key,
    ensures
        lookup(s.remove(i), key) == lookup(s, key),
    decreases i,
{
    if i > 0 {
        assert(s.remove(i).drop_first() =~= s.drop_first().remove(i - 1));
        assert(s.remove(i)[0] == s[0]);
        lemma_lookup_remove(s.drop_first(), i - 1, key);
    } else {
        assert(s.remove(0) =~= s.drop_first());
    }
}

/// Removes the first member named `key` from an object's members and returns
/// its value.
pub fn take_member(entries: &mut Vec<(String, JsonValue)>, key: &str) -> (r: Option<JsonValue>)
    ensures
        match r {
            Some(x) => lookup(members_data(old(entries)@), key@) == Some(x.data()),
            None => lookup(members_data(old(entries)@), key@) is None,
        },
        forall|k: Seq<char>|
            k != key@ ==> lookup(members_data(final(entries)@), k) == lookup(
                members_data(old(entries)@),
                k,
            ),
{
    let ghost s = entries@;
    let ghost m = members_data(s);
    proof {
        lemma_members_data_index(s);
        assert(m.skip(0) =~= m);
    }
    let mut i: usize = 0;
    while i < entries.len()
        invariant
            s == entries@,
            s == old(entries)@,
            m == members_data(s),
            m.len() == s.len(),
            forall|j: int| 0 <= j < s.len() ==> #[trigger] m[j] == (s[j].0@, s[j].1.data()),
            i <= s.len(),
            lookup(m, key@) == lookup(m.skip(i as int), key@),
        decreases s.len() - i,
    {
        proof {
            assert(m.skip(i as int).drop_first() =~= m.skip(i + 1));
            assert(m.skip(i as int)[0] == m[i as int]);
        }
        if str_eq(entries[i].0.as_str(), key) {
            let (_, v) = entries.remove(i);
            proof {
                lemma_members_data_index(entries@);
                assert(members_data(entries@) =~= m.remove(i as int));
                assert forall|k: Seq<char>| k != key@ implies lookup(members_data(entries@), k)
                    == lookup(m, k) by {
                    lemma_lookup_remove(m, i as int, k);
                }
            }
            return Some(v);
        }
        i = i + 1;
    }
    proof {
        assert(m.skip(i as int) =~= Seq::<(Seq<char>, JsonData)>::empty());
    }
    None
}

/// The form of an integer as JSON holds it: non-negative ones as unsigned.
pub open spec fn int_data(i: i64) -> JsonData {
    if i >= 0 {
        JsonData::PosInt(i as u64)
    } else {
        JsonData::NegInt(i)
    }
}

/// A string value.
pub fn jstr(s: &str) -> (r: JsonValue)
    ensures
        r.data() == JsonData::Str(s@),
{
    JsonValue::String(s.to_owned())
}

/// An integer value.
pub fn jint(i: i64) -> (r: JsonValue)
    ensures
        r.data() == int_data(i),
{
    if i >= 0 {
        JsonValue::Number(JsonNumber::PosInt(i as u64))
    } else {
        JsonValue::Number(JsonNumber::NegInt(i))
    }
}

/// An object member.
pub fn member(key: &str, value: JsonValue) -> (r: (String, JsonValue))
    ensures
        r.0@ == key@,
        r.1 == value,
{
    (key.to_owned(), value)
}

#[verifier::external_type_specification]
#[verifier::external_body]
pub struct ExSerdeValue(Value);

/// A `serde_json` value as the library's, member for member; a number as
/// an unsigned integer where it is one, else a signed one, else its text.
#[verifier::external_body]
pub(crate) fn from_serde(v: &Value) -> (r: JsonValue) {
    match v {
        Value::Null => JsonValue::Null,
        Value::Bool(b) => JsonValue::Bool(*b),
        Value::Number(n) => JsonValue::Number(match (n.as_u64(), n.as_i64()) {
            (Some(u), _) => JsonNumber::PosInt(u),
            (None, Some(i)) => JsonNumber::NegInt(i),
            (None, None) => JsonNumber::Float(n.to_string()),
        }),
        Value::String(t) => JsonValue::String(t.clone()),
        Value::Array(a) => JsonValue::Array(a.iter().map(from_serde).collect()),
        Value::Object(m) => JsonValue::Object(m.iter().map(|(k, x)| (k.clone(), from_serde(x))).collect()),
    }
}

/// The library's JSON value as `serde_json`'s, member for member; a number
/// kept as text is read back with `serde_json::from_str`, null where that
/// fails.
#[verifier::external_body]
pub(crate) fn to_serde(v: &JsonValue) -> (r: Value) {
    match v {
        JsonValue::Null => Value::Null,
        JsonValue::Bool(b) => Value::Bool(*b),
        JsonValue::Number(JsonNumber::PosInt(u)) => Value::from(*u),
        JsonValue::Number(JsonNumber::NegInt(i)) => Value::from(*i),
        JsonValue::Number(JsonNumber::Float(t)) => serde_json::from_str(t).unwrap_or(Value::Null),
        JsonValue::String(t) => Value::String(t.clone()),
        JsonValue::Array(a) => Value::Array(a.iter().map(to_serde).collect()),
        JsonValue::Object(m) => Value::Object(m.iter().map(|(k, x)| (k.clone(), to_serde(x))).collect()),
    }
}

/// The value `serde_json::from_slice` reads from a message body, if it
/// reads one.
pub uninterp spec fn json_of(bytes: Seq<u8>) -> Option<JsonData>;

/// Reads a message body with `serde_json::from_slice`; the result is named
/// `json_of`.
pub fn parse_json(payload: &[u8]) -> (r: Option<JsonValue>)
    ensures
        match r {
            Some(v) => json_of(payload@) == Some(v.data()),
            None => json_of(payload@) is None,
        },
{
    parse_json_bytes(payload)
}

#[verifier::external_body]
fn parse_json_bytes(payload: &[u8]) -> (r: Option<JsonValue>)
    ensures
        match r {
            Some(v) => json_of(payload@) == Some(v.data()),
            None => json_of(payload@) is None,
        },
{
    serde_json::from_slice::<Value>(payload).ok().map(|v| from_serde(&v))
}

/// The compact text `serde_json::to_vec` writes for a value.
pub uninterp spec fn json_text(v: JsonData) -> Seq<u8>;

/// Writes a value as compact JSON text with `serde_json::to_vec`; the result
/// is named `json_text`.
#[verifier::external_body]
pub(crate) fn json_bytes(v: &JsonValue) -> (r: Vec<u8>)
    ensures
        r@ == json_text(v.data()),
{
    serde_json::to_vec(&to_serde(v)).unwrap_or_default()
}

} // verus!
