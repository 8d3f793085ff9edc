//! JSON values: `serde_json`'s, and what they hold.
use serde_json::Value;
use vstd::prelude::*;

verus! {

/// What a JSON value holds.
#[verifier::ext_equal]
pub enum Json {
    /// Nothing.
    Null,
    /// A truth value.
    Bool(bool),
    /// A number without fraction or exponent, from the least of `i64` to the
    /// greatest of `u64`.
    Integer(int),
    /// Another number, as it is printed.
    Fraction(Seq<char>),
    /// A string.
    Text(Seq<char>),
    /// An array.
    List(Seq<Json>),
    /// An object.
    Object(Map<Seq<char>, Json>),
}

/// `serde_json::Value`.
#[verifier::external_type_specification]
#[verifier::external_body]
pub struct ExValue(serde_json::Value);

/// What a value holds.
pub uninterp spec fn json(value: Value) -> Json;

/// An object's fields: of two under one name the later counts.
pub open spec fn fields(s: Seq<(Seq<char>, Json)>) -> Map<Seq<char>, Json>
    decreases s.len(),
{
    if s.len() == 0 {
        Map::empty()
    } else {
        fields(s.drop_last()).insert(s.last().0, s.last().1)
    }
}

/// No two fields have one name.
pub open spec fn have_distinct_names(s: Seq<(Seq<char>, Json)>) -> bool {
    forall|i: int, j: int|
        #![trigger s[i], s[j]]
        0 <= i < j < s.len() ==> s[i].0 != s[j].0
}

/// What an object holds under a name.
pub open spec fn member(j: Json, name: Seq<char>) -> Option<Json> {
    match j {
        Json::Object(m) => if m.contains_key(name) {
            Some(m[name])
        } else {
            None
        },
        _ => None,
    }
}

/// An object of fields with distinct names holds each of them under its name, and
/// nothing under any other.
pub proof fn law_an_object_holds_its_fields(s: Seq<(Seq<char>, Json)>)
    requires
        have_distinct_names(s),
    ensures
        forall|i: int|
            0 <= i < s.len() ==> member(object_of(s), (#[trigger] s[i]).0) == Some(s[i].1),
        forall|name: Seq<char>| #[trigger]
            member(object_of(s), name) is Some ==> exists|i: int|
                0 <= i < s.len() && (#[trigger] s[i]).0 == name,
    decreases s.len(),
{
    if s.len() > 0 {
        let t = s.drop_last();
        assert forall|i: int, j: int|
            #![trigger t[i], t[j]]
            0 <= i < j < t.len() implies t[i].0 != t[j].0 by {
            assert(t[i] == s[i] && t[j] == s[j]);
        }
        law_an_object_holds_its_fields(t);
        assert(s[s.len() - 1] == s.last());
        assert forall|i: int| 0 <= i < s.len() implies member(object_of(s), (#[trigger] s[i]).0)
            == Some(s[i].1) by {
            if i < s.len() - 1 {
                assert(t[i] == s[i]);
                assert(s[i].0 != s[s.len() - 1].0);
                assert(member(object_of(t), t[i].0) == Some(t[i].1));
            }
        }
        assert forall|name: Seq<char>| #[trigger] member(object_of(s), name) is Some implies exists|
            i: int,
        |
            0 <= i < s.len() && (#[trigger] s[i]).0 == name by {
            if name != s.last().0 {
                assert(member(object_of(t), name) is Some);
                let i = choose|i: int| 0 <= i < t.len() && (#[trigger] t[i]).0 == name;
                assert(s[i].0 == name);
            }
        }
    }
}

/// An object with these fields.
pub open spec fn object_of(s: Seq<(Seq<char>, Json)>) -> Json {
    Json::Object(fields(s))
}

/// The object without fields.
pub open spec fn empty_object() -> Json {
    object_of(Seq::empty())
}

/// What values hold.
pub open spec fn jsons(s: Seq<Value>) -> Seq<Json> {
    s.map_values(|v: Value| json(v))
}

/// What named values hold.
pub open spec fn named(s: Seq<(&str, Value)>) -> Seq<(Seq<char>, Json)> {
    s.map_values(|e: (&str, Value)| (e.0@, json(e.1)))
}

/// No number has a fraction, and lists and objects are nested no deeper than
/// `n`.
pub open spec fn is_plain(j: Json, n: nat) -> bool
    decreases n,
{
    match j {
        Json::Fraction(_) => false,
        Json::List(s) => n > 0 && forall|i: int|
            0 <= i < s.len() ==> is_plain(#[trigger] s[i], (n - 1) as nat),
        Json::Object(m) => n > 0 && forall|k: Seq<char>| #[trigger]
            m.contains_key(k) ==> is_plain(m[k], (n - 1) as nat),
        _ => true,
    }
}

/// How deep a text may nest lists and objects for `serde_json` to read it.
pub open spec fn depth_limit() -> nat {
    127
}

/// What `serde_json::from_slice` reads from bytes as a value, or the error's
/// text.
pub uninterp spec fn json_read(bytes: Seq<u8>) -> Result<Json, Seq<char>>;

/// What `serde_json::to_vec` writes for a value.
pub uninterp spec fn json_written(j: Json) -> Seq<u8>;

/// The null value, by `From<()>`.
#[verifier::external_body]
pub(crate) fn null() -> (r: Value)
    ensures
        json(r) == Json::Null,
{
    Value::from(())
}

/// A truth value, by `From<bool>`.
#[verifier::external_body]
pub(crate) fn truth(b: bool) -> (r: Value)
    ensures
        json(r) == Json::Bool(b),
{
    Value::from(b)
}

/// A number, by `From<u64>`.
#[verifier::external_body]
pub(crate) fn number(n: u64) -> (r: Value)
    ensures
        json(r) == Json::Integer(n as int),
{
    Value::from(n)
}

/// A number, by `From<i32>`.
#[verifier::external_body]
pub(crate) fn signed_number(n: i32) -> (r: Value)
    ensures
        json(r) == Json::Integer(n as int),
{
    Value::from(n)
}

/// A string, by `From<&str>`.
#[verifier::external_body]
pub(crate) fn string(s: &str) -> (r: Value)
    ensures
        json(r) == Json::Text(s@),
{
    Value::from(s)
}

/// An array, by `From<Vec<Value>>`.
#[verifier::external_body]
pub(crate) fn list(items: Vec<Value>) -> (r: Value)
    ensures
        json(r) == Json::List(jsons(items@)),
{
    Value::from(items)
}

/// An object, by `FromIterator<(&str, Value)>`. Of two fields of one name the
/// later counts.
#[verifier::external_body]
pub(crate) fn object(entries: Vec<(&str, Value)>) -> (r: Value)
    ensures
        json(r) == object_of(named(entries@)),
{
    Value::from_iter(entries)
}

/// A copy, by `Value::clone`.
#[verifier::external_body]
pub(crate) fn copy(value: &Value) -> (r: Value)
    ensures
        json(r) == json(*value),
{
    value.clone()
}

/// A field of an object, by `Value::get`; none of a value that is no object.
#[verifier::external_body]
pub(crate) fn get<'a>(value: &'a Value, name: &str) -> (r: Option<&'a Value>)
    ensures
        match r {
            Some(v) => json(*value) matches Json::Object(m) && m.contains_key(name@) && json(*v)
                == m[name@],
            None => !(json(*value) matches Json::Object(m) && m.contains_key(name@)),
        },
{
    value.get(name)
}

/// `Value::as_str` gives the text of a string, and nothing of another value.
pub assume_specification[ serde_json::Value::as_str ](v: &serde_json::Value) -> (r: Option<&str>)
    ensures
        match r {
            Some(s) => json(*v) == Json::Text(s@),
            None => !(json(*v) is Text),
        },
;

/// `Value::as_u64` gives a number that is an unsigned 64-bit integer, and
/// nothing of another value.
pub assume_specification[ serde_json::Value::as_u64 ](v: &serde_json::Value) -> (r: Option<u64>)
    ensures
        match r {
            Some(n) => json(*v) == Json::Integer(n as int),
            None => !(json(*v) matches Json::Integer(n) && 0 <= n <= u64::MAX),
        },
;

/// `Value::as_array` gives the items of an array, and nothing of another value.
pub assume_specification[ serde_json::Value::as_array ](v: &serde_json::Value) -> (r: Option<
    &Vec<serde_json::Value>,
>)
    ensures
        match r {
            Some(items) => json(*v) == Json::List(jsons(items@)),
            None => !(json(*v) is List),
        },
;

/// Read a value from bytes with `serde_json::from_slice`. Claimed: what it
/// holds, or the error's text, is a function of the bytes.
#[verifier::external_body]
pub(crate) fn read(bytes: &[u8]) -> (r: Result<Value, String>)
    ensures
        match r {
            Ok(v) => json_read(bytes@) == Ok::<Json, Seq<char>>(json(v)),
            Err(e) => json_read(bytes@) == Err::<Json, Seq<char>>(e@),
        },
{
    serde_json::from_slice(bytes).map_err(|e| e.to_string())
}

/// Write a value with `serde_json::to_vec`. Claimed: the bytes are a function of
/// what the value holds, and writing does not fail; and a value without
/// fractions that is not nested too deep is read back from them.
#[verifier::external_body]
pub(crate) fn write(value: &Value) -> (r: Result<Vec<u8>, String>)
    ensures
        r is Ok,
        r matches Ok(bytes) ==> bytes@ == json_written(json(*value)),
        r matches Ok(bytes) ==> (is_plain(json(*value), depth_limit()) ==> json_read(bytes@)
            == Ok::<Json, Seq<char>>(json(*value))),
{
    serde_json::to_vec(value).map_err(|e| e.to_string())
}

} // verus!
