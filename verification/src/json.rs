//! JSON values of `serde_json`, seen as trees.

use vstd::prelude::*;
use vstd::utf8::encode_utf8;

verus! {

/// A JSON value, written out.
pub enum Json {
    Null,
    Bool(bool),
    /// A number held as `u64` or `i64`.
    Integer(int),
    /// A number held as `f64`, by its bits.
    Float(u64),
    String(Seq<char>),
    Array(Seq<Json>),
    Object(Map<Seq<char>, Json>),
}

impl Json {
    /// The value of a field, if this is an object that has it.
    pub open spec fn get(self, key: Seq<char>) -> Option<Json> {
        match self {
            Json::Object(fields) => if fields.dom().contains(key) {
                Some(fields[key])
            } else {
                None
            },
            _ => None,
        }
    }

    /// The characters, if this is a string.
    pub open spec fn as_str(self) -> Option<Seq<char>> {
        match self {
            Json::String(s) => Some(s),
            _ => None,
        }
    }
}

/// How deep `serde_json` reads: arrays and objects within each other.
pub const MAX_DEPTH: usize = 127;

/// Arrays and objects stand in `t` at most `n` within each other.
pub open spec fn nests(t: Json, n: nat) -> bool
    decreases n,
{
    match t {
        Json::Array(items) => n > 0 && forall|i: int|
            0 <= i < items.len() ==> nests(#[trigger] items[i], (n - 1) as nat),
        Json::Object(fields) => n > 0 && forall|k: Seq<char>| #[trigger]
            fields.dom().contains(k) ==> nests(fields[k], (n - 1) as nat),
        _ => true,
    }
}

/// A number held as `f64` is smaller than 2 to the power of 1000, whatever its sign.
pub open spec fn moderate(bits: u64) -> bool {
    (bits as nat / 0x10_0000_0000_0000) % 2048 < 2023
}

/// All numbers in `t` that are held as `f64` are [`moderate`], to depth `n`.
pub open spec fn all_moderate(t: Json, n: nat) -> bool
    decreases n,
{
    match t {
        Json::Float(bits) => moderate(bits),
        Json::Array(items) => n > 0 && forall|i: int|
            0 <= i < items.len() ==> all_moderate(#[trigger] items[i], (n - 1) as nat),
        Json::Object(fields) => n > 0 && forall|k: Seq<char>| #[trigger]
            fields.dom().contains(k) ==> all_moderate(fields[k], (n - 1) as nat),
        _ => true,
    }
}

/// To depth `n`, `a` and `b` are the same but for how numbers held as `f64` are
/// rounded.
pub open spec fn alike(a: Json, b: Json, n: nat) -> bool
    decreases n,
{
    match (a, b) {
        (Json::Float(_), Json::Float(_)) => true,
        (Json::Array(x), Json::Array(y)) => {
            &&& n > 0
            &&& x.len() == y.len()
            &&& forall|i: int|
                0 <= i < x.len() ==> alike(#[trigger] x[i], y[i], (n - 1) as nat)
        },
        (Json::Object(x), Json::Object(y)) => {
            &&& n > 0
            &&& x.dom() == y.dom()
            &&& forall|k: Seq<char>| #[trigger]
                x.dom().contains(k) ==> alike(x[k], y[k], (n - 1) as nat)
        },
        _ => a == b,
    }
}

/// To depth `n`, no number in `t` is held as `f64`.
pub open spec fn float_free(t: Json, n: nat) -> bool
    decreases n,
{
    match t {
        Json::Float(_) => false,
        Json::Array(items) => n > 0 && forall|i: int|
            0 <= i < items.len() ==> float_free(#[trigger] items[i], (n - 1) as nat),
        Json::Object(fields) => n > 0 && forall|k: Seq<char>| #[trigger]
            fields.dom().contains(k) ==> float_free(fields[k], (n - 1) as nat),
        _ => true,
    }
}

/// Without numbers held as `f64`, what is alike is the same.
pub proof fn lemma_alike_without_floats(a: Json, b: Json, n: nat)
    requires
        alike(a, b, n),
        float_free(b, n),
    ensures
        a == b,
    decreases n,
{
    match (a, b) {
        (Json::Array(x), Json::Array(y)) => {
            assert forall|i: int| 0 <= i < x.len() implies x[i] == y[i] by {
                lemma_alike_without_floats(x[i], y[i], (n - 1) as nat);
            }
            assert(x =~= y);
        },
        (Json::Object(x), Json::Object(y)) => {
            assert forall|k: Seq<char>| x.dom().contains(k) implies x[k] == y[k] by {
                assert(y.dom().contains(k));
                lemma_alike_without_floats(x[k], y[k], (n - 1) as nat);
            }
            assert(x =~= y);
        },
        _ => {},
    }
}

/// Without numbers held as `f64`, none is immoderate.
pub proof fn lemma_float_free_is_moderate(t: Json, n: nat)
    requires
        float_free(t, n),
    ensures
        nests(t, n),
        all_moderate(t, n),
    decreases n,
{
    match t {
        Json::Array(items) => {
            assert forall|i: int| 0 <= i < items.len() implies nests(
                #[trigger] items[i],
                (n - 1) as nat,
            ) && all_moderate(items[i], (n - 1) as nat) by {
                lemma_float_free_is_moderate(items[i], (n - 1) as nat);
            }
        },
        Json::Object(fields) => {
            assert forall|k: Seq<char>| #[trigger] fields.dom().contains(k) implies nests(
                fields[k],
                (n - 1) as nat,
            ) && all_moderate(fields[k], (n - 1) as nat) by {
                lemma_float_free_is_moderate(fields[k], (n - 1) as nat);
            }
        },
        _ => {},
    }
}

/// `serde_json::Value`.
#[verifier::external_type_specification]
#[verifier::external_body]
pub struct ExJsonValue(serde_json::Value);

/// `serde_json::Map`.
#[verifier::external_type_specification]
#[verifier::external_body]
#[verifier::reject_recursive_types(K)]
#[verifier::reject_recursive_types(V)]
pub struct ExJsonMap<K, V>(serde_json::Map<K, V>);

/// What a `serde_json::Value` holds.
pub uninterp spec fn json_content(v: serde_json::Value) -> Json;

/// What a `serde_json::Map` holds.
pub uninterp spec fn json_fields(m: serde_json::Map<String, serde_json::Value>) -> Map<Seq<char>, Json>;

/// What `serde_json::from_slice` makes of a text: a value, or what is wrong with it.
pub uninterp spec fn json_read(bytes: Seq<u8>) -> Result<Json, Seq<char>>;

/// The text that `serde_json::to_vec` writes for a value.
pub uninterp spec fn json_bytes(t: Json) -> Seq<u8>;

/// The text that `serde_json::Value` is displayed as.
pub uninterp spec fn json_text(t: Json) -> Seq<char>;

/// `serde_json::from_slice`, asked for a `serde_json::Value`, with the error as the
/// text that it is displayed as. The result is named [`json_read`]: it depends on the
/// bytes alone. A value that was read nests no deeper than the reader allows.
#[verifier::external_body]
pub(crate) fn json_from_slice(bytes: &[u8]) -> (r: Result<serde_json::Value, String>)
    ensures
        match r {
            Ok(v) => {
                &&& json_read(bytes@) == Ok::<Json, Seq<char>>(json_content(v))
                &&& nests(json_content(v), MAX_DEPTH as nat)
            },
            Err(message) => json_read(bytes@) == Err::<Json, Seq<char>>(message@),
        },
{
    serde_json::from_slice(bytes).map_err(|e: serde_json::Error| e.to_string())
}

/// `serde_json::Value::get` with a string: the value of a field of an object.
#[verifier::external_body]
pub(crate) fn json_get<'a>(v: &'a serde_json::Value, key: &str) -> (r: Option<&'a serde_json::Value>)
    ensures
        match r {
            Some(field) => json_content(*v).get(key@) == Some(json_content(*field)),
            None => json_content(*v).get(key@) is None,
        },
{
    v.get(key)
}

/// `serde_json::Value::as_str`: the characters of a string.
#[verifier::external_body]
pub(crate) fn json_as_str(v: &serde_json::Value) -> (r: Option<&str>)
    ensures
        match r {
            Some(s) => json_content(*v).as_str() == Some(s@),
            None => json_content(*v).as_str() is None,
        },
{
    v.as_str()
}

/// `serde_json::Value::as_object_mut`: access to the fields of an object, and none to
/// another value.
#[verifier::external_body]
pub(crate) fn json_as_object_mut(v: &mut serde_json::Value) -> (r: Option<
    &mut serde_json::Map<String, serde_json::Value>,
>)
    ensures
        match r {
            Some(m) => {
                &&& json_content(*old(v)) == Json::Object(json_fields(*m))
                &&& json_content(*final(v)) == Json::Object(json_fields(*final(m)))
            },
            None => {
                &&& !(json_content(*old(v)) is Object)
                &&& json_content(*final(v)) == json_content(*old(v))
            },
        },
{
    v.as_object_mut()
}

/// `serde_json::Map::new`: no fields.
#[verifier::external_body]
pub(crate) fn json_map() -> (r: serde_json::Map<String, serde_json::Value>)
    ensures
        json_fields(r).dom() == Set::<Seq<char>>::empty(),
{
    serde_json::Map::new()
}

/// `serde_json::Map::insert`: gives a field a value, in the place of the one that it
/// had.
#[verifier::external_body]
pub(crate) fn json_insert(
    m: &mut serde_json::Map<String, serde_json::Value>,
    key: String,
    value: serde_json::Value,
)
    ensures
        json_fields(*final(m)) == json_fields(*old(m)).insert(key@, json_content(value)),
{
    m.insert(key, value);
}

/// `serde_json::Value::from` on a string.
#[verifier::external_body]
pub(crate) fn json_string(s: String) -> (r: serde_json::Value)
    ensures
        json_content(r) == Json::String(s@),
{
    serde_json::Value::from(s)
}

/// `serde_json::Value::from` on a `u64`.
#[verifier::external_body]
pub(crate) fn json_number(n: u64) -> (r: serde_json::Value)
    ensures
        json_content(r) == Json::Integer(n as int),
{
    serde_json::Value::from(n)
}

/// `serde_json::Value::from` on a vector of values.
#[verifier::external_body]
pub(crate) fn json_array(items: Vec<serde_json::Value>) -> (r: serde_json::Value)
    ensures
        json_content(r) == Json::Array(
            Seq::new(items@.len(), |i: int| json_content(items@[i])),
        ),
{
    serde_json::Value::from(items)
}

/// `serde_json::Value::from` on a map.
#[verifier::external_body]
pub(crate) fn json_object(m: serde_json::Map<String, serde_json::Value>) -> (r: serde_json::Value)
    ensures
        json_content(r) == Json::Object(json_fields(m)),
{
    serde_json::Value::from(m)
}

/// `serde_json::to_vec`, on a `serde_json::Value`, which it always has a text for.
/// The text is named [`json_bytes`]: it depends on what the value holds alone. It
/// reads as what was written but for how numbers held as `f64` are rounded, and it
/// does read where the value nests no deeper than the reader allows and its numbers
/// are moderate. Nothing is claimed of whether a number near the largest `f64` reads.
#[verifier::external_body]
pub(crate) fn json_to_vec(v: &serde_json::Value) -> (r: Option<Vec<u8>>)
    ensures
        r is Some,
        r->0@ == json_bytes(json_content(*v)),
        json_read(r->0@) matches Ok(back) ==> alike(back, json_content(*v), MAX_DEPTH as nat),
        nests(json_content(*v), MAX_DEPTH as nat) && all_moderate(
            json_content(*v),
            MAX_DEPTH as nat,
        ) ==> json_read(r->0@) is Ok,
{
    serde_json::to_vec(v).ok()
}

/// `serde_json::Value::to_string`. The text is named [`json_text`]: it depends on what
/// the value holds alone. What is claimed of reading it is what [`json_to_vec`] claims.
#[verifier::external_body]
pub(crate) fn json_to_string(v: &serde_json::Value) -> (r: String)
    ensures
        r@ == json_text(json_content(*v)),
        json_read(encode_utf8(r@)) matches Ok(back) ==> alike(
            back,
            json_content(*v),
            MAX_DEPTH as nat,
        ),
        nests(json_content(*v), MAX_DEPTH as nat) && all_moderate(
            json_content(*v),
            MAX_DEPTH as nat,
        ) ==> json_read(encode_utf8(r@)) is Ok,
{
    v.to_string()
}

} // verus!
