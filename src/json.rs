//! A JSON document as plain values, lenient path resolution through it, and
//! coercion of a resolved value into a typed output value.

use vstd::prelude::*;
use crate::text::split_on;

verus! {

#[verifier::external_type_specification]
#[verifier::external_body]
pub struct ExNumber(serde_json::Number);

#[verifier::external_type_specification]
#[verifier::external_body]
pub struct ExValue(serde_json::Value);

/// serde_json::Number derives `Clone`: the copy is the same number.
pub assume_specification[ <serde_json::Number as Clone>::clone ](n: &serde_json::Number) -> (r:
    serde_json::Number)
    ensures
        r == *n,
;

/// A parsed JSON document. Object members are kept in the order the parser
/// gives them; a member lookup takes the first member with the key (a
/// document from `JsonValue::parse` holds each key once).
#[derive(Debug)]
pub enum JsonValue {
    Null,
    Bool(bool),
    Number(serde_json::Number),
    Str(String),
    Array(Vec<JsonValue>),
    Object(Vec<(String, JsonValue)>),
}

/// What a value turns into in an output record.
#[derive(Debug)]
pub enum TypedValue {
    Boolean(bool),
    /// Any JSON number; the sink reads it as a floating-point value.
    Float(serde_json::Number),
    Text(String),
}

/// The document that a JSON parser reads from `bytes`, if they hold one.
pub uninterp spec fn json_document(bytes: Seq<u8>) -> Option<JsonValue>;

/// The canonical JSON text of a value.
pub uninterp spec fn json_text(v: JsonValue) -> Seq<char>;

/// Rebuilds a serde_json value as a `JsonValue`, variant for variant.
#[verifier::external_body]
fn from_serde(v: &serde_json::Value) -> JsonValue {
    match v {
        serde_json::Value::Null => JsonValue::Null,
        serde_json::Value::Bool(b) => JsonValue::Bool(*b),
        serde_json::Value::Number(n) => JsonValue::Number(n.clone()),
        serde_json::Value::String(s) => JsonValue::Str(s.clone()),
        serde_json::Value::Array(a) => JsonValue::Array(a.iter().map(from_serde).collect()),
        serde_json::Value::Object(o) => JsonValue::Object(
            o.iter().map(|(k, x)| (k.clone(), from_serde(x))).collect(),
        ),
    }
}

/// Rebuilds a `JsonValue` as a serde_json value, variant for variant.
#[verifier::external_body]
fn to_serde(v: &JsonValue) -> serde_json::Value {
    match v {
        JsonValue::Null => serde_json::Value::Null,
        JsonValue::Bool(b) => serde_json::Value::Bool(*b),
        JsonValue::Number(n) => serde_json::Value::Number(n.clone()),
        JsonValue::Str(s) => serde_json::Value::String(s.clone()),
        JsonValue::Array(a) => serde_json::Value::Array(a.iter().map(to_serde).collect()),
        JsonValue::Object(o) => serde_json::Value::Object(
            o.iter().map(|(k, x)| (k.clone(), to_serde(x))).collect(),
        ),
    }
}

/// Relies on serde_json::from_slice into serde_json::Value: the result
/// depends on the bytes alone.
#[verifier::external_body]
fn parse_document(bytes: &[u8]) -> (r: Option<JsonValue>)
    ensures
        r == json_document(bytes@),
{
    serde_json::from_slice::<serde_json::Value>(bytes).ok().as_ref().map(from_serde)
}

/// Relies on serde_json::to_string of a serde_json::Value: the compact JSON
/// text, which depends on the value alone. Serialising a Value has no
/// failing case (its map keys are strings).
#[verifier::external_body]
fn encode_document(v: &JsonValue) -> (r: String)
    ensures
        r@ == json_text(*v),
{
    serde_json::to_string(&to_serde(v)).unwrap_or_default()
}

impl JsonValue {
    /// Parses a JSON document from bytes; `None` where they hold none.
    pub fn parse(bytes: &[u8]) -> (r: Option<JsonValue>)
        ensures
            r == json_document(bytes@),
    {
        parse_document(bytes)
    }

    /// The canonical (compact) JSON text of this value.
    pub fn to_json_text(&self) -> (r: String)
        ensures
            r@ == json_text(*self),
    {
        encode_document(self)
    }
}

/// The digits of an index text: without its optional leading `+`.
pub open spec fn index_digits(p: Seq<char>) -> Seq<char> {
    if p.len() > 0 && p[0] == '+' {
        p.drop_first()
    } else {
        p
    }
}

pub open spec fn is_digits(s: Seq<char>) -> bool {
    s.len() > 0 && forall|i: int| 0 <= i < s.len() ==> '0' <= #[trigger] s[i] <= '9'
}

/// The decimal value of a digit sequence.
pub open spec fn decimal_value(s: Seq<char>) -> int
    decreases s.len(),
{
    if s.len() == 0 {
        0
    } else {
        decimal_value(s.drop_last()) * 10 + (s.last() as int - '0' as int)
    }
}

/// The array index that a path segment names: an optional `+`, then one or
/// more decimal digits whose value fits in `usize`.
pub open spec fn index_of_segment(p: Seq<char>) -> Option<usize> {
    let d = index_digits(p);
    if is_digits(d) && decimal_value(d) <= usize::MAX {
        Some(decimal_value(d) as usize)
    } else {
        None
    }
}

/// Relies on `usize`'s `FromStr`: it accepts an optional `+` followed by
/// ASCII digits, and rejects anything else and any value that overflows.
#[verifier::external_body]
fn parse_usize(p: &str) -> (r: Option<usize>)
    ensures
        r == index_of_segment(p@),
{
    p.parse::<usize>().ok()
}

/// Whether some member of `o` has key `k`.
pub open spec fn has_member(o: Seq<(String, JsonValue)>, k: Seq<char>) -> bool {
    exists|j: int| 0 <= j < o.len() && (#[trigger] o[j]).0@ == k
}

/// The position of the first member of `o` with key `k`.
pub open spec fn first_member(o: Seq<(String, JsonValue)>, k: Seq<char>) -> int {
    choose|j: int|
        0 <= j < o.len() && (#[trigger] o[j]).0@ == k && forall|l: int|
            0 <= l < j ==> (#[trigger] o[l]).0@ != k
}

/// The value of member `k` of an object, if it has one.
pub open spec fn member(o: Seq<(String, JsonValue)>, k: Seq<char>) -> Option<JsonValue> {
    if has_member(o, k) {
        Some(o[first_member(o, k)].1)
    } else {
        None
    }
}

/// One step of path resolution: descend into `cur` by segment `p` where
/// that names an element or member of it, else stay at `cur`. An empty
/// segment names nothing.
pub open spec fn step(cur: JsonValue, p: Seq<char>) -> JsonValue {
    match cur {
        JsonValue::Array(a) => match index_of_segment(p) {
            Some(i) => if i < a@.len() {
                a@[i as int]
            } else {
                cur
            },
            None => cur,
        },
        JsonValue::Object(o) => if p.len() == 0 {
            cur
        } else {
            match member(o@, p) {
                Some(v) => v,
                None => cur,
            }
        },
        _ => cur,
    }
}

/// The value that `segments` lead to from `root`, each segment applied in
/// turn; a segment that cannot be applied leaves the value where it is.
pub open spec fn resolve_spec(root: JsonValue, segments: Seq<Seq<char>>) -> JsonValue
    decreases segments.len(),
{
    if segments.len() == 0 {
        root
    } else {
        step(resolve_spec(root, segments.drop_last()), segments.last())
    }
}

/// The value of member `key` of the object with members `o`.
pub fn get_member<'a>(o: &'a Vec<(String, JsonValue)>, key: &str) -> (r: Option<&'a JsonValue>)
    ensures
        match member(o@, key@) {
            Some(v) => r is Some && *r->0 == v,
            None => r is None,
        },
{
    let k = key.to_owned();
    let mut j: usize = 0;
    while j < o.len()
        invariant
            k@ == key@,
            j <= o@.len(),
            forall|l: int| 0 <= l < j ==> (#[trigger] o@[l]).0@ != key@,
        decreases o.len() - j,
    {
        let pair = &o[j];
        if pair.0 == k {
            proof {
                assert(o@[j as int].0@ == key@);
                assert(has_member(o@, key@));
                let f = first_member(o@, key@);
                assert(0 <= f < o@.len());
                if j < f {
                    assert(o@[j as int].0@ == key@);
                }
                assert(f == j);
            }
            return Some(&pair.1);
        }
        j = j + 1;
    }
    None
}

/// Takes one resolution step from `cur` by segment `p`.
pub fn step_into<'a>(cur: &'a JsonValue, p: &str) -> (r: &'a JsonValue)
    ensures
        *r == step(*cur, p@),
{
    match cur {
        JsonValue::Array(a) => match parse_usize(p) {
            Some(i) => if i < a.len() {
                &a[i]
            } else {
                cur
            },
            None => cur,
        },
        JsonValue::Object(o) => if p.is_empty() {
            cur
        } else {
            match get_member(o, p) {
                Some(v) => v,
                None => cur,
            }
        },
        _ => cur,
    }
}

/// Resolves `segments` from `root`; never fails: a segment that names no
/// element or member is skipped.
pub fn resolve<'a>(root: &'a JsonValue, segments: &Vec<String>) -> (r: &'a JsonValue)
    ensures
        *r == resolve_spec(*root, segments@.map_values(|s: String| s@)),
{
    let ghost segs = segments@.map_values(|s: String| s@);
    let mut cur = root;
    let mut i: usize = 0;
    while i < segments.len()
        invariant
            i <= segments@.len(),
            segs == segments@.map_values(|s: String| s@),
            *cur == resolve_spec(*root, segs.subrange(0, i as int)),
        decreases segments.len() - i,
    {
        proof {
            assert(segs.subrange(0, i + 1).drop_last() =~= segs.subrange(0, i as int));
        }
        cur = step_into(cur, segments[i].as_str());
        i = i + 1;
    }
    proof {
        assert(segs.subrange(0, i as int) =~= segs);
    }
    cur
}

/// Resolves a dotted path from `root`: the path is split at every `.`.
pub fn resolve_path<'a>(root: &'a JsonValue, path: &str) -> (r: &'a JsonValue)
    ensures
        *r == resolve_spec(*root, split_on(path@, '.')),
{
    let segments = crate::text::split_string(path, '.');
    resolve(root, &segments)
}

/// What a JSON value coerces into: booleans stay booleans, numbers become
/// floats, strings stay strings, arrays and objects become their canonical
/// JSON text, and `null` has no typed value.
pub open spec fn coerced(v: JsonValue, r: Option<TypedValue>) -> bool {
    match v {
        JsonValue::Null => r is None,
        JsonValue::Bool(b) => r == Some(TypedValue::Boolean(b)),
        JsonValue::Number(n) => r == Some(TypedValue::Float(n)),
        JsonValue::Str(s) => r == Some(TypedValue::Text(s)),
        JsonValue::Array(_) | JsonValue::Object(_) => match r {
            Some(TypedValue::Text(t)) => t@ == json_text(v),
            _ => false,
        },
    }
}

/// Coerces a JSON value into a typed value; `None` for `null`, which has
/// no typed representation.
pub fn coerce(v: &JsonValue) -> (r: Option<TypedValue>)
    ensures
        coerced(*v, r),
{
    match v {
        JsonValue::Null => None,
        JsonValue::Bool(b) => Some(TypedValue::Boolean(*b)),
        JsonValue::Number(n) => Some(TypedValue::Float(n.clone())),
        JsonValue::Str(s) => Some(TypedValue::Text(s.clone())),
        JsonValue::Array(_) | JsonValue::Object(_) => Some(TypedValue::Text(v.to_json_text())),
    }
}

} // verus!
