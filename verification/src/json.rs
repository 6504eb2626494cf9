//! JSON trees of `serde_json`, seen as mathematical trees.
use serde::de::Unexpected;
use serde_json::Value as JsonValue;
use vstd::prelude::*;
use vstd::utf8::encode_utf8;

use crate::scalar::Real;
use crate::text::same_text;

verus! {

/// A JSON tree. The fields of an object keep the order in which they were written.
pub enum JsonView {
    Null,
    Bool(bool),
    /// A whole number from zero on.
    Unsigned(u64),
    /// A whole number below zero.
    Negative(i64),
    /// A finite number that is written with a fraction or an exponent.
    Real(Real),
    Text(Seq<char>),
    Array(Seq<JsonView>),
    Object(Seq<(Seq<char>, JsonView)>),
}

/// `serde_json::Value`, which only `serde_json` looks into.
#[verifier::external_type_specification]
#[verifier::external_body]
pub struct ExJson(JsonValue);

/// What a `serde_json::Value` holds.
pub uninterp spec fn json_tree(v: JsonValue) -> JsonView;

/// What each of several `serde_json::Value`s holds.
pub open spec fn json_trees(s: Seq<JsonValue>) -> Seq<JsonView> {
    Seq::new(s.len(), |i: int| json_tree(s[i]))
}

/// What `serde_json` makes of each field of an object.
pub open spec fn json_fields(s: Seq<(String, JsonValue)>) -> Seq<(Seq<char>, JsonView)> {
    Seq::new(s.len(), |i: int| (s[i].0@, json_tree(s[i].1)))
}

/// Where the field with this name stands; behind the last where there is none.
pub open spec fn field_at(fields: Seq<(Seq<char>, JsonView)>, name: Seq<char>) -> int
    decreases fields.len(),
{
    if fields.len() == 0 || fields[0].0 == name {
        0
    } else {
        1 + field_at(fields.drop_first(), name)
    }
}

/// Arrays and objects are nested no deeper than so many levels.
pub open spec fn depth_within(t: JsonView, levels: nat) -> bool
    decreases t,
{
    match t {
        JsonView::Array(items) => levels > 0 && forall|i: int|
            0 <= i < items.len() ==> depth_within(#[trigger] items[i], (levels - 1) as nat),
        JsonView::Object(fields) => levels > 0 && forall|i: int|
            0 <= i < fields.len() ==> depth_within(
                (#[trigger] fields[i]).1,
                (levels - 1) as nat,
            ),
        _ => true,
    }
}

/// The 64-bit floating point number nearest to a whole number.
pub uninterp spec fn real_of(n: int) -> Real;

/// The number in a JSON tree as a floating point number.
pub open spec fn real_in(t: JsonView) -> Option<Real> {
    match t {
        JsonView::Unsigned(n) => Some(real_of(n as int)),
        JsonView::Negative(n) => Some(real_of(n as int)),
        JsonView::Real(x) => Some(x),
        _ => None,
    }
}

/// The whole number in a JSON tree, where it is at least zero.
pub open spec fn unsigned_in(t: JsonView) -> Option<u64> {
    match t {
        JsonView::Unsigned(n) => Some(n),
        _ => None,
    }
}

/// The whole number in a JSON tree, where it fits a signed number.
pub open spec fn signed_in(t: JsonView) -> Option<i64> {
    match t {
        JsonView::Unsigned(n) => if n <= i64::MAX {
            Some(n as i64)
        } else {
            None
        },
        JsonView::Negative(n) => Some(n),
        _ => None,
    }
}

/// `serde_json::Value::is_null` tells the empty tree from others.
pub assume_specification[ JsonValue::is_null ](v: &JsonValue) -> (r: bool)
    ensures
        r == (json_tree(*v) is Null),
;

/// `serde_json::Value::as_bool` is the truth value, where the tree is one.
pub assume_specification[ JsonValue::as_bool ](v: &JsonValue) -> (r: Option<bool>)
    ensures
        match r {
            Some(b) => json_tree(*v) == JsonView::Bool(b),
            None => !(json_tree(*v) is Bool),
        },
;

/// `serde_json::Value::as_u64` is the whole number from zero on, where the tree is one.
pub assume_specification[ JsonValue::as_u64 ](v: &JsonValue) -> (r: Option<u64>)
    ensures
        r == unsigned_in(json_tree(*v)),
;

/// `serde_json::Value::as_i64` is the whole number, where the tree is one that fits 64 bits with
/// a sign.
pub assume_specification[ JsonValue::as_i64 ](v: &JsonValue) -> (r: Option<i64>)
    ensures
        r == signed_in(json_tree(*v)),
;

/// `serde_json::Value::as_array` gives the items, where the tree is an array.
pub assume_specification[ JsonValue::as_array ](v: &JsonValue) -> (r: Option<
    &Vec<JsonValue>,
>)
    ensures
        match r {
            Some(items) => json_tree(*v) == JsonView::Array(json_trees(items@)),
            None => !(json_tree(*v) is Array),
        },
;

/// `serde_json::Value::as_str` gives the text, where the tree is one.
pub assume_specification[ JsonValue::as_str ](v: &JsonValue) -> (r: Option<&str>)
    ensures
        match r {
            Some(s) => json_tree(*v) == JsonView::Text(s@),
            None => !(json_tree(*v) is Text),
        },
;

/// `serde_json::Value::as_f64` is the number, whole or not, where the tree is one.
#[verifier::external_body]
pub(crate) fn json_as_real(v: &JsonValue) -> (r: Option<Real>)
    ensures
        r == match json_tree(*v) {
            JsonView::Unsigned(n) => Some(real_of(n as int)),
            JsonView::Negative(n) => Some(real_of(n as int)),
            JsonView::Real(x) => Some(x),
            _ => None,
        },
{
    match v.as_f64() {
        Some(x) => Some(Real { bits: x.to_bits() }),
        None => None,
    }
}

/// What fields of an object hold, each with its name.
pub open spec fn entry_views(s: Seq<(&String, &JsonValue)>) -> Seq<(Seq<char>, JsonView)> {
    Seq::new(s.len(), |i: int| (s[i].0@, json_tree(*s[i].1)))
}

/// `serde_json::Value::as_object` gives the fields in their order, where the tree is an object.
#[verifier::external_body]
pub(crate) fn json_entries<'a>(v: &'a JsonValue) -> (r: Option<Vec<(&'a String, &'a JsonValue)>>)
    ensures
        match r {
            Some(entries) => json_tree(*v) == JsonView::Object(entry_views(entries@)),
            None => !(json_tree(*v) is Object),
        },
{
    match v.as_object() {
        Some(map) => Some(Vec::from_iter(map)),
        None => None,
    }
}

/// Where the field with this name stands; behind the last where there is none.
pub fn find_entry(entries: &Vec<(&String, &JsonValue)>, name: &str) -> (r: usize)
    ensures
        r == field_at(entry_views(entries@), name@),
        r <= entries.len(),
{
    let ghost all = entry_views(entries@);
    let mut i: usize = 0;
    assert(all.skip(0) =~= all);
    while i < entries.len()
        invariant
            i <= entries.len(),
            all == entry_views(entries@),
            field_at(all, name@) == i + field_at(all.skip(i as int), name@),
        decreases entries.len() - i,
    {
        assert(all.skip(i as int)[0] == all[i as int]);
        assert(all.skip(i as int).drop_first() =~= all.skip(i + 1));
        if same_text(entries[i].0.as_str(), name) {
            return i;
        }
        i = i + 1;
    }
    i
}

/// A field is found where it stands first, and behind the last where it does not stand.
pub proof fn fields_are_found(fields: Seq<(Seq<char>, JsonView)>, name: Seq<char>, at: int)
    requires
        0 <= at <= fields.len(),
        forall|i: int| 0 <= i < at ==> (#[trigger] fields[i]).0 != name,
        at < fields.len() ==> fields[at].0 == name,
    ensures
        field_at(fields, name) == at,
    decreases fields.len(),
{
    if at > 0 {
        assert(fields[0].0 != name);
        assert forall|i: int| 0 <= i < at - 1 implies (#[trigger] fields.drop_first()[i]).0
            != name by {
            assert(fields[i + 1].0 != name);
        }
        fields_are_found(fields.drop_first(), name, at - 1);
    }
}

/// Whole numbers are themselves, with or without a sign, where they fit; real numbers are
/// themselves where they are finite.
pub proof fn numbers_in_trees(n: u64, i: i64, x: Real)
    ensures
        unsigned_in(JsonView::Unsigned(n)) == Some(n),
        unsigned_in(JsonView::Negative(i)) == None::<u64>,
        n <= i64::MAX ==> (signed_in(JsonView::Unsigned(n)) matches Some(m) && m == n),
        n > i64::MAX ==> signed_in(JsonView::Unsigned(n)) == None::<i64>,
        signed_in(JsonView::Negative(i)) == Some(i),
        i >= 0 ==> (signed_tree(i) matches JsonView::Unsigned(m) && m == i),
        i < 0 ==> signed_tree(i) == JsonView::Negative(i),
        x.spec_is_finite() ==> real_tree(x) == JsonView::Real(x),
        !x.spec_is_finite() ==> real_tree(x) == JsonView::Null,
        real_in(JsonView::Real(x)) == Some(x),
        real_in(JsonView::Unsigned(n)) == Some(real_of(n as int)),
        real_in(JsonView::Negative(i)) == Some(real_of(i as int)),
{
}

/// Nesting is counted by arrays and objects: what is neither is not nested, and what holds parts is
/// nested one level deeper than they are.
pub proof fn nesting_is_counted(
    items: Seq<JsonView>,
    fields: Seq<(Seq<char>, JsonView)>,
    t: JsonView,
    levels: nat,
)
    ensures
        !(t is Array) && !(t is Object) ==> depth_within(t, 0),
        depth_within(JsonView::Array(items), levels + 1) <==> forall|i: int|
            0 <= i < items.len() ==> depth_within(#[trigger] items[i], levels),
        depth_within(JsonView::Object(fields), levels + 1) <==> forall|i: int|
            0 <= i < fields.len() ==> depth_within((#[trigger] fields[i]).1, levels),
        !depth_within(JsonView::Array(items), 0),
        !depth_within(JsonView::Object(fields), 0),
        max_depth() == 127,
{
    let n = (levels + 1) as nat;
    let a = JsonView::Array(items);
    let o = JsonView::Object(fields);
    assert(a->Array_0 == items);
    assert(o->Object_0 == fields);
    assert(depth_within(a, n) == (n > 0 && forall|i: int|
        0 <= i < a->Array_0.len() ==> depth_within(#[trigger] a->Array_0[i], (n - 1) as nat)));
    assert(depth_within(o, n) == (n > 0 && forall|i: int|
        0 <= i < o->Object_0.len() ==> depth_within(
            (#[trigger] o->Object_0[i]).1,
            (n - 1) as nat,
        )));
}

/// How `serde_json` describes something that is not what was expected.
pub uninterp spec fn invalid_type(t: JsonView, expected: Seq<char>) -> Seq<char>;

/// `serde::de::Error::invalid_type` for `serde_json::Error`, displayed: the text is a function of
/// the tree and of what was expected in its place.
#[verifier::external_body]
pub(crate) fn json_invalid_type(v: &JsonValue, expected: &str) -> (r: String)
    ensures
        r@ == invalid_type(json_tree(*v), expected@),
{
    let found = match v {
        JsonValue::Null => Unexpected::Unit,
        JsonValue::Bool(b) => Unexpected::Bool(*b),
        JsonValue::Number(n) => match (n.as_u64(), n.as_i64(), n.as_f64()) {
            (Some(n), _, _) => Unexpected::Unsigned(n),
            (_, Some(n), _) => Unexpected::Signed(n),
            (_, _, x) => Unexpected::Float(x.unwrap()),
        },
        JsonValue::String(s) => Unexpected::Str(s),
        JsonValue::Array(_) => Unexpected::Seq,
        JsonValue::Object(_) => Unexpected::Map,
    };
    <serde_json::Error as serde::de::Error>::invalid_type(found, &expected).to_string()
}

/// Whether `serde_json` reads the bytes to their end where nothing in them matters.
pub uninterp spec fn json_skipped(bytes: Seq<u8>) -> bool;

/// `serde_json::from_slice` into a `serde::de::IgnoredAny`: whether it succeeds is a function of
/// the bytes.
#[verifier::external_body]
pub(crate) fn json_skip(bytes: &[u8]) -> (r: bool)
    ensures
        r == json_skipped(bytes@),
{
    serde_json::from_slice::<serde::de::IgnoredAny>(bytes).is_ok()
}

/// `serde_json::Value::Bool`.
#[verifier::external_body]
pub(crate) fn json_bool(b: bool) -> (r: JsonValue)
    ensures
        json_tree(r) == JsonView::Bool(b),
{
    JsonValue::Bool(b)
}

/// `serde_json::Value` from a whole number without a sign.
#[verifier::external_body]
pub(crate) fn json_unsigned(n: u64) -> (r: JsonValue)
    ensures
        json_tree(r) == JsonView::Unsigned(n),
{
    JsonValue::from(n)
}

/// A whole number with a sign as a JSON tree.
pub open spec fn signed_tree(n: i64) -> JsonView {
    if n >= 0 {
        JsonView::Unsigned(n as u64)
    } else {
        JsonView::Negative(n)
    }
}

/// `serde_json::Value` from a whole number with a sign.
#[verifier::external_body]
pub(crate) fn json_signed(n: i64) -> (r: JsonValue)
    ensures
        json_tree(r) == signed_tree(n),
{
    JsonValue::from(n)
}

/// A floating point number as a JSON tree: JSON has no infinities and no NaN.
pub open spec fn real_tree(x: Real) -> JsonView {
    if x.spec_is_finite() {
        JsonView::Real(x)
    } else {
        JsonView::Null
    }
}

/// `serde_json::Value` from a floating point number; the number is read from its bits by
/// `bytes::Buf`.
#[verifier::external_body]
pub(crate) fn json_real(x: Real) -> (r: JsonValue)
    ensures
        json_tree(r) == real_tree(x),
{
    let bytes = x.bits.to_be_bytes();
    JsonValue::from(bytes::Buf::get_f64(&mut &bytes[..]))
}

/// `serde_json::Value` from a text.
#[verifier::external_body]
pub(crate) fn json_text(s: &str) -> (r: JsonValue)
    ensures
        json_tree(r) == JsonView::Text(s@),
{
    JsonValue::from(s)
}

/// `serde_json::Value::Array`.
#[verifier::external_body]
pub(crate) fn json_array(items: Vec<JsonValue>) -> (r: JsonValue)
    ensures
        json_tree(r) == JsonView::Array(json_trees(items@)),
{
    JsonValue::Array(items)
}

/// No name occurs twice.
pub open spec fn distinct_names(s: Seq<(String, JsonValue)>) -> bool {
    forall|i: int, j: int|
        0 <= i < j < s.len() ==> (#[trigger] s[i]).0@ != (#[trigger] s[j]).0@
}

/// `serde_json::Value::from_iter` on fields: an object that has them in their order.
#[verifier::external_body]
pub(crate) fn json_object(fields: Vec<(String, JsonValue)>) -> (r: JsonValue)
    requires
        distinct_names(fields@),
    ensures
        json_tree(r) == JsonView::Object(json_fields(fields@)),
{
    JsonValue::from_iter(fields)
}

/// What `serde_json` reads from bytes, or what it says is wrong with them.
pub uninterp spec fn json_parsed(bytes: Seq<u8>) -> Result<JsonView, Seq<char>>;

/// How `serde_json` writes a tree.
pub uninterp spec fn json_printed(t: JsonView) -> Seq<char>;

/// Among distinct names none stands at two places.
pub proof fn names_stand_once(s: Seq<(String, JsonValue)>, i: int, j: int)
    requires
        distinct_names(s),
        0 <= i < s.len(),
        0 <= j < s.len(),
        s[i].0@ == s[j].0@,
    ensures
        i == j,
{
}

/// Whether `serde_json` reads this tree from the bytes.
pub open spec fn json_reads_as(bytes: Seq<u8>, t: JsonView) -> bool {
    json_parsed(bytes) == Ok::<JsonView, Seq<char>>(t)
}

/// How deeply arrays and objects may be nested in what `serde_json` reads.
pub open spec fn max_depth() -> nat {
    127
}

/// `serde_json::from_slice` into a `serde_json::Value`: the outcome is a function of the bytes.
/// Of fields of one object that share a name the last is kept.
#[verifier::external_body]
pub(crate) fn json_parse(bytes: &[u8]) -> (r: Result<JsonValue, String>)
    ensures
        match r {
            Ok(v) => json_reads_as(bytes@, json_tree(v)),
            Err(e) => json_parsed(bytes@) matches Err(t) && t == e@,
        },
{
    match serde_json::from_slice(bytes) {
        Ok(v) => Ok(v),
        Err(e) => Err(e.to_string()),
    }
}

/// `serde_json::to_string` of a `serde_json::Value`: the text is a function of the tree, and
/// `serde_json::from_slice` reads the tree back where it is not nested too deeply.
#[verifier::external_body]
pub(crate) fn json_print(v: &JsonValue) -> (r: String)
    ensures
        r@ == json_printed(json_tree(*v)),
        depth_within(json_tree(*v), max_depth()) ==> json_reads_as(encode_utf8(r@), json_tree(*v)),
{
    serde_json::to_string(v).unwrap()
}

} // verus!
