//! Metadata documents: JSON values, their equality and their numbers.
//!
//! A number is held as the bits of an IEEE-754 double. The library never
//! computes with it; it only orders numbers, which the bits allow by integer
//! comparison alone.

use vstd::prelude::*;
use crate::text::{chars_of, same_chars, text_is};

verus! {

/// A JSON value as mathematics: what a [`JsonValue`] stands for.
pub enum Json {
    Null,
    Bool(bool),
    /// The bits of an IEEE-754 double, and the number as text.
    Number(u64, Seq<char>),
    Text(Seq<char>),
    Array(Seq<Json>),
    Object(Seq<(Seq<char>, Json)>),
}

/// A JSON value.
#[derive(Debug)]
pub enum JsonValue {
    Null,
    Bool(bool),
    /// A number, held as the bits of an IEEE-754 double, and as text.
    Number(u64, String),
    Text(String),
    Array(Vec<JsonValue>),
    /// Fields in document order.
    Object(Vec<(String, JsonValue)>),
}

/// What a value stands for.
pub open spec fn model(v: JsonValue) -> Json
    decreases v,
{
    match v {
        JsonValue::Null => Json::Null,
        JsonValue::Bool(b) => Json::Bool(b),
        JsonValue::Number(n, t) => Json::Number(n, t@),
        JsonValue::Text(s) => Json::Text(s@),
        JsonValue::Array(items) => Json::Array(
            Seq::new(
                items@.len(),
                |i: int|
                    if 0 <= i < items@.len() {
                        model(items@[i])
                    } else {
                        Json::Null
                    },
            ),
        ),
        JsonValue::Object(fields) => Json::Object(
            Seq::new(
                fields@.len(),
                |i: int|
                    if 0 <= i < fields@.len() {
                        (fields@[i].0@, model(fields@[i].1))
                    } else {
                        (Seq::empty(), Json::Null)
                    },
            ),
        ),
    }
}

impl View for JsonValue {
    type V = Json;

    open spec fn view(&self) -> Json {
        model(*self)
    }
}

/// Everything but the sign bit of a double.
pub const MAG_MASK: u64 = 0x7fff_ffff_ffff_ffff;

/// The bits of positive infinity; a larger magnitude is no number.
pub const INF_BITS: u64 = 0x7ff0_0000_0000_0000;

/// Magnitude of a double: its bits without the sign.
pub open spec fn num_mag(bits: u64) -> u64 {
    bits & MAG_MASK
}

/// The bits are no number (NaN).
pub open spec fn num_is_nan(bits: u64) -> bool {
    num_mag(bits) > INF_BITS
}

/// An integer that orders doubles as their values are ordered: the
/// magnitude, negated when the sign bit is set. Both zeros have key 0.
pub open spec fn num_key(bits: u64) -> int {
    if bits >> 63 == 1 {
        -(num_mag(bits) as int)
    } else {
        num_mag(bits) as int
    }
}

/// Two numbers have the same value. NaN equals nothing.
pub open spec fn num_eq(a: u64, b: u64) -> bool {
    !num_is_nan(a) && !num_is_nan(b) && num_key(a) == num_key(b)
}

/// `a` is less than `b`. NaN is not ordered.
pub open spec fn num_lt(a: u64, b: u64) -> bool {
    !num_is_nan(a) && !num_is_nan(b) && num_key(a) < num_key(b)
}

/// `a` is at most `b`. NaN is not ordered.
pub open spec fn num_le(a: u64, b: u64) -> bool {
    !num_is_nan(a) && !num_is_nan(b) && num_key(a) <= num_key(b)
}

/// Whether the bits are no number.
pub fn is_nan_bits(bits: u64) -> (b: bool)
    ensures
        b == num_is_nan(bits),
{
    (bits & MAG_MASK) > INF_BITS
}

/// The ordering key of a double.
pub fn key_of(bits: u64) -> (k: i128)
    ensures
        k == num_key(bits),
{
    let mag: u64 = bits & MAG_MASK;
    if bits >> 63 == 1 {
        -(mag as i128)
    } else {
        mag as i128
    }
}

/// Whether two numbers have the same value.
pub fn number_eq(a: u64, b: u64) -> (r: bool)
    ensures
        r == num_eq(a, b),
{
    !is_nan_bits(a) && !is_nan_bits(b) && key_of(a) == key_of(b)
}

/// Whether `a` is less than `b`.
pub fn number_lt(a: u64, b: u64) -> (r: bool)
    ensures
        r == num_lt(a, b),
{
    !is_nan_bits(a) && !is_nan_bits(b) && key_of(a) < key_of(b)
}

/// Whether `a` is at most `b`.
pub fn number_le(a: u64, b: u64) -> (r: bool)
    ensures
        r == num_le(a, b),
{
    !is_nan_bits(a) && !is_nan_bits(b) && key_of(a) <= key_of(b)
}

/// Whether two texts are the same.
pub fn text_eq(a: &str, b: &str) -> (r: bool)
    ensures
        r == (a@ == b@),
{
    same_chars(&chars_of(a), &chars_of(b))
}

/// Two JSON values are equal: of the same type, and equal inside. Numbers
/// are compared by value, everything else by structure; the fields of
/// objects are compared in order.
pub open spec fn json_same(a: Json, b: Json) -> bool
    decreases a,
{
    match a {
        Json::Null => b is Null,
        Json::Bool(x) => b is Bool && b->Bool_0 == x,
        Json::Number(x, _) => b is Number && num_eq(x, b->Number_0),
        Json::Text(x) => b is Text && b->Text_0 == x,
        Json::Array(x) => b is Array && x.len() == b->Array_0.len() && forall|i: int|
            0 <= i < x.len() ==> json_same(#[trigger] x[i], b->Array_0[i]),
        Json::Object(x) => b is Object && x.len() == b->Object_0.len() && forall|i: int|
            0 <= i < x.len() ==> (#[trigger] x[i]).0 == b->Object_0[i].0 && json_same(
                x[i].1,
                b->Object_0[i].1,
            ),
    }
}

/// The models of a list of values.
pub open spec fn values_view(items: Seq<JsonValue>) -> Seq<Json> {
    Seq::new(items.len(), |i: int| items[i]@)
}

impl JsonValue {
    /// Whether `self` and `other` are equal as JSON values.
    #[verifier::loop_isolation(false)]
    pub fn same(&self, other: &JsonValue) -> (r: bool)
        ensures
            r == json_same(self@, other@),
        decreases self,
    {
        match self {
            JsonValue::Null => match other {
                JsonValue::Null => true,
                _ => false,
            },
            JsonValue::Bool(x) => match other {
                JsonValue::Bool(y) => *x == *y,
                _ => false,
            },
            JsonValue::Number(x, _) => match other {
                JsonValue::Number(y, _) => number_eq(*x, *y),
                _ => false,
            },
            JsonValue::Text(x) => match other {
                JsonValue::Text(y) => text_eq(x.as_str(), y.as_str()),
                _ => false,
            },
            JsonValue::Array(x) => match other {
                JsonValue::Array(y) => {
                    if x.len() != y.len() {
                        return false;
                    }
                    let mut i: usize = 0;
                    while i < x.len()
                        invariant
                            i <= x.len(),
                            forall|k: int| 0 <= k < i ==> json_same(x@[k]@, y@[k]@),
                        decreases x.len() - i,
                    {
                        if !x[i].same(&y[i]) {
                            assert(self@->Array_0[i as int] == x@[i as int]@);
                            return false;
                        }
                        i += 1;
                    }
                    true
                },
                _ => false,
            },
            JsonValue::Object(x) => match other {
                JsonValue::Object(y) => {
                    if x.len() != y.len() {
                        return false;
                    }
                    let mut i: usize = 0;
                    while i < x.len()
                        invariant
                            i <= x.len(),
                            forall|k: int|
                                0 <= k < i ==> x@[k].0@ == y@[k].0@ && json_same(x@[k].1@, y@[k].1@),
                        decreases x.len() - i,
                    {
                        if !text_eq(x[i].0.as_str(), y[i].0.as_str()) || !x[i].1.same(&y[i].1) {
                            assert(self@->Object_0[i as int] == (x@[i as int].0@, x@[i as int].1@));
                            return false;
                        }
                        i += 1;
                    }
                    true
                },
                _ => false,
            },
        }
    }

    /// A copy of `self`.
    #[verifier::loop_isolation(false)]
    pub fn copy(&self) -> (r: JsonValue)
        ensures
            r@ == self@,
        decreases self,
    {
        match self {
            JsonValue::Null => JsonValue::Null,
            JsonValue::Bool(x) => JsonValue::Bool(*x),
            JsonValue::Number(x, t) => JsonValue::Number(*x, t.clone()),
            JsonValue::Text(x) => JsonValue::Text(x.clone()),
            JsonValue::Array(x) => {
                let mut out: Vec<JsonValue> = Vec::new();
                let mut i: usize = 0;
                while i < x.len()
                    invariant
                        i <= x.len(),
                        out@.len() == i,
                        forall|k: int| 0 <= k < i ==> out@[k]@ == x@[k]@,
                    decreases x.len() - i,
                {
                    out.push(x[i].copy());
                    i += 1;
                }
                let r = JsonValue::Array(out);
                assert(r@->Array_0 =~= self@->Array_0);
                r
            },
            JsonValue::Object(x) => {
                let mut out: Vec<(String, JsonValue)> = Vec::new();
                let mut i: usize = 0;
                while i < x.len()
                    invariant
                        i <= x.len(),
                        out@.len() == i,
                        forall|k: int| 0 <= k < i ==> out@[k].0@ == x@[k].0@ && out@[k].1@ == x@[k].1@,
                    decreases x.len() - i,
                {
                    out.push((x[i].0.clone(), x[i].1.copy()));
                    i += 1;
                }
                let r = JsonValue::Object(out);
                assert(r@->Object_0 =~= self@->Object_0);
                r
            },
        }
    }
}

/// `serde_json::Value`, a parsed document. It is carried from the parser
/// to the conversion and never looked into by verified code.
#[verifier::external_type_specification]
#[verifier::external_body]
pub struct ExSerdeValue(serde_json::Value);

/// What `serde_json::from_slice` makes of a text, read as a
/// `serde_json::Value`: the document, or nothing where the text is not one
/// JSON document. A number stands as the bits of the double that
/// `serde_json::Number::as_f64` gives for it, with the text that its
/// `Display` writes, and the fields of an object stand in the order in
/// which `serde_json::Map` hands them out.
pub uninterp spec fn json_parse(text: Seq<u8>) -> Option<Json>;

/// The message of the error of `serde_json::from_slice` for a text that is
/// not one JSON document.
pub uninterp spec fn json_error(text: Seq<u8>) -> Seq<char>;

/// What `serde_json::to_string_pretty` writes for a document, or the
/// message of its error. The printer reads nothing but the document: its
/// values, the text of its numbers, and the order of its fields.
pub uninterp spec fn json_printed(document: Json) -> Result<Seq<char>, Seq<char>>;

/// A text printed anew: what the printer writes for the document that the
/// text is, or the message of the parser where it is none.
pub open spec fn json_pretty(text: Seq<u8>) -> Result<Seq<char>, Seq<char>> {
    match json_parse(text) {
        Some(document) => json_printed(document),
        None => Err(json_error(text)),
    }
}

/// What a parsed document stands for: each variant of `serde_json::Value`
/// as the variant of the same name, a number with the bits of the double
/// that `serde_json::Number::as_f64` gives for it and the text that its
/// `Display` writes, the fields of an object in the order in which
/// `serde_json::Map` hands them out.
pub uninterp spec fn document_model(v: serde_json::Value) -> Json;

/// Converts a parsed document, variant by variant, into what
/// [`document_model`] names.
#[verifier::external_body]
fn from_parsed(v: &serde_json::Value) -> (r: JsonValue)
    ensures
        r@ == document_model(*v),
{
    match v {
        serde_json::Value::Null => JsonValue::Null,
        serde_json::Value::Bool(b) => JsonValue::Bool(*b),
        serde_json::Value::Number(n) => JsonValue::Number(n.as_f64().unwrap_or_default().to_bits(), n.to_string()),
        serde_json::Value::String(s) => JsonValue::Text(s.clone()),
        serde_json::Value::Array(a) => JsonValue::Array(a.iter().map(from_parsed).collect()),
        serde_json::Value::Object(o) => JsonValue::Object(
            o.iter().map(|(k, x)| (k.clone(), from_parsed(x))).collect(),
        ),
    }
}

/// Parses a text with `serde_json::from_slice`. The parser reads nothing
/// but the text, so the same text always gives the same document; what
/// that document stands for is what [`json_parse`] names, and the message
/// of a failure is what [`json_error`] names.
#[verifier::external_body]
fn json_document(text: &[u8]) -> (r: Result<serde_json::Value, String>)
    ensures
        match r {
            Ok(v) => json_parse(text@) == Some(document_model(v)),
            Err(e) => json_parse(text@) is None && e@ == json_error(text@),
        },
{
    match serde_json::from_slice::<serde_json::Value>(text) {
        Ok(v) => Ok(v),
        Err(e) => Err(e.to_string()),
    }
}

/// Parses a JSON document; a text that is none gives the message of the
/// parser.
pub fn parse_json(text: &[u8]) -> (r: Result<JsonValue, String>)
    ensures
        r is Ok <==> json_parse(text@) is Some,
        r is Ok ==> r->Ok_0@ == json_parse(text@)->Some_0,
        r is Err ==> r->Err_0@ == json_error(text@),
{
    match json_document(text) {
        Ok(v) => Ok(from_parsed(&v)),
        Err(e) => Err(e),
    }
}

/// Prints a parsed document with `serde_json::to_string_pretty`. The
/// printer reads nothing but the document, so the result is what
/// [`json_printed`] names for what the document stands for.
#[verifier::external_body]
fn print_document(v: &serde_json::Value) -> (r: Result<String, String>)
    ensures
        match r {
            Ok(s) => json_printed(document_model(*v)) == Ok::<Seq<char>, Seq<char>>(s@),
            Err(e) => json_printed(document_model(*v)) == Err::<Seq<char>, Seq<char>>(e@),
        },
{
    match serde_json::to_string_pretty(v) {
        Ok(s) => Ok(s),
        Err(e) => Err(e.to_string()),
    }
}

/// Prints a JSON text anew: parses it, then prints the document.
pub(crate) fn pretty_json(text: &[u8]) -> (r: Result<String, String>)
    ensures
        match r {
            Ok(s) => json_pretty(text@) == Ok::<Seq<char>, Seq<char>>(s@),
            Err(e) => json_pretty(text@) == Err::<Seq<char>, Seq<char>>(e@),
        },
{
    match json_document(text) {
        Ok(v) => print_document(&v),
        Err(e) => Err(e),
    }
}

/// Copies a list of values.
pub fn copy_values(items: &Vec<JsonValue>) -> (out: Vec<JsonValue>)
    ensures
        values_view(out@) == values_view(items@),
{
    let mut out: Vec<JsonValue> = Vec::new();
    let mut i: usize = 0;
    while i < items.len()
        invariant
            i <= items.len(),
            out@.len() == i,
            forall|k: int| 0 <= k < i ==> out@[k]@ == items@[k]@,
        decreases items.len() - i,
    {
        out.push(items[i].copy());
        i += 1;
    }
    assert(values_view(out@) =~= values_view(items@));
    out
}

/// Position of the first field of this name, or -1.
pub open spec fn member_at(fields: Seq<(Seq<char>, Json)>, name: Seq<char>) -> int
    decreases fields.len(),
{
    if fields.len() == 0 {
        -1
    } else if member_at(fields.drop_last(), name) >= 0 {
        member_at(fields.drop_last(), name)
    } else if fields.last().0 == name {
        fields.len() - 1
    } else {
        -1
    }
}

/// Position of the first field of this name.
pub fn find_member(fields: &Vec<(String, JsonValue)>, name: &str) -> (r: Option<usize>)
    ensures
        match r {
            Some(i) => i < fields@.len() && member_at(fields_view(fields@), name@) == i,
            None => member_at(fields_view(fields@), name@) == -1,
        },
{
    let ghost all = fields_view(fields@);
    let mut i: usize = 0;
    assert(all.take(0) =~= Seq::<(Seq<char>, Json)>::empty());
    while i < fields.len()
        invariant
            i <= fields.len(),
            all == fields_view(fields@),
            member_at(all.take(i as int), name@) == -1,
        decreases fields.len() - i,
    {
        proof {
            assert(all.take(i as int + 1).drop_last() =~= all.take(i as int));
            assert(all.take(i as int + 1).last() == all[i as int]);
        }
        if text_is(fields[i].0.as_str(), name) {
            proof {
                lemma_member_stays(all, name@, i as int + 1);
            }
            return Some(i);
        }
        i += 1;
    }
    assert(all.take(i as int) =~= all);
    None
}

/// The fields of an object, as mathematics.
pub open spec fn fields_view(fields: Seq<(String, JsonValue)>) -> Seq<(Seq<char>, Json)> {
    Seq::new(fields.len(), |i: int| (fields[i].0@, fields[i].1@))
}

/// A position found among the first `n` fields is the position among all
/// of them.
pub proof fn lemma_member_stays(fields: Seq<(Seq<char>, Json)>, name: Seq<char>, n: int)
    requires
        0 <= n <= fields.len(),
        member_at(fields.take(n), name) >= 0,
    ensures
        member_at(fields, name) == member_at(fields.take(n), name),
    decreases fields.len() - n,
{
    if n < fields.len() {
        assert(fields.take(n + 1).drop_last() =~= fields.take(n));
        lemma_member_stays(fields, name, n + 1);
    } else {
        assert(fields.take(n) =~= fields);
    }
}

} // verus!
