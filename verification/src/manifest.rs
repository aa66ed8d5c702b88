//! The manifest file of a saved collection.
//!
//! The manifest is one JSON object with the fields `format_version`,
//! `dimension`, `metric`, `graph_params` and `generation`; `graph_params`
//! is an object with the fields `M`, `ef_construction`, `max_layer` and
//! `max_elements`. Numbers are written in base ten without sign, fraction
//! or exponent. The library writes the manifest in one fixed form, and
//! reads any JSON object that has these fields.

use vstd::prelude::*;
use vstd::utf8::{decode_utf8, encode_utf8, encode_utf8_decode_utf8, encode_utf8_valid_utf8, valid_utf8};
use crate::backend::{Distance, GraphParams};
use crate::backup::copy_bytes;
use crate::persist::{LoadError, Manifest};
use crate::text::{
    begins_with,
    chars_of,
    decimal,
    digit,
    digit_of,
    digit_value,
    law_natural_of_decimal,
    natural_within,
    parse_natural,
    prefix,
    push_all,
    push_decimal_wide,
    starts_with,
    string_from_utf8,
    string_of,
    suffix,
    text_is,
};
use crate::value::{fields_view, find_member, json_parse, member_at, parse_json, Json, JsonValue};

verus! {

/// The name of a metric in the manifest.
pub open spec fn metric_name(d: Distance) -> Seq<char> {
    match d {
        Distance::Cosine => "cosine"@,
        Distance::Euclidean => "euclidean"@,
        Distance::DotProduct => "dot"@,
    }
}

/// The metric of a name; no other name than the three is one.
pub open spec fn metric_of(name: Seq<char>) -> Option<Distance> {
    if name == "cosine"@ {
        Some(Distance::Cosine)
    } else if name == "euclidean"@ {
        Some(Distance::Euclidean)
    } else if name == "dot"@ {
        Some(Distance::DotProduct)
    } else {
        None
    }
}

/// Each metric is found again under its name.
pub proof fn law_metric_names(d: Distance)
    ensures
        metric_of(metric_name(d)) == Some(d),
{
    reveal_strlit("cosine");
    reveal_strlit("euclidean");
    reveal_strlit("dot");
    assert("cosine"@.len() == 6 && "euclidean"@.len() == 9 && "dot"@.len() == 3);
}

/// The name of a metric in the manifest.
pub fn metric_word(d: Distance) -> (r: &'static str)
    ensures
        r@ == metric_name(d),
{
    match d {
        Distance::Cosine => "cosine",
        Distance::Euclidean => "euclidean",
        Distance::DotProduct => "dot",
    }
}

/// The metric of a name.
pub fn metric_named(name: &str) -> (r: Option<Distance>)
    ensures
        r == metric_of(name@),
{
    if text_is(name, "cosine") {
        Some(Distance::Cosine)
    } else if text_is(name, "euclidean") {
        Some(Distance::Euclidean)
    } else if text_is(name, "dot") {
        Some(Distance::DotProduct)
    } else {
        None
    }
}

/// The graph parameters as the manifest writes them, with `rest` behind
/// them.
pub open spec fn params_then(p: GraphParams, rest: Seq<char>) -> Seq<char> {
    "{\"M\":"@ + (decimal(p.m as nat) + (",\"ef_construction\":"@ + (decimal(
        p.ef_construction as nat,
    ) + (",\"max_layer\":"@ + (decimal(p.max_layer as nat) + (",\"max_elements\":"@ + (decimal(
        p.max_elements as nat,
    ) + ("}"@ + rest))))))))
}

/// The graph parameters as the manifest writes them.
pub open spec fn params_text(p: GraphParams) -> Seq<char> {
    params_then(p, Seq::empty())
}

/// The end of the manifest: the generation and the closing brace.
pub open spec fn generation_text(generation: u64) -> Seq<char> {
    ",\"generation\":"@ + (decimal(generation as nat) + "}"@)
}

/// The manifest as it is written.
pub open spec fn manifest_text(m: Manifest) -> Seq<char> {
    "{\"format_version\":"@ + (decimal(m.format_version as nat) + (",\"dimension\":"@ + (decimal(
        m.dimension as nat,
    ) + (",\"metric\":\""@ + (metric_name(m.metric) + ("\",\"graph_params\":"@ + params_then(
        m.graph_params,
        generation_text(m.generation),
    )))))))
}

/// `lit`, then `rest`.
fn text_before(lit: &str, rest: Vec<char>) -> (out: Vec<char>)
    ensures
        out@ == lit@ + rest@,
{
    let mut out = chars_of(lit);
    push_all(&mut out, &rest);
    out
}

/// `n` in base ten, then `rest`.
fn number_before(n: u64, rest: Vec<char>) -> (out: Vec<char>)
    ensures
        out@ == decimal(n as nat) + rest@,
{
    let mut out: Vec<char> = Vec::new();
    push_decimal_wide(&mut out, n);
    push_all(&mut out, &rest);
    assert(out@ =~= decimal(n as nat) + rest@);
    out
}

/// Writes the graph parameters, then `rest`.
fn write_params(p: &GraphParams, rest: Vec<char>) -> (out: Vec<char>)
    ensures
        out@ == params_then(*p, rest@),
{
    let t = text_before("}", rest);
    let t = number_before(p.max_elements as u64, t);
    let t = text_before(",\"max_elements\":", t);
    let t = number_before(p.max_layer as u64, t);
    let t = text_before(",\"max_layer\":", t);
    let t = number_before(p.ef_construction as u64, t);
    let t = text_before(",\"ef_construction\":", t);
    let t = number_before(p.m as u64, t);
    text_before("{\"M\":", t)
}

/// Writes the manifest.
pub fn write_manifest(m: &Manifest) -> (r: String)
    ensures
        r@ == manifest_text(*m),
{
    let t = text_before("}", Vec::new());
    assert(t@ =~= "}"@);
    let t = number_before(m.generation, t);
    let t = text_before(",\"generation\":", t);
    let t = write_params(&m.graph_params, t);
    let t = text_before("\",\"graph_params\":", t);
    let t = text_before(metric_word(m.metric), t);
    let t = text_before(",\"metric\":\"", t);
    let t = number_before(m.dimension as u64, t);
    let t = text_before(",\"dimension\":", t);
    let t = number_before(m.format_version as u64, t);
    let t = text_before("{\"format_version\":", t);
    string_of(&t)
}

/// The number under a name among the fields of an object: the first field
/// of that name is a number written in digits alone, and no greater than
/// `max`.
pub open spec fn number_field(fields: Seq<(Seq<char>, Json)>, name: Seq<char>, max: nat) -> Option<
    nat,
> {
    let at = member_at(fields, name);
    if 0 <= at < fields.len() {
        match fields[at].1 {
            Json::Number(_, t) => natural_within(t, max),
            _ => None,
        }
    } else {
        None
    }
}

/// The metric under a name among the fields of an object: the first field
/// of that name is the name of a metric.
pub open spec fn metric_field(fields: Seq<(Seq<char>, Json)>, name: Seq<char>) -> Option<Distance> {
    let at = member_at(fields, name);
    if 0 <= at < fields.len() {
        match fields[at].1 {
            Json::Text(t) => metric_of(t),
            _ => None,
        }
    } else {
        None
    }
}

/// The graph parameters that a JSON value holds: an object with the four
/// parameters as numbers.
pub open spec fn params_of(j: Json) -> Option<GraphParams> {
    match j {
        Json::Object(fs) => {
            let m = number_field(fs, "M"@, usize::MAX as nat);
            let ef = number_field(fs, "ef_construction"@, usize::MAX as nat);
            let layer = number_field(fs, "max_layer"@, usize::MAX as nat);
            let elements = number_field(fs, "max_elements"@, usize::MAX as nat);
            if m is Some && ef is Some && layer is Some && elements is Some {
                Some(
                    GraphParams {
                        m: m->Some_0 as usize,
                        ef_construction: ef->Some_0 as usize,
                        max_layer: layer->Some_0 as usize,
                        max_elements: elements->Some_0 as usize,
                    },
                )
            } else {
                None
            }
        },
        _ => None,
    }
}

/// The graph parameters under a name among the fields of an object.
pub open spec fn params_field(fields: Seq<(Seq<char>, Json)>, name: Seq<char>) -> Option<
    GraphParams,
> {
    let at = member_at(fields, name);
    if 0 <= at < fields.len() {
        params_of(fields[at].1)
    } else {
        None
    }
}

/// The manifest that a JSON value holds: an object with the five fields of
/// a manifest, each of its kind and within its range. Other fields are
/// passed over.
pub open spec fn manifest_of(j: Json) -> Option<Manifest> {
    match j {
        Json::Object(fs) => {
            let version = number_field(fs, "format_version"@, u32::MAX as nat);
            let dimension = number_field(fs, "dimension"@, usize::MAX as nat);
            let metric = metric_field(fs, "metric"@);
            let params = params_field(fs, "graph_params"@);
            let generation = number_field(fs, "generation"@, u64::MAX as nat);
            if version is Some && dimension is Some && metric is Some && params is Some
                && generation is Some {
                Some(
                    Manifest {
                        format_version: version->Some_0 as u32,
                        dimension: dimension->Some_0 as usize,
                        metric: metric->Some_0,
                        graph_params: params->Some_0,
                        generation: generation->Some_0 as u64,
                    },
                )
            } else {
                None
            }
        },
        _ => None,
    }
}

/// What is read from the text of a manifest file: the manifest that the
/// document holds, where the text is a JSON document and holds one.
pub open spec fn manifest_read(parsed: Option<Json>) -> Result<Manifest, LoadError> {
    match parsed {
        Some(j) => match manifest_of(j) {
            Some(m) => Ok(m),
            None => Err(LoadError::CorruptManifest),
        },
        None => Err(LoadError::CorruptManifest),
    }
}

/// The number under a name among the fields of an object.
fn read_number(fields: &Vec<(String, JsonValue)>, name: &str, max: u64) -> (r: Option<u64>)
    ensures
        match r {
            Some(n) => number_field(fields_view(fields@), name@, max as nat) == Some(n as nat),
            None => number_field(fields_view(fields@), name@, max as nat) is None,
        },
{
    match find_member(fields, name) {
        Some(i) => match &fields[i].1 {
            JsonValue::Number(_, t) => parse_natural(&chars_of(t.as_str()), max),
            _ => None,
        },
        None => None,
    }
}

/// The graph parameters that a JSON value holds.
pub fn params_from(v: &JsonValue) -> (r: Option<GraphParams>)
    ensures
        r == params_of(v@),
{
    match v {
        JsonValue::Object(fields) => {
            assert(v@ == Json::Object(fields_view(fields@))) by {
                assert(v@->Object_0 =~= fields_view(fields@));
            }
            let top: u64 = usize::MAX as u64;
            let m = read_number(fields, "M", top);
            let ef = read_number(fields, "ef_construction", top);
            let layer = read_number(fields, "max_layer", top);
            let elements = read_number(fields, "max_elements", top);
            match (m, ef, layer, elements) {
                (Some(m), Some(ef), Some(layer), Some(elements)) => Some(
                    GraphParams {
                        m: m as usize,
                        ef_construction: ef as usize,
                        max_layer: layer as usize,
                        max_elements: elements as usize,
                    },
                ),
                _ => None,
            }
        },
        _ => None,
    }
}

/// The manifest that a JSON value holds.
pub fn manifest_from(v: &JsonValue) -> (r: Option<Manifest>)
    ensures
        r == manifest_of(v@),
{
    match v {
        JsonValue::Object(fields) => {
            assert(v@ == Json::Object(fields_view(fields@))) by {
                assert(v@->Object_0 =~= fields_view(fields@));
            }
            let version = read_number(fields, "format_version", u32::MAX as u64);
            let dimension = read_number(fields, "dimension", usize::MAX as u64);
            let metric = match find_member(fields, "metric") {
                Some(i) => match &fields[i].1 {
                    JsonValue::Text(t) => metric_named(t.as_str()),
                    _ => None,
                },
                None => None,
            };
            let params = match find_member(fields, "graph_params") {
                Some(i) => params_from(&fields[i].1),
                None => None,
            };
            let generation = read_number(fields, "generation", u64::MAX);
            match (version, dimension, metric, params, generation) {
                (Some(version), Some(dimension), Some(metric), Some(params), Some(generation)) => {
                    Some(
                        Manifest {
                            format_version: version as u32,
                            dimension: dimension as usize,
                            metric,
                            graph_params: params,
                            generation,
                        },
                    )
                },
                _ => None,
            }
        },
        _ => None,
    }
}

/// What is left of `s` behind `lit`, where `s` begins with it.
pub open spec fn after(s: Seq<char>, lit: Seq<char>) -> Option<Seq<char>> {
    if starts_with(s, lit) {
        Some(s.skip(lit.len() as int))
    } else {
        None
    }
}

/// Number of digits that `s` begins with.
pub open spec fn digit_run(s: Seq<char>) -> nat
    decreases s.len(),
{
    if s.len() == 0 || digit_of(s[0]) is None {
        0
    } else {
        1 + digit_run(s.drop_first())
    }
}

/// The number that the digits at the front of `s` write, and what is left
/// behind them.
pub open spec fn leading_number(s: Seq<char>, max: nat) -> Option<(nat, Seq<char>)> {
    match natural_within(s.take(digit_run(s) as int), max) {
        Some(n) => Some((n, s.skip(digit_run(s) as int))),
        None => None,
    }
}

/// The number behind `lit` at the front of `s`, and what is left behind
/// it.
pub open spec fn numbered(s: Seq<char>, lit: Seq<char>, max: nat) -> Option<(nat, Seq<char>)> {
    match after(s, lit) {
        Some(t) => leading_number(t, max),
        None => None,
    }
}

/// The metric whose name stands at the front of `s`, and what is left
/// behind it.
pub open spec fn leading_metric(s: Seq<char>) -> Option<(Distance, Seq<char>)> {
    if starts_with(s, "cosine"@) {
        Some((Distance::Cosine, s.skip("cosine"@.len() as int)))
    } else if starts_with(s, "euclidean"@) {
        Some((Distance::Euclidean, s.skip("euclidean"@.len() as int)))
    } else if starts_with(s, "dot"@) {
        Some((Distance::DotProduct, s.skip("dot"@.len() as int)))
    } else {
        None
    }
}

/// The graph parameters written at the front of `s`, and what is left
/// behind them.
pub open spec fn leading_params(s: Seq<char>) -> Option<(GraphParams, Seq<char>)> {
    let m = numbered(s, "{\"M\":"@, usize::MAX as nat);
    if m is None {
        None
    } else {
        let ef = numbered(m->Some_0.1, ",\"ef_construction\":"@, usize::MAX as nat);
        if ef is None {
            None
        } else {
            let layer = numbered(ef->Some_0.1, ",\"max_layer\":"@, usize::MAX as nat);
            if layer is None {
                None
            } else {
                let elements = numbered(layer->Some_0.1, ",\"max_elements\":"@, usize::MAX as nat);
                if elements is None {
                    None
                } else {
                    match after(elements->Some_0.1, "}"@) {
                        Some(rest) => Some(
                            (
                                GraphParams {
                                    m: m->Some_0.0 as usize,
                                    ef_construction: ef->Some_0.0 as usize,
                                    max_layer: layer->Some_0.0 as usize,
                                    max_elements: elements->Some_0.0 as usize,
                                },
                                rest,
                            ),
                        ),
                        None => None,
                    }
                }
            }
        }
    }
}

/// The manifest that a text in the written form holds: the text is
/// [`manifest_text`] of it, but that a number may begin with zeros.
pub open spec fn fixed_manifest(s: Seq<char>) -> Option<Manifest> {
    let version = numbered(s, "{\"format_version\":"@, u32::MAX as nat);
    if version is None {
        None
    } else {
        let dimension = numbered(version->Some_0.1, ",\"dimension\":"@, usize::MAX as nat);
        if dimension is None {
            None
        } else {
            let name = after(dimension->Some_0.1, ",\"metric\":\""@);
            if name is None || leading_metric(name->Some_0) is None {
                None
            } else {
                let metric = leading_metric(name->Some_0)->Some_0;
                let open = after(metric.1, "\",\"graph_params\":"@);
                if open is None || leading_params(open->Some_0) is None {
                    None
                } else {
                    let params = leading_params(open->Some_0)->Some_0;
                    let generation = numbered(params.1, ",\"generation\":"@, u64::MAX as nat);
                    if generation is None || generation->Some_0.1 != "}"@ {
                        None
                    } else {
                        Some(
                            Manifest {
                                format_version: version->Some_0.0 as u32,
                                dimension: dimension->Some_0.0 as usize,
                                metric: metric.0,
                                graph_params: params.0,
                                generation: generation->Some_0.0 as u64,
                            },
                        )
                    }
                }
            }
        }
    }
}

/// What is read from the bytes of a manifest file: the manifest that they
/// hold in the written form, or else the manifest in the JSON document
/// that they are.
pub open spec fn manifest_in(text: Seq<u8>) -> Result<Manifest, LoadError> {
    if valid_utf8(text) && fixed_manifest(decode_utf8(text)) is Some {
        Ok(fixed_manifest(decode_utf8(text))->Some_0)
    } else {
        manifest_read(json_parse(text))
    }
}

/// A text is what is left of itself behind anything put before it.
pub proof fn lemma_after(lit: Seq<char>, rest: Seq<char>)
    ensures
        after(lit + rest, lit) == Some(rest),
{
    assert((lit + rest).take(lit.len() as int) =~= lit);
    assert((lit + rest).skip(lit.len() as int) =~= rest);
}

/// A number in base ten is written in digits.
pub proof fn lemma_decimal_digits(n: nat)
    ensures
        forall|i: int| 0 <= i < decimal(n).len() ==> digit_of(#[trigger] decimal(n)[i]) is Some,
    decreases n,
{
    if n >= 10 {
        lemma_decimal_digits(n / 10);
        assert(digit_of(digit(n % 10)) is Some);
    } else {
        assert(digit_of(digit(n)) is Some);
    }
}

/// Digits before anything that does not begin with a digit are all the
/// digits at the front.
pub proof fn lemma_digit_run(d: Seq<char>, rest: Seq<char>)
    requires
        forall|i: int| 0 <= i < d.len() ==> digit_of(#[trigger] d[i]) is Some,
        rest.len() == 0 || digit_of(rest[0]) is None,
    ensures
        digit_run(d + rest) == d.len(),
    decreases d.len(),
{
    if d.len() == 0 {
        assert(d + rest =~= rest);
    } else {
        assert((d + rest)[0] == d[0]);
        assert((d + rest).drop_first() =~= d.drop_first() + rest);
        assert forall|i: int| 0 <= i < d.drop_first().len() implies digit_of(
            #[trigger] d.drop_first()[i],
        ) is Some by {
            assert(d.drop_first()[i] == d[i + 1]);
        }
        lemma_digit_run(d.drop_first(), rest);
    }
}

/// A number written before anything that does not begin with a digit is
/// read back, and what stood behind it is left.
pub proof fn lemma_leading_number(n: nat, rest: Seq<char>, max: nat)
    requires
        n <= max,
        rest.len() == 0 || digit_of(rest[0]) is None,
    ensures
        leading_number(decimal(n) + rest, max) == Some((n, rest)),
{
    let d = decimal(n);
    lemma_decimal_digits(n);
    lemma_digit_run(d, rest);
    law_natural_of_decimal(n);
    assert((d + rest).take(d.len() as int) =~= d);
    assert((d + rest).skip(d.len() as int) =~= rest);
}

/// A number written behind `lit` and before anything that does not begin
/// with a digit is read back.
pub proof fn lemma_numbered(lit: Seq<char>, n: nat, rest: Seq<char>, max: nat)
    requires
        n <= max,
        rest.len() == 0 || digit_of(rest[0]) is None,
    ensures
        numbered(lit + (decimal(n) + rest), lit, max) == Some((n, rest)),
{
    lemma_after(lit, decimal(n) + rest);
    lemma_leading_number(n, rest, max);
}

/// The name of a metric is read back, and what stood behind it is left.
pub proof fn lemma_leading_metric(d: Distance, rest: Seq<char>)
    ensures
        leading_metric(metric_name(d) + rest) == Some((d, rest)),
{
    reveal_strlit("cosine");
    reveal_strlit("euclidean");
    reveal_strlit("dot");
    let name = metric_name(d);
    let s = name + rest;
    assert(s.take(name.len() as int) =~= name);
    assert(s.skip(name.len() as int) =~= rest);
    assert(s[0] == name[0]);
    match d {
        Distance::Cosine => {},
        Distance::Euclidean => {
            if starts_with(s, "cosine"@) {
                assert(s.take(6)[0] == 'c');
            }
        },
        Distance::DotProduct => {
            if starts_with(s, "cosine"@) {
                assert(s.take(6)[0] == 'c');
            }
            if starts_with(s, "euclidean"@) {
                assert(s.take(9)[0] == 'e');
            }
        },
    }
}

/// What separates the parts of a manifest begins with no digit.
pub open spec fn plain_start(s: Seq<char>) -> bool {
    s.len() > 0 && digit_of(s[0]) is None
}

/// The separators of the written form begin with no digit.
pub proof fn lemma_separators()
    ensures
        plain_start(",\"dimension\":"@),
        plain_start(",\"metric\":\""@),
        plain_start(",\"ef_construction\":"@),
        plain_start(",\"max_layer\":"@),
        plain_start(",\"max_elements\":"@),
        plain_start(",\"generation\":"@),
        plain_start("}"@),
{
    reveal_strlit(",\"dimension\":");
    reveal_strlit(",\"metric\":\"");
    reveal_strlit(",\"ef_construction\":");
    reveal_strlit(",\"max_layer\":");
    reveal_strlit(",\"max_elements\":");
    reveal_strlit(",\"generation\":");
    reveal_strlit("}");
}

/// A number written behind `lit` and before a separator is read back, and
/// the separator with what follows it is left.
pub proof fn lemma_field(lit: Seq<char>, n: nat, sep: Seq<char>, rest: Seq<char>, max: nat)
    requires
        n <= max,
        plain_start(sep),
    ensures
        numbered(lit + (decimal(n) + (sep + rest)), lit, max) == Some((n, sep + rest)),
{
    assert((sep + rest)[0] == sep[0]);
    lemma_numbered(lit, n, sep + rest, max);
}

/// Written graph parameters are read back, and what stood behind them is
/// left.
pub proof fn lemma_leading_params(p: GraphParams, rest: Seq<char>)
    ensures
        leading_params(params_then(p, rest)) == Some((p, rest)),
{
    lemma_separators();
    let top = usize::MAX as nat;
    let s4 = "}"@ + rest;
    let s3 = decimal(p.max_elements as nat) + s4;
    let s2 = decimal(p.max_layer as nat) + (",\"max_elements\":"@ + s3);
    let s1 = decimal(p.ef_construction as nat) + (",\"max_layer\":"@ + s2);
    lemma_field("{\"M\":"@, p.m as nat, ",\"ef_construction\":"@, s1, top);
    lemma_field(",\"ef_construction\":"@, p.ef_construction as nat, ",\"max_layer\":"@, s2, top);
    lemma_field(",\"max_layer\":"@, p.max_layer as nat, ",\"max_elements\":"@, s3, top);
    lemma_field(",\"max_elements\":"@, p.max_elements as nat, "}"@, rest, top);
    lemma_after("}"@, rest);
}

/// A written manifest is read back from its text.
pub proof fn lemma_fixed_round_trip(m: Manifest)
    ensures
        fixed_manifest(manifest_text(m)) == Some(m),
{
    lemma_separators();
    let s5 = generation_text(m.generation);
    let s4 = params_then(m.graph_params, s5);
    let s3 = "\",\"graph_params\":"@ + s4;
    let s2 = metric_name(m.metric) + s3;
    let s1 = decimal(m.dimension as nat) + (",\"metric\":\""@ + s2);
    lemma_field(
        "{\"format_version\":"@,
        m.format_version as nat,
        ",\"dimension\":"@,
        s1,
        u32::MAX as nat,
    );
    lemma_field(",\"dimension\":"@, m.dimension as nat, ",\"metric\":\""@, s2, usize::MAX as nat);
    lemma_after(",\"metric\":\""@, s2);
    lemma_leading_metric(m.metric, s3);
    lemma_after("\",\"graph_params\":"@, s4);
    lemma_leading_params(m.graph_params, s5);
    lemma_numbered(",\"generation\":"@, m.generation as nat, "}"@, u64::MAX as nat);
}

/// A written manifest is read back: from its text, and from the bytes of
/// its text.
pub proof fn law_manifest_round_trip(m: Manifest)
    ensures
        fixed_manifest(manifest_text(m)) == Some(m),
        manifest_in(encode_utf8(manifest_text(m))) == Ok::<Manifest, LoadError>(m),
{
    lemma_fixed_round_trip(m);
    encode_utf8_valid_utf8(manifest_text(m));
    encode_utf8_decode_utf8(manifest_text(m));
}

/// What is left of a text behind `lit`, where the text begins with it.
fn strip(v: &Vec<char>, lit: &str) -> (r: Option<Vec<char>>)
    ensures
        match r {
            Some(t) => after(v@, lit@) == Some(t@),
            None => after(v@, lit@) is None,
        },
{
    let p = chars_of(lit);
    if begins_with(v, &p) {
        Some(suffix(v, p.len()))
    } else {
        None
    }
}

/// Number of digits that a text begins with.
fn count_digits(v: &Vec<char>) -> (n: usize)
    ensures
        n == digit_run(v@),
        n <= v@.len(),
{
    let mut i: usize = 0;
    assert(v@.skip(0) =~= v@);
    while i < v.len()
        invariant
            i <= v.len(),
            digit_run(v@) == i + digit_run(v@.skip(i as int)),
        decreases v.len() - i,
    {
        proof {
            assert(v@.skip(i as int)[0] == v@[i as int]);
            assert(v@.skip(i as int).drop_first() =~= v@.skip(i as int + 1));
        }
        if digit_value(v[i]).is_none() {
            return i;
        }
        i += 1;
    }
    i
}

/// The number at the front of a text, and what is left behind it.
fn read_leading(v: &Vec<char>, max: u64) -> (r: Option<(u64, Vec<char>)>)
    ensures
        match r {
            Some(x) => leading_number(v@, max as nat) == Some((x.0 as nat, x.1@)),
            None => leading_number(v@, max as nat) is None,
        },
{
    let n = count_digits(v);
    match parse_natural(&prefix(v, n), max) {
        Some(value) => Some((value, suffix(v, n))),
        None => None,
    }
}

/// The number behind `lit` at the front of a text, and what is left behind
/// it.
fn read_numbered(v: &Vec<char>, lit: &str, max: u64) -> (r: Option<(u64, Vec<char>)>)
    ensures
        match r {
            Some(x) => numbered(v@, lit@, max as nat) == Some((x.0 as nat, x.1@)),
            None => numbered(v@, lit@, max as nat) is None,
        },
{
    match strip(v, lit) {
        Some(t) => read_leading(&t, max),
        None => None,
    }
}

/// The metric whose name stands at the front of a text, and what is left
/// behind it.
fn read_metric(v: &Vec<char>) -> (r: Option<(Distance, Vec<char>)>)
    ensures
        match r {
            Some(x) => leading_metric(v@) == Some((x.0, x.1@)),
            None => leading_metric(v@) is None,
        },
{
    if let Some(t) = strip(v, "cosine") {
        Some((Distance::Cosine, t))
    } else if let Some(t) = strip(v, "euclidean") {
        Some((Distance::Euclidean, t))
    } else if let Some(t) = strip(v, "dot") {
        Some((Distance::DotProduct, t))
    } else {
        None
    }
}

/// The graph parameters written at the front of a text, and what is left
/// behind them.
fn read_params(v: &Vec<char>) -> (r: Option<(GraphParams, Vec<char>)>)
    ensures
        match r {
            Some(x) => leading_params(v@) == Some((x.0, x.1@)),
            None => leading_params(v@) is None,
        },
{
    let top: u64 = usize::MAX as u64;
    let (m, rest) = match read_numbered(v, "{\"M\":", top) {
        Some(x) => x,
        None => {
            return None;
        },
    };
    let (ef, rest) = match read_numbered(&rest, ",\"ef_construction\":", top) {
        Some(x) => x,
        None => {
            return None;
        },
    };
    let (layer, rest) = match read_numbered(&rest, ",\"max_layer\":", top) {
        Some(x) => x,
        None => {
            return None;
        },
    };
    let (elements, rest) = match read_numbered(&rest, ",\"max_elements\":", top) {
        Some(x) => x,
        None => {
            return None;
        },
    };
    match strip(&rest, "}") {
        Some(rest) => Some(
            (
                GraphParams {
                    m: m as usize,
                    ef_construction: ef as usize,
                    max_layer: layer as usize,
                    max_elements: elements as usize,
                },
                rest,
            ),
        ),
        None => None,
    }
}

/// The manifest that a text in the written form holds.
pub fn parse_manifest(text: &str) -> (r: Option<Manifest>)
    ensures
        r == fixed_manifest(text@),
{
    let v = chars_of(text);
    let (version, rest) = match read_numbered(&v, "{\"format_version\":", u32::MAX as u64) {
        Some(x) => x,
        None => {
            return None;
        },
    };
    let (dimension, rest) = match read_numbered(&rest, ",\"dimension\":", usize::MAX as u64) {
        Some(x) => x,
        None => {
            return None;
        },
    };
    let rest = match strip(&rest, ",\"metric\":\"") {
        Some(x) => x,
        None => {
            return None;
        },
    };
    let (metric, rest) = match read_metric(&rest) {
        Some(x) => x,
        None => {
            return None;
        },
    };
    let rest = match strip(&rest, "\",\"graph_params\":") {
        Some(x) => x,
        None => {
            return None;
        },
    };
    let (params, rest) = match read_params(&rest) {
        Some(x) => x,
        None => {
            return None;
        },
    };
    let (generation, rest) = match read_numbered(&rest, ",\"generation\":", u64::MAX) {
        Some(x) => x,
        None => {
            return None;
        },
    };
    if !text_is(string_of(&rest).as_str(), "}") {
        return None;
    }
    Some(
        Manifest {
            format_version: version as u32,
            dimension: dimension as usize,
            metric,
            graph_params: params,
            generation,
        },
    )
}

/// Reads the bytes of a manifest file: in the written form, or else as a
/// JSON document. Bytes that hold no manifest either way are refused.
pub fn read_manifest(text: &[u8]) -> (r: Result<Manifest, LoadError>)
    ensures
        r == manifest_in(text@),
{
    if let Some(s) = string_from_utf8(copy_bytes(text)) {
        if let Some(m) = parse_manifest(s.as_str()) {
            return Ok(m);
        }
    }
    match parse_json(text) {
        Ok(v) => match manifest_from(&v) {
            Some(m) => Ok(m),
            None => Err(LoadError::CorruptManifest),
        },
        Err(_) => Err(LoadError::CorruptManifest),
    }
}

} // verus!
