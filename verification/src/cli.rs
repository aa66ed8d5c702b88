//! What the command line reads: formats, lists of identifiers, and the
//! commands themselves as plain values.

use vstd::prelude::*;
use vstd::utf8::encode_utf8;
use crate::filter::FilterExpr;
use crate::text::{
    before_char, chars_of, cut_at, extension, extension_of, lemma_before_char_prefix, lowercase,
    push_str, split_chars, split_on, string_of, str_views, suffix, text_is, to_lower, trim,
    trim_chars, views,
};
use crate::value::{fields_view, json_parse, parse_json, Json, JsonValue};

verus! {

/// How results are printed.
#[derive(Debug, Clone, Copy, PartialEq, Eq, Structural)]
pub enum OutputFormat {
    Json,
    Table,
    Simple,
}

/// The format of a file to import.
#[derive(Debug, Clone, Copy, PartialEq, Eq, Structural)]
pub enum ImportFormat {
    Json,
    Jsonl,
    Csv,
    /// Told by the extension of the file.
    Auto,
}

/// The format of a file to export.
#[derive(Debug, Clone, Copy, PartialEq, Eq, Structural)]
pub enum ExportFormat {
    Json,
    Jsonl,
    Csv,
}

/// The message for a name that names no format.
pub open spec fn format_message(given: Seq<char>, choices: Seq<char>) -> Seq<char> {
    "Invalid format: "@ + given + ". Use "@ + choices
}

/// The message for a name that names no format.
pub fn invalid_format(given: &str, choices: &str) -> (m: String)
    ensures
        m@ == format_message(given@, choices@),
{
    let mut out: Vec<char> = Vec::new();
    push_str(&mut out, "Invalid format: ");
    push_str(&mut out, given);
    push_str(&mut out, ". Use ");
    push_str(&mut out, choices);
    string_of(&out)
}

impl OutputFormat {
    /// The format that a name, in lower case, names.
    pub open spec fn named(lower: Seq<char>) -> Option<OutputFormat> {
        if lower == "json"@ {
            Some(OutputFormat::Json)
        } else if lower == "table"@ {
            Some(OutputFormat::Table)
        } else if lower == "simple"@ {
            Some(OutputFormat::Simple)
        } else {
            None
        }
    }

    /// Reads a format by its name, in any case of letters.
    pub fn parse(s: &str) -> (r: Result<OutputFormat, String>)
        ensures
            match Self::named(lowercase(s@)) {
                Some(f) => r == Ok::<OutputFormat, String>(f),
                None => r is Err && r->Err_0@ == format_message(s@, "json, table, or simple"@),
            },
    {
        let lower = to_lower(s);
        if text_is(lower.as_str(), "json") {
            Ok(OutputFormat::Json)
        } else if text_is(lower.as_str(), "table") {
            Ok(OutputFormat::Table)
        } else if text_is(lower.as_str(), "simple") {
            Ok(OutputFormat::Simple)
        } else {
            Err(invalid_format(s, "json, table, or simple"))
        }
    }
}

impl std::str::FromStr for OutputFormat {
    type Err = String;

    /// Reads a format by its name, as [`OutputFormat::parse`] does.
    fn from_str(s: &str) -> (r: Result<Self, Self::Err>)
        ensures
            match OutputFormat::named(lowercase(s@)) {
                Some(f) => r == Ok::<OutputFormat, String>(f),
                None => r is Err && r->Err_0@ == format_message(s@, "json, table, or simple"@),
            },
    {
        OutputFormat::parse(s)
    }
}

impl ImportFormat {
    /// The format that a name, in lower case, names.
    pub open spec fn named(lower: Seq<char>) -> Option<ImportFormat> {
        if lower == "json"@ {
            Some(ImportFormat::Json)
        } else if lower == "jsonl"@ {
            Some(ImportFormat::Jsonl)
        } else if lower == "csv"@ {
            Some(ImportFormat::Csv)
        } else if lower == "auto"@ {
            Some(ImportFormat::Auto)
        } else {
            None
        }
    }

    /// Reads a format by its name, in any case of letters.
    pub fn parse(s: &str) -> (r: Result<ImportFormat, String>)
        ensures
            match Self::named(lowercase(s@)) {
                Some(f) => r == Ok::<ImportFormat, String>(f),
                None => r is Err && r->Err_0@ == format_message(s@, "json, jsonl, csv, or auto"@),
            },
    {
        let lower = to_lower(s);
        if text_is(lower.as_str(), "json") {
            Ok(ImportFormat::Json)
        } else if text_is(lower.as_str(), "jsonl") {
            Ok(ImportFormat::Jsonl)
        } else if text_is(lower.as_str(), "csv") {
            Ok(ImportFormat::Csv)
        } else if text_is(lower.as_str(), "auto") {
            Ok(ImportFormat::Auto)
        } else {
            Err(invalid_format(s, "json, jsonl, csv, or auto"))
        }
    }

    /// The format that the extension of a file tells.
    pub open spec fn of_extension(ext: Option<Seq<char>>) -> Option<ImportFormat> {
        match ext {
            Some(e) => if e == "json"@ {
                Some(ImportFormat::Json)
            } else if e == "jsonl"@ || e == "ndjson"@ {
                Some(ImportFormat::Jsonl)
            } else if e == "csv"@ {
                Some(ImportFormat::Csv)
            } else {
                None
            },
            None => None,
        }
    }

    /// The format to import a file in: the one that was asked for, or,
    /// where that is left to the file, the one that its extension tells.
    /// Nothing where the extension tells none.
    pub fn resolve(self, path: &str) -> (r: Option<ImportFormat>)
        ensures
            r == if self == ImportFormat::Auto {
                Self::of_extension(extension_of(path@))
            } else {
                Some(self)
            },
    {
        match self {
            ImportFormat::Auto => match extension(&chars_of(path)) {
                Some(e) => {
                    let ext = string_of(&e);
                    if text_is(ext.as_str(), "json") {
                        Some(ImportFormat::Json)
                    } else if text_is(ext.as_str(), "jsonl") || text_is(ext.as_str(), "ndjson") {
                        Some(ImportFormat::Jsonl)
                    } else if text_is(ext.as_str(), "csv") {
                        Some(ImportFormat::Csv)
                    } else {
                        None
                    }
                },
                None => None,
            },
            ImportFormat::Json => Some(ImportFormat::Json),
            ImportFormat::Jsonl => Some(ImportFormat::Jsonl),
            ImportFormat::Csv => Some(ImportFormat::Csv),
        }
    }
}

impl std::str::FromStr for ImportFormat {
    type Err = String;

    /// Reads a format by its name, as [`ImportFormat::parse`] does.
    fn from_str(s: &str) -> (r: Result<Self, Self::Err>)
        ensures
            match ImportFormat::named(lowercase(s@)) {
                Some(f) => r == Ok::<ImportFormat, String>(f),
                None => r is Err && r->Err_0@ == format_message(s@, "json, jsonl, csv, or auto"@),
            },
    {
        ImportFormat::parse(s)
    }
}

impl ExportFormat {
    /// The format that a name, in lower case, names.
    pub open spec fn named(lower: Seq<char>) -> Option<ExportFormat> {
        if lower == "json"@ {
            Some(ExportFormat::Json)
        } else if lower == "jsonl"@ {
            Some(ExportFormat::Jsonl)
        } else if lower == "csv"@ {
            Some(ExportFormat::Csv)
        } else {
            None
        }
    }

    /// Reads a format by its name, in any case of letters.
    pub fn parse(s: &str) -> (r: Result<ExportFormat, String>)
        ensures
            match Self::named(lowercase(s@)) {
                Some(f) => r == Ok::<ExportFormat, String>(f),
                None => r is Err && r->Err_0@ == format_message(s@, "json, jsonl, or csv"@),
            },
    {
        let lower = to_lower(s);
        if text_is(lower.as_str(), "json") {
            Ok(ExportFormat::Json)
        } else if text_is(lower.as_str(), "jsonl") {
            Ok(ExportFormat::Jsonl)
        } else if text_is(lower.as_str(), "csv") {
            Ok(ExportFormat::Csv)
        } else {
            Err(invalid_format(s, "json, jsonl, or csv"))
        }
    }
}

impl std::str::FromStr for ExportFormat {
    type Err = String;

    /// Reads a format by its name, as [`ExportFormat::parse`] does.
    fn from_str(s: &str) -> (r: Result<Self, Self::Err>)
        ensures
            match ExportFormat::named(lowercase(s@)) {
                Some(f) => r == Ok::<ExportFormat, String>(f),
                None => r is Err && r->Err_0@ == format_message(s@, "json, jsonl, or csv"@),
            },
    {
        ExportFormat::parse(s)
    }
}

/// The pieces of a comma-separated list, each trimmed.
pub open spec fn id_list(s: Seq<char>) -> Seq<Seq<char>> {
    split_on(s, ',').map_values(|p: Seq<char>| trim(p))
}

/// Reads a comma-separated list of identifiers; whitespace around each is
/// dropped.
pub fn parse_ids(s: &str) -> (ids: Vec<String>)
    ensures
        str_views(ids@) == id_list(s@),
{
    let pieces = split_chars(&chars_of(s), ',');
    let mut ids: Vec<String> = Vec::new();
    let mut i: usize = 0;
    while i < pieces.len()
        invariant
            i <= pieces.len(),
            ids@.len() == i,
            forall|k: int| 0 <= k < i ==> (#[trigger] ids@[k])@ == trim(pieces@[k]@),
        decreases pieces.len() - i,
    {
        ids.push(string_of(&trim_chars(&pieces[i])));
        i += 1;
    }
    assert(str_views(ids@) =~= views(pieces@).map_values(|p: Seq<char>| trim(p)));
    ids
}

/// What a delete command is to delete.
#[derive(Debug)]
pub enum DeleteTarget {
    /// These identifiers.
    Ids(Vec<String>),
    /// What this filter matches.
    Filter(String),
}

/// What a delete command names: the identifiers where it names any, else
/// the filter. A command that names neither is refused.
pub fn delete_target(ids: Option<&str>, filter: Option<&str>) -> (r: Result<DeleteTarget, String>)
    ensures
        match (ids, filter) {
            (Some(list), _) => r is Ok && r->Ok_0 is Ids && str_views(r->Ok_0->Ids_0@) == id_list(list@),
            (None, Some(f)) => r is Ok && r->Ok_0 is Filter && r->Ok_0->Filter_0@ == f@,
            (None, None) => r is Err && r->Err_0@ == "Must specify either --ids or --filter"@,
        },
{
    match ids {
        Some(list) => Ok(DeleteTarget::Ids(parse_ids(list))),
        None => match filter {
            Some(f) => Ok(DeleteTarget::Filter(f.to_owned())),
            None => Err("Must specify either --ids or --filter".to_owned()),
        },
    }
}

/// A text without the quotes around it, where it stands between two.
pub open spec fn unquoted(t: Seq<char>) -> Seq<char> {
    if t.len() >= 2 && t[0] == '\'' && t.last() == '\'' {
        t.subrange(1, t.len() - 1)
    } else {
        t
    }
}

/// The field and the value of a text of the form `field=value`: what
/// stands before the first `=` and what stands behind it, both without the
/// whitespace around them, the value without the quotes around it. A text
/// without `=` is none.
pub open spec fn assignment(s: Seq<char>) -> Option<(Seq<char>, Seq<char>)> {
    let head = before_char(s, '=');
    if head.len() < s.len() {
        Some((trim(head), unquoted(trim(s.skip(head.len() as int + 1)))))
    } else {
        None
    }
}

/// `e` holds where each field of the object equals its value.
pub open spec fn equalities(e: FilterExpr, fields: Seq<(Seq<char>, Json)>) -> bool {
    e is And && e->And_0@.len() == fields.len() && forall|i: int|
        0 <= i < fields.len() ==> {
            let t = #[trigger] e->And_0@[i];
            t is Eq && t->Eq_0@ == fields[i].0 && t->Eq_1@ == fields[i].1
        }
}

/// `r` is the filter that a text of the command line stands for, where
/// `parsed` is what the text is as JSON. An object stands for the
/// equalities of its fields. Any other text stands for one equality with a
/// text, where it has the form `field=value`, and for no filter where it
/// has not.
pub open spec fn reads_as(s: Seq<char>, parsed: Option<Json>, r: Option<FilterExpr>) -> bool {
    if parsed is Some && parsed->Some_0 is Object {
        r is Some && equalities(r->Some_0, parsed->Some_0->Object_0)
    } else {
        match assignment(s) {
            Some(a) => r is Some && r->Some_0 is Eq && r->Some_0->Eq_0@ == a.0 && r->Some_0->Eq_1@
                == Json::Text(a.1),
            None => r is None,
        }
    }
}

/// Removes the quotes around a text that stands between two.
fn unquote(v: &Vec<char>) -> (out: Vec<char>)
    ensures
        out@ == unquoted(v@),
{
    let n = v.len();
    if n >= 2 && v[0] == '\'' && v[n - 1] == '\'' {
        let mut out: Vec<char> = Vec::new();
        let mut i: usize = 1;
        while i < n - 1
            invariant
                n == v.len(),
                1 <= i <= n - 1,
                out@ == v@.subrange(1, i as int),
            decreases n - i,
        {
            out.push(v[i]);
            i += 1;
            assert(out@ =~= v@.subrange(1, i as int));
        }
        out
    } else {
        let out = suffix(v, 0);
        assert(v@.skip(0) =~= v@);
        out
    }
}

/// The equalities of the fields of an object.
fn field_equalities(fields: &Vec<(String, JsonValue)>) -> (e: FilterExpr)
    ensures
        equalities(e, fields_view(fields@)),
{
    let mut tests: Vec<FilterExpr> = Vec::new();
    let mut i: usize = 0;
    while i < fields.len()
        invariant
            i <= fields.len(),
            tests@.len() == i,
            forall|k: int|
                0 <= k < i ==> {
                    let t = #[trigger] tests@[k];
                    t is Eq && t->Eq_0@ == fields@[k].0@ && t->Eq_1@ == fields@[k].1@
                },
        decreases fields.len() - i,
    {
        tests.push(FilterExpr::Eq(fields[i].0.clone(), fields[i].1.copy()));
        i += 1;
    }
    FilterExpr::And(tests)
}

/// Reads a filter of the command line: a JSON object, whose fields are
/// to equal their values, or a text of the form `field=value`.
pub fn parse_filter(s: &str) -> (r: Option<FilterExpr>)
    ensures
        reads_as(s@, json_parse(encode_utf8(s@)), r),
{
    match parse_json(s.as_bytes()) {
        Ok(JsonValue::Object(fields)) => {
            let e = field_equalities(&fields);
            assert(json_parse(encode_utf8(s@))->Some_0->Object_0 =~= fields_view(fields@));
            return Some(e);
        },
        _ => {},
    }
    let v = chars_of(s);
    let head = cut_at(&v, '=');
    proof {
        lemma_before_char_prefix(v@, '=');
    }
    if head.len() == v.len() {
        return None;
    }
    let field = string_of(&trim_chars(&head));
    let value = string_of(&unquote(&trim_chars(&suffix(&v, head.len() + 1))));
    Some(FilterExpr::Eq(field, JsonValue::Text(value)))
}

/// The arguments of the command line.
#[derive(Debug)]
pub struct Cli {
    /// Path to the vector database.
    pub database: String,
    /// Whether to print more.
    pub verbose: bool,
    pub command: Commands,
}

/// The commands of the command line.
#[derive(Debug)]
#[allow(inconsistent_fields)]
pub enum Commands {
    /// Show information and statistics.
    Info { detailed: bool },
    /// Search for similar vectors.
    Query { vector: String, limit: usize, filter: Option<String>, format: OutputFormat },
    /// Insert a vector.
    Insert { id: String, vector: String, metadata: Option<String> },
    /// Delete vectors by identifier or by filter.
    Delete { ids: Option<String>, filter: Option<String>, yes: bool },
    /// Import vectors from a file.
    Import { file: String, format: ImportFormat, batch_size: usize, no_validate: bool },
    /// Export vectors to a file.
    Export { output: String, format: ExportFormat, filter: Option<String>, limit: Option<usize> },
    /// Check the health of the database.
    Health { detailed: bool, format: OutputFormat },
    /// Optimize the database.
    Optimize { compact: bool, rebuild_index: bool, analyze: bool },
    /// Run benchmarks.
    Benchmark { vectors: usize, dimensions: usize, queries: usize, format: OutputFormat },
    /// List vectors.
    List { filter: Option<String>, limit: usize, show_vectors: bool, format: OutputFormat },
    /// Create a collection.
    CreateCollection { name: String, dimensions: usize, metric: String },
    /// Drop a collection.
    DropCollection { name: String, yes: bool },
}

} // verus!
