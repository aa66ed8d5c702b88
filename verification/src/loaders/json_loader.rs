//! Loader for JSON files.
//!
//! The file is parsed by `serde_json`. The loader turns the document into
//! text: the texts of its values, line by line, or the document printed
//! anew.

use vstd::prelude::*;
use vstd::utf8::encode_utf8;
use crate::document::{check_size, size_ok, Document, LoaderError, LoaderOptions};
use crate::text::{chars_of, join, join_chars, string_of, str_views, views};
use crate::value::{
    fields_view, find_member, json_error, json_parse, json_pretty, member_at, parse_json, pretty_json,
    Json, JsonValue,
};

verus! {

/// The text of a value. A string is its text, a number and a boolean are
/// written out, null is nothing. An array is the texts of its elements,
/// line by line. An object is the texts of the values of its fields, line
/// by line: of the wanted fields that it has, in the order in which they
/// are wanted, or of all its fields where none are wanted.
pub open spec fn json_text(wanted: Option<Seq<Seq<char>>>, v: Json) -> Seq<char>
    decreases v, 1nat,
{
    match v {
        Json::Text(s) => s,
        Json::Number(_, t) => t,
        Json::Bool(b) => if b {
            "true"@
        } else {
            "false"@
        },
        Json::Null => Seq::empty(),
        Json::Array(items) => join(item_texts(wanted, items), seq!['\n']),
        Json::Object(fields) => match wanted {
            Some(w) => join(wanted_texts(wanted, fields, w, w.len()), seq!['\n']),
            None => join(field_texts(wanted, fields), seq!['\n']),
        },
    }
}

/// The texts of the elements of an array.
pub open spec fn item_texts(wanted: Option<Seq<Seq<char>>>, items: Seq<Json>) -> Seq<Seq<char>>
    decreases items, 0nat,
{
    Seq::new(
        items.len(),
        |i: int|
            if 0 <= i < items.len() {
                json_text(wanted, items[i])
            } else {
                Seq::empty()
            },
    )
}

/// The texts of the values of all the fields of an object.
pub open spec fn field_texts(wanted: Option<Seq<Seq<char>>>, fields: Seq<(Seq<char>, Json)>) -> Seq<
    Seq<char>,
>
    decreases fields, 0nat,
{
    Seq::new(
        fields.len(),
        |i: int|
            if 0 <= i < fields.len() {
                json_text(wanted, fields[i].1)
            } else {
                Seq::empty()
            },
    )
}

/// The texts of the values of the first `n` wanted fields that the object
/// has.
pub open spec fn wanted_texts(
    wanted: Option<Seq<Seq<char>>>,
    fields: Seq<(Seq<char>, Json)>,
    names: Seq<Seq<char>>,
    n: nat,
) -> Seq<Seq<char>>
    decreases fields, 0nat, n,
{
    if n == 0 || n > names.len() {
        Seq::empty()
    } else {
        let rest = wanted_texts(wanted, fields, names, (n - 1) as nat);
        let at = member_at(fields, names[n - 1]);
        if 0 <= at < fields.len() {
            rest.push(json_text(wanted, fields[at].1))
        } else {
            rest
        }
    }
}

/// What a JSON loader holds.
pub struct JsonLoaderModel {
    pub pretty: bool,
    pub extract_fields: Option<Seq<Seq<char>>>,
}

/// Loader for JSON files.
#[derive(Debug)]
pub struct JsonLoader {
    /// Whether the document is printed anew instead of being turned into
    /// lines of text.
    pub pretty: bool,
    /// The fields of objects to extract; all where none are named.
    pub extract_fields: Option<Vec<String>>,
}

impl View for JsonLoader {
    type V = JsonLoaderModel;

    open spec fn view(&self) -> JsonLoaderModel {
        JsonLoaderModel {
            pretty: self.pretty,
            extract_fields: match self.extract_fields {
                Some(f) => Some(str_views(f@)),
                None => None,
            },
        }
    }
}

/// What the loader records of a file: the format, and the fields that were
/// wanted where some were.
pub open spec fn json_metadata(l: JsonLoaderModel) -> Map<Seq<char>, Seq<char>> {
    let base = Map::<Seq<char>, Seq<char>>::empty().insert("format"@, "json"@);
    match l.extract_fields {
        Some(f) => base.insert("extracted_fields"@, join(f, seq![','])),
        None => base,
    }
}

impl JsonLoader {
    /// A loader that turns documents into lines of text, of all fields.
    pub fn new() -> (l: JsonLoader)
        ensures
            l@ == (JsonLoaderModel { pretty: false, extract_fields: None }),
    {
        JsonLoader { pretty: false, extract_fields: None }
    }

    /// Prints documents anew.
    pub fn with_pretty(self) -> (l: JsonLoader)
        ensures
            l@ == (JsonLoaderModel { pretty: true, ..self@ }),
    {
        JsonLoader { pretty: true, extract_fields: self.extract_fields }
    }

    /// Names the fields of objects to extract.
    pub fn with_fields(self, fields: Vec<String>) -> (l: JsonLoader)
        ensures
            l@ == (JsonLoaderModel { extract_fields: Some(str_views(fields@)), ..self@ }),
    {
        JsonLoader { pretty: self.pretty, extract_fields: Some(fields) }
    }

    /// The text of a value.
    #[verifier::loop_isolation(false)]
    pub fn extract_text(&self, value: &JsonValue) -> (r: String)
        ensures
            r@ == json_text(self@.extract_fields, value@),
        decreases value,
    {
        let newline = chars_of("\n");
        proof {
            reveal_strlit("\n");
            assert(newline@ =~= seq!['\n']);
        }
        let ghost wanted = self@.extract_fields;
        match value {
            JsonValue::Text(s) => s.clone(),
            JsonValue::Number(_, t) => t.clone(),
            JsonValue::Bool(b) => if *b {
                "true".to_owned()
            } else {
                "false".to_owned()
            },
            JsonValue::Null => String::new(),
            JsonValue::Array(items) => {
                let mut texts: Vec<Vec<char>> = Vec::new();
                let mut i: usize = 0;
                while i < items.len()
                    invariant
                        i <= items.len(),
                        texts@.len() == i,
                        forall|k: int| 0 <= k < i ==> (#[trigger] texts@[k])@ == json_text(wanted, items@[k]@),
                    decreases items.len() - i,
                {
                    let t = self.extract_text(&items[i]);
                    texts.push(chars_of(t.as_str()));
                    i += 1;
                }
                assert(views(texts@) =~= item_texts(wanted, value@->Array_0));
                string_of(&join_chars(&texts, &newline))
            },
            JsonValue::Object(fields) => {
                let ghost fs = value@->Object_0;
                assert(fs =~= fields_view(fields@));
                let mut texts: Vec<Vec<char>> = Vec::new();
                match &self.extract_fields {
                    Some(names) => {
                        let ghost w = str_views(names@);
                        let mut i: usize = 0;
                        assert(views(texts@) =~= Seq::<Seq<char>>::empty());
                        while i < names.len()
                            invariant
                                i <= names.len(),
                                views(texts@) == wanted_texts(wanted, fs, w, i as nat),
                            decreases names.len() - i,
                        {
                            match find_member(fields, names[i].as_str()) {
                                Some(at) => {
                                    let ghost texts0 = texts@;
                                    let t = chars_of(self.extract_text(&fields[at].1).as_str());
                                    texts.push(t);
                                    assert(views(texts@) =~= views(texts0).push(t@));
                                },
                                None => {},
                            }
                            i += 1;
                        }
                    },
                    None => {
                        let mut i: usize = 0;
                        while i < fields.len()
                            invariant
                                i <= fields.len(),
                                texts@.len() == i,
                                forall|k: int|
                                    0 <= k < i ==> (#[trigger] texts@[k])@ == json_text(wanted, fields@[k].1@),
                            decreases fields.len() - i,
                        {
                            let t = self.extract_text(&fields[i].1);
                            texts.push(chars_of(t.as_str()));
                            i += 1;
                        }
                        assert(views(texts@) =~= field_texts(wanted, fs));
                    },
                }
                string_of(&join_chars(&texts, &newline))
            },
        }
    }

    /// The text of a document: what it is printed as anew, or the lines of
    /// its values; or the message of the parser.
    pub open spec fn spec_content(l: JsonLoaderModel, content: Seq<char>) -> Result<Seq<char>, Seq<char>> {
        let bytes = encode_utf8(content);
        match json_parse(bytes) {
            None => Err(json_error(bytes)),
            Some(v) => if l.pretty {
                json_pretty(bytes)
            } else {
                Ok(json_text(l.extract_fields, v))
            },
        }
    }

    /// Loads a JSON file from its content. Content that is no JSON document
    /// is reported with the message of the parser.
    pub fn load(&self, source: &str, content: &str) -> (r: Result<Document, LoaderError>)
        ensures
            match Self::spec_content(self@, content@) {
                Ok(text) => r is Ok && r->Ok_0@.source == source@ && r->Ok_0@.content == text
                    && r->Ok_0@.metadata == json_metadata(self@),
                Err(e) => r is Err && r->Err_0 is ParseError && r->Err_0->ParseError_0@ == e,
            },
    {
        let bytes = content.as_bytes();
        let value = match parse_json(bytes) {
            Ok(v) => v,
            Err(e) => {
                return Err(LoaderError::ParseError(e));
            },
        };
        let text = if self.pretty {
            match pretty_json(bytes) {
                Ok(t) => t,
                Err(e) => {
                    return Err(LoaderError::ParseError(e));
                },
            }
        } else {
            self.extract_text(&value)
        };
        let mut document = Document::new(text, source.to_owned());
        document.add_metadata("format", "json");
        match &self.extract_fields {
            Some(f) => {
                let comma = chars_of(",");
                proof {
                    reveal_strlit(",");
                    assert(comma@ =~= seq![',']);
                }
                let names = crate::text::strings_as_chars(f);
                document.add_metadata(
                    "extracted_fields",
                    string_of(&join_chars(&names, &comma)).as_str(),
                );
            },
            None => {},
        }
        Ok(document)
    }

    /// Holds the file size against the limit of the options, then loads.
    pub fn load_with_options(
        &self,
        source: &str,
        content: &str,
        file_size: usize,
        options: &LoaderOptions,
    ) -> (r: Result<Document, LoaderError>)
        ensures
            !size_ok(file_size, options.max_size) ==> r is Err && r->Err_0 == LoaderError::FileTooLarge(
                file_size,
                options.max_size->Some_0,
            ),
            size_ok(file_size, options.max_size) ==> match Self::spec_content(self@, content@) {
                Ok(text) => r is Ok && r->Ok_0@.source == source@ && r->Ok_0@.content == text
                    && r->Ok_0@.metadata == json_metadata(self@),
                Err(e) => r is Err && r->Err_0 is ParseError && r->Err_0->ParseError_0@ == e,
            },
    {
        match check_size(file_size, options) {
            Ok(_) => self.load(source, content),
            Err(e) => Err(e),
        }
    }

    /// `JsonLoader`.
    pub fn name(&self) -> (n: &'static str)
        ensures
            n@ == "JsonLoader"@,
    {
        "JsonLoader"
    }

    /// `json`, `jsonl`, `ndjson`.
    pub fn supported_extensions(&self) -> (e: Vec<&'static str>)
        ensures
            e@.len() == 3,
            e@[0]@ == "json"@,
            e@[1]@ == "jsonl"@,
            e@[2]@ == "ndjson"@,
    {
        vec!["json", "jsonl", "ndjson"]
    }
}

} // verus!
