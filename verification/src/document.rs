//! Loaded documents, loader options and loader errors.

use vstd::prelude::*;
use crate::text::{chars_of, decimal, push_decimal, push_str, string_of, text_is};

verus! {

/// The map that a list of entries stands for: later entries win.
pub open spec fn entries_map(entries: Seq<(Seq<char>, Seq<char>)>) -> Map<Seq<char>, Seq<char>>
    decreases entries.len(),
{
    if entries.len() == 0 {
        Map::empty()
    } else {
        entries_map(entries.drop_last()).insert(entries.last().0, entries.last().1)
    }
}

/// A map from text to text. The entries are kept as a list, in the order
/// in which they were set, so that they are walked in the same order
/// every time; a later entry for a key holds over an earlier one.
#[derive(Debug)]
pub struct Metadata {
    entries: Vec<(String, String)>,
}

impl View for Metadata {
    type V = Map<Seq<char>, Seq<char>>;

    closed spec fn view(&self) -> Map<Seq<char>, Seq<char>> {
        entries_map(self.entries@.map_values(|e: (String, String)| (e.0@, e.1@)))
    }
}

impl Metadata {
    /// An empty map.
    pub fn new() -> (m: Metadata)
        ensures
            m@ == Map::<Seq<char>, Seq<char>>::empty(),
    {
        let m = Metadata { entries: Vec::new() };
        assert(m.entries@.map_values(|e: (String, String)| (e.0@, e.1@)) =~= Seq::empty());
        m
    }

    /// Sets `key` to `value`, replacing what it had.
    pub fn insert(&mut self, key: String, value: String)
        ensures
            final(self)@ == old(self)@.insert(key@, value@),
    {
        let ghost before = self.entries@.map_values(|e: (String, String)| (e.0@, e.1@));
        self.entries.push((key, value));
        let ghost after = self.entries@.map_values(|e: (String, String)| (e.0@, e.1@));
        assert(after.drop_last() =~= before);
        assert(after.last() == (key@, value@));
    }

    /// Sets `key` to `value`, replacing what it had.
    pub fn set(&mut self, key: &str, value: &str)
        ensures
            final(self)@ == old(self)@.insert(key@, value@),
    {
        self.insert(key.to_owned(), value.to_owned());
    }

    /// The value of `key`, if it has one.
    pub fn get(&self, key: &str) -> (r: Option<&String>)
        ensures
            r is Some <==> self@.contains_key(key@),
            r is Some ==> r->Some_0@ == self@[key@],
    {
        let ghost all = self.entries@.map_values(|e: (String, String)| (e.0@, e.1@));
        let mut i: usize = self.entries.len();
        assert(all.take(i as int) =~= all);
        while i > 0
            invariant
                i <= self.entries@.len(),
                all == self.entries@.map_values(|e: (String, String)| (e.0@, e.1@)),
                entries_map(all).contains_key(key@) == entries_map(all.take(i as int)).contains_key(
                    key@,
                ),
                entries_map(all).contains_key(key@) ==> entries_map(all)[key@] == entries_map(
                    all.take(i as int),
                )[key@],
            decreases i,
        {
            proof {
                assert(all.take(i as int).drop_last() =~= all.take(i as int - 1));
                assert(all.take(i as int).last() == all[i as int - 1]);
            }
            i -= 1;
            if text_is(self.entries[i].0.as_str(), key) {
                return Some(&self.entries[i].1);
            }
        }
        assert(all.take(0) =~= Seq::empty());
        None
    }

    /// Whether `key` has a value.
    pub fn contains_key(&self, key: &str) -> (b: bool)
        ensures
            b == self@.contains_key(key@),
    {
        self.get(key).is_some()
    }

    /// Whether no key has a value.
    pub fn is_empty(&self) -> (b: bool)
        ensures
            b == (self@ == Map::<Seq<char>, Seq<char>>::empty()),
    {
        let ghost all = self.entries@.map_values(|e: (String, String)| (e.0@, e.1@));
        if self.entries.len() == 0 {
            assert(all =~= Seq::empty());
            true
        } else {
            assert(entries_map(all).contains_key(all.last().0));
            false
        }
    }

    /// The entries in the order in which they were set; where a key stands
    /// more than once, its last entry holds.
    pub fn entries(&self) -> (out: &Vec<(String, String)>)
        ensures
            entries_map(out@.map_values(|e: (String, String)| (e.0@, e.1@))) == self@,
    {
        &self.entries
    }
}

/// What a document holds.
pub struct DocumentModel {
    pub content: Seq<char>,
    pub source: Seq<char>,
    pub metadata: Map<Seq<char>, Seq<char>>,
}

/// A loaded document: its text, where it came from, and what is known
/// about it.
#[derive(Debug)]
pub struct Document {
    /// The text of the document.
    pub content: String,
    /// File path, URL or other name of the source.
    pub source: String,
    pub metadata: Metadata,
}

impl View for Document {
    type V = DocumentModel;

    open spec fn view(&self) -> DocumentModel {
        DocumentModel { content: self.content@, source: self.source@, metadata: self.metadata@ }
    }
}

impl Document {
    /// A document without metadata.
    pub fn new(content: String, source: String) -> (d: Document)
        ensures
            d@ == (DocumentModel { content: content@, source: source@, metadata: Map::empty() }),
    {
        Document { content, source, metadata: Metadata::new() }
    }

    /// A document with the given metadata.
    pub fn with_metadata(content: String, source: String, metadata: Metadata) -> (d: Document)
        ensures
            d@ == (DocumentModel { content: content@, source: source@, metadata: metadata@ }),
    {
        Document { content, source, metadata }
    }

    /// Sets one metadata key.
    pub fn add_metadata(&mut self, key: &str, value: &str)
        ensures
            final(self)@ == (DocumentModel {
                metadata: old(self)@.metadata.insert(key@, value@),
                ..old(self)@
            }),
    {
        self.metadata.insert(string_of(&chars_of(key)), string_of(&chars_of(value)));
    }

    /// Length of the content in bytes.
    pub fn len(&self) -> (n: usize)
        ensures
            n as nat == vstd::utf8::encode_utf8(self.content@).len(),
    {
        self.content.as_str().as_bytes().len()
    }

    /// Whether the content is empty.
    pub fn is_empty(&self) -> (b: bool)
        ensures
            b == (self.content@.len() == 0),
    {
        self.content.as_str().is_empty()
    }
}

/// What loader options hold.
pub struct OptionsModel {
    pub encoding: Option<Seq<char>>,
    pub max_size: Option<usize>,
    pub include_metadata: bool,
    pub custom: Map<Seq<char>, Seq<char>>,
}

/// Options for loading a document.
#[derive(Debug)]
pub struct LoaderOptions {
    /// Text encoding; UTF-8 where none is named.
    pub encoding: Option<String>,
    /// Largest file accepted, in bytes; no limit where none is named.
    pub max_size: Option<usize>,
    /// Whether to record what is known about the file.
    pub include_metadata: bool,
    /// Options of single loaders.
    pub custom: Metadata,
}

impl View for LoaderOptions {
    type V = OptionsModel;

    open spec fn view(&self) -> OptionsModel {
        OptionsModel {
            encoding: match self.encoding {
                Some(e) => Some(e@),
                None => None,
            },
            max_size: self.max_size,
            include_metadata: self.include_metadata,
            custom: self.custom@,
        }
    }
}

impl LoaderOptions {
    /// No encoding, no size limit, no metadata, no custom options.
    pub fn new() -> (o: LoaderOptions)
        ensures
            o@ == (OptionsModel {
                encoding: None,
                max_size: None,
                include_metadata: false,
                custom: Map::empty(),
            }),
    {
        LoaderOptions { encoding: None, max_size: None, include_metadata: false, custom: Metadata::new() }
    }

    /// Names the encoding.
    pub fn with_encoding(self, encoding: &str) -> (o: LoaderOptions)
        ensures
            o@ == (OptionsModel { encoding: Some(encoding@), ..self@ }),
    {
        let mut o = self;
        o.encoding = Some(string_of(&chars_of(encoding)));
        o
    }

    /// Limits the file size.
    pub fn with_max_size(self, max_size: usize) -> (o: LoaderOptions)
        ensures
            o@ == (OptionsModel { max_size: Some(max_size), ..self@ }),
    {
        let mut o = self;
        o.max_size = Some(max_size);
        o
    }

    /// Asks for metadata.
    pub fn with_metadata(self) -> (o: LoaderOptions)
        ensures
            o@ == (OptionsModel { include_metadata: true, ..self@ }),
    {
        let mut o = self;
        o.include_metadata = true;
        o
    }

    /// Sets one custom option.
    pub fn with_custom(self, key: &str, value: &str) -> (o: LoaderOptions)
        ensures
            o@ == (OptionsModel { custom: self@.custom.insert(key@, value@), ..self@ }),
    {
        let mut o = self;
        o.custom.insert(string_of(&chars_of(key)), string_of(&chars_of(value)));
        o
    }
}

/// Why a document was not loaded.
#[derive(Debug)]
pub enum LoaderError {
    /// Reading failed.
    Io(String),
    /// The path or source is not usable.
    InvalidPath(String),
    /// The content is not of the expected format.
    ParseError(String),
    /// The format is not supported.
    UnsupportedFormat(String),
    /// The file has more bytes than the limit allows: size, then limit.
    FileTooLarge(usize, usize),
    /// The bytes are not text in the encoding.
    EncodingError(String),
    /// The network request failed.
    NetworkError(String),
    /// The PDF could not be read.
    PdfError(String),
    /// Anything else.
    Other(String),
}

/// The text of a size complaint.
pub open spec fn too_large_message(size: nat, max: nat) -> Seq<char> {
    "File too large: "@ + decimal(size) + " bytes (max: "@ + decimal(max) + ")"@
}

impl LoaderError {
    /// The message of each error.
    pub open spec fn spec_message(self) -> Seq<char> {
        match self {
            LoaderError::Io(s) => "I/O error: "@ + s@,
            LoaderError::InvalidPath(s) => "Invalid path: "@ + s@,
            LoaderError::ParseError(s) => "Parse error: "@ + s@,
            LoaderError::UnsupportedFormat(s) => "Unsupported format: "@ + s@,
            LoaderError::FileTooLarge(size, max) => too_large_message(size as nat, max as nat),
            LoaderError::EncodingError(s) => "Encoding error: "@ + s@,
            LoaderError::NetworkError(s) => "Network error: "@ + s@,
            LoaderError::PdfError(s) => "PDF error: "@ + s@,
            LoaderError::Other(s) => "Error: "@ + s@,
        }
    }

    /// The error as a line of text.
    pub fn message(&self) -> (s: String)
        ensures
            s@ == self.spec_message(),
    {
        let mut out: Vec<char> = Vec::new();
        match self {
            LoaderError::Io(s) => {
                push_str(&mut out, "I/O error: ");
                push_str(&mut out, s.as_str());
            },
            LoaderError::InvalidPath(s) => {
                push_str(&mut out, "Invalid path: ");
                push_str(&mut out, s.as_str());
            },
            LoaderError::ParseError(s) => {
                push_str(&mut out, "Parse error: ");
                push_str(&mut out, s.as_str());
            },
            LoaderError::UnsupportedFormat(s) => {
                push_str(&mut out, "Unsupported format: ");
                push_str(&mut out, s.as_str());
            },
            LoaderError::FileTooLarge(size, max) => {
                push_str(&mut out, "File too large: ");
                push_decimal(&mut out, *size);
                push_str(&mut out, " bytes (max: ");
                push_decimal(&mut out, *max);
                push_str(&mut out, ")");
            },
            LoaderError::EncodingError(s) => {
                push_str(&mut out, "Encoding error: ");
                push_str(&mut out, s.as_str());
            },
            LoaderError::NetworkError(s) => {
                push_str(&mut out, "Network error: ");
                push_str(&mut out, s.as_str());
            },
            LoaderError::PdfError(s) => {
                push_str(&mut out, "PDF error: ");
                push_str(&mut out, s.as_str());
            },
            LoaderError::Other(s) => {
                push_str(&mut out, "Error: ");
                push_str(&mut out, s.as_str());
            },
        }
        assert(out@ =~= self.spec_message());
        string_of(&out)
    }
}

/// A file of `size` bytes passes the limit of the options.
pub open spec fn size_ok(size: usize, max_size: Option<usize>) -> bool {
    max_size is Some ==> size <= max_size->Some_0
}

/// Holds a file size against the limit of the options.
pub fn check_size(size: usize, options: &LoaderOptions) -> (r: Result<(), LoaderError>)
    ensures
        r is Ok <==> size_ok(size, options.max_size),
        r is Err ==> r->Err_0 == LoaderError::FileTooLarge(size, options.max_size->Some_0),
{
    match options.max_size {
        Some(max) => {
            if size > max {
                Err(LoaderError::FileTooLarge(size, max))
            } else {
                Ok(())
            }
        },
        None => Ok(()),
    }
}

} // verus!
