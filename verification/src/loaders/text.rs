//! Loader for plain text.
//!
//! The bytes of the file are decoded by `encoding_rs`. The loader picks the
//! encoding and records what is known about the file.

use vstd::prelude::*;
use crate::document::{check_size, size_ok, Document, LoaderError, LoaderOptions};
use crate::loaders::common::{opt_view, with_field};
use crate::text::{
    chars_of, decimal, extension, extension_of, push_decimal, push_str, string_of,
};

verus! {

/// What `encoding_rs::Encoding::decode` makes of the bytes in the encoding
/// that `Encoding::for_label` finds for the label, or nothing where the
/// label names no encoding.
pub uninterp spec fn decoded(bytes: Seq<u8>, label: Seq<char>) -> Option<Seq<char>>;

/// What `encoding_rs::UTF_8.decode` makes of the bytes.
pub uninterp spec fn decoded_utf8(bytes: Seq<u8>) -> Seq<char>;

/// Most bytes that can be decoded: the decoder needs room for up to three
/// bytes of text for each byte of input, and a little more.
pub const MAX_DECODE_BYTES: usize = usize::MAX / 4;

/// Looks the label up with `encoding_rs::Encoding::for_label` and decodes
/// the bytes with `Encoding::decode`. Both read nothing but what they are
/// given, so the text is what [`decoded`] names.
#[verifier::external_body]
pub(crate) fn decode_as(bytes: &[u8], label: &str) -> (r: Option<String>)
    requires
        bytes@.len() <= MAX_DECODE_BYTES,
    ensures
        opt_view(r) == decoded(bytes@, label@),
{
    encoding_rs::Encoding::for_label(label.as_bytes()).map(|e| e.decode(bytes).0.into_owned())
}

/// Decodes the bytes as UTF-8 with `encoding_rs::UTF_8.decode`. The text is
/// what [`decoded_utf8`] names.
#[verifier::external_body]
pub(crate) fn decode_utf8(bytes: &[u8]) -> (r: String)
    requires
        bytes@.len() <= MAX_DECODE_BYTES,
    ensures
        r@ == decoded_utf8(bytes@),
{
    encoding_rs::UTF_8.decode(bytes).0.into_owned()
}

/// The text of the bytes in the named encoding, or in UTF-8 where the name
/// names no encoding.
pub open spec fn text_in(bytes: Seq<u8>, label: Seq<char>) -> Seq<char> {
    match decoded(bytes, label) {
        Some(t) => t,
        None => decoded_utf8(bytes),
    }
}

/// What is known of a file.
#[derive(Debug)]
pub struct FileInfo {
    /// The size in bytes, where the file system tells it.
    pub size: Option<usize>,
    /// When the file was last changed, in seconds since 1970, where the
    /// file system tells it.
    pub modified: Option<usize>,
}

/// What was found at a path.
#[derive(Debug)]
pub enum FileProbe {
    /// Nothing is there.
    Missing,
    /// Something is there that is no file.
    NotAFile,
    /// A file, with its bytes.
    File(Vec<u8>, FileInfo),
}

/// The decimal text of an optional number.
pub open spec fn opt_decimal(n: Option<usize>) -> Option<Seq<char>> {
    match n {
        Some(v) => Some(decimal(v as nat)),
        None => None,
    }
}

/// What the loader records of a file: its size, and the time of its last
/// change where the size is known; and its extension.
pub open spec fn file_metadata(source: Seq<char>, info: FileInfo) -> Map<Seq<char>, Seq<char>> {
    let sized = with_field(Map::empty(), "file_size"@, opt_decimal(info.size));
    let timed = if info.size is Some {
        with_field(sized, "modified_timestamp"@, opt_decimal(info.modified))
    } else {
        sized
    };
    with_field(timed, "extension"@, extension_of(source))
}

/// The extensions of the files that the text loader reads.
pub open spec fn text_extensions() -> Seq<Seq<char>> {
    seq![
        "txt"@,
        "text"@,
        "log"@,
        "md"@,
        "rst"@,
        "yaml"@,
        "yml"@,
        "toml"@,
        "ini"@,
        "cfg"@,
    ]
}

/// Loader for plain text files.
#[derive(Debug)]
pub struct TextLoader {
    /// The encoding that files are read in.
    pub default_encoding: String,
}

impl TextLoader {
    /// A loader for UTF-8.
    pub fn new() -> (l: TextLoader)
        ensures
            l.default_encoding@ == "utf-8"@,
    {
        TextLoader { default_encoding: "utf-8".to_owned() }
    }

    /// A loader for the named encoding.
    pub fn with_encoding(encoding: &str) -> (l: TextLoader)
        ensures
            l.default_encoding@ == encoding@,
    {
        TextLoader { default_encoding: encoding.to_owned() }
    }

    /// The text of the bytes in the named encoding, or in UTF-8 where the
    /// name names no encoding.
    pub fn load_with_encoding(&self, bytes: &[u8], encoding_name: &str) -> (r: String)
        requires
            bytes@.len() <= MAX_DECODE_BYTES,
        ensures
            r@ == text_in(bytes@, encoding_name@),
    {
        match decode_as(bytes, encoding_name) {
            Some(t) => t,
            None => decode_utf8(bytes),
        }
    }

    /// Records what is known of a file.
    fn record(document: &mut Document, source: &str, info: &FileInfo)
        ensures
            final(document)@.content == old(document)@.content,
            final(document)@.source == old(document)@.source,
            old(document)@.metadata == Map::<Seq<char>, Seq<char>>::empty()
                ==> final(document)@.metadata == file_metadata(source@, *info),
    {
        match info.size {
            Some(size) => {
                let mut n: Vec<char> = Vec::new();
                push_decimal(&mut n, size);
                assert(n@ =~= decimal(size as nat));
                document.add_metadata("file_size", string_of(&n).as_str());
                match info.modified {
                    Some(secs) => {
                        let mut t: Vec<char> = Vec::new();
                        push_decimal(&mut t, secs);
                        assert(t@ =~= decimal(secs as nat));
                        document.add_metadata("modified_timestamp", string_of(&t).as_str());
                    },
                    None => {},
                }
            },
            None => {},
        }
        match extension(&chars_of(source)) {
            Some(e) => {
                document.add_metadata("extension", string_of(&e).as_str());
            },
            None => {},
        }
    }

    /// Loads what was found at a path. Nothing, and something that is no
    /// file, are refused; a file is decoded in the encoding of the loader.
    pub fn load(&self, source: &str, found: &FileProbe) -> (r: Result<Document, LoaderError>)
        ensures
            match found {
                FileProbe::Missing => r is Err && r->Err_0 is InvalidPath && r->Err_0->InvalidPath_0@
                    == "File not found: "@ + source@,
                FileProbe::NotAFile => r is Err && r->Err_0 is InvalidPath && r->Err_0->InvalidPath_0@
                    == source@ + " is not a file"@,
                FileProbe::File(bytes, info) => if bytes@.len() <= MAX_DECODE_BYTES {
                    r is Ok && r->Ok_0@.source == source@ && r->Ok_0@.content == text_in(
                        bytes@,
                        self.default_encoding@,
                    ) && r->Ok_0@.metadata == file_metadata(source@, *info)
                } else {
                    r is Err && r->Err_0 is EncodingError && r->Err_0->EncodingError_0@
                        == "file too large to decode"@
                },
            },
    {
        match found {
            FileProbe::Missing => {
                let mut m: Vec<char> = Vec::new();
                push_str(&mut m, "File not found: ");
                push_str(&mut m, source);
                Err(LoaderError::InvalidPath(string_of(&m)))
            },
            FileProbe::NotAFile => {
                let mut m: Vec<char> = Vec::new();
                push_str(&mut m, source);
                push_str(&mut m, " is not a file");
                Err(LoaderError::InvalidPath(string_of(&m)))
            },
            FileProbe::File(bytes, info) => {
                if bytes.len() > MAX_DECODE_BYTES {
                    return Err(LoaderError::EncodingError("file too large to decode".to_owned()));
                }
                let content = self.load_with_encoding(bytes.as_slice(), self.default_encoding.as_str());
                let mut document = Document::new(content, source.to_owned());
                Self::record(&mut document, source, info);
                Ok(document)
            },
        }
    }

    /// The encoding that the options ask for, or that of the loader.
    pub open spec fn spec_encoding(&self, options: &LoaderOptions) -> Seq<char> {
        match options.encoding {
            Some(e) => e@,
            None => self.default_encoding@,
        }
    }

    /// Loads a file under options: the size is held against the limit, the
    /// bytes are decoded in the encoding of the options, or of the loader
    /// where the options name none, and metadata, with the encoding, is
    /// recorded where the options include it.
    pub fn load_with_options(
        &self,
        source: &str,
        bytes: &[u8],
        info: &FileInfo,
        file_size: usize,
        options: &LoaderOptions,
    ) -> (r: Result<Document, LoaderError>)
        ensures
            !size_ok(file_size, options.max_size) ==> r is Err && r->Err_0 == LoaderError::FileTooLarge(
                file_size,
                options.max_size->Some_0,
            ),
            size_ok(file_size, options.max_size) && bytes@.len() > MAX_DECODE_BYTES ==> r is Err
                && r->Err_0 is EncodingError && r->Err_0->EncodingError_0@
                == "file too large to decode"@,
            size_ok(file_size, options.max_size) && bytes@.len() <= MAX_DECODE_BYTES ==> r is Ok
                && r->Ok_0@.source == source@ && r->Ok_0@.content == text_in(
                bytes@,
                self.spec_encoding(options),
            ) && r->Ok_0@.metadata == if options.include_metadata {
                file_metadata(source@, *info).insert("encoding"@, self.spec_encoding(options))
            } else {
                Map::<Seq<char>, Seq<char>>::empty()
            },
    {
        match check_size(file_size, options) {
            Ok(_) => {},
            Err(e) => {
                return Err(e);
            },
        }
        if bytes.len() > MAX_DECODE_BYTES {
            return Err(LoaderError::EncodingError("file too large to decode".to_owned()));
        }
        let encoding: &str = match &options.encoding {
            Some(e) => e.as_str(),
            None => self.default_encoding.as_str(),
        };
        let content = self.load_with_encoding(bytes, encoding);
        let mut document = Document::new(content, source.to_owned());
        if options.include_metadata {
            Self::record(&mut document, source, info);
            document.add_metadata("encoding", encoding);
        }
        Ok(document)
    }

    /// `TextLoader`.
    pub fn name(&self) -> (n: &'static str)
        ensures
            n@ == "TextLoader"@,
    {
        "TextLoader"
    }

    /// The extensions of the files that the loader reads as text.
    pub fn supported_extensions(&self) -> (e: Vec<&'static str>)
        ensures
            e@.map_values(|s: &'static str| s@) == text_extensions(),
    {
        let e: Vec<&'static str> =
            vec!["txt", "text", "log", "md", "rst", "yaml", "yml", "toml", "ini", "cfg"];
        assert(e@.map_values(|s: &'static str| s@) =~= text_extensions());
        e
    }
}

} // verus!
