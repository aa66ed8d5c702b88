//! What several loaders share: optional fields of metadata, and the check
//! of a file's extension.

use vstd::prelude::*;
use crate::document::{Document, LoaderError};
use crate::text::{
    chars_of, extension, extension_of, lowercase, push_all, push_str, string_of, text_is, to_lower,
};

verus! {

/// The text that an optional string stands for.
pub open spec fn opt_view(o: Option<String>) -> Option<Seq<char>> {
    match o {
        Some(s) => Some(s@),
        None => None,
    }
}

/// With `value`, if there is one, under `key`.
pub open spec fn with_field(
    m: Map<Seq<char>, Seq<char>>,
    key: Seq<char>,
    value: Option<Seq<char>>,
) -> Map<Seq<char>, Seq<char>> {
    match value {
        Some(v) => m.insert(key, v),
        None => m,
    }
}

/// Field `i` of a list of fields; nothing where the list is shorter.
pub open spec fn nth_field(fields: Seq<Option<Seq<char>>>, i: int) -> Option<Seq<char>> {
    if 0 <= i < fields.len() {
        fields[i]
    } else {
        None
    }
}

/// Field `i` of a list of fields; nothing where the list is shorter.
pub fn field_at(fields: &Vec<Option<String>>, i: usize) -> (r: Option<&String>)
    ensures
        match r {
            Some(s) => nth_field(fields@.map_values(|o: Option<String>| opt_view(o)), i as int)
                == Some(s@),
            None => nth_field(fields@.map_values(|o: Option<String>| opt_view(o)), i as int) is None,
        },
{
    if i < fields.len() {
        match &fields[i] {
            Some(s) => Some(s),
            None => None,
        }
    } else {
        None
    }
}

/// Why a path is refused before its file is opened: `None` where its
/// extension, in lower case, is the one wanted.
pub open spec fn extension_problem(source: Seq<char>, wanted: Seq<char>) -> Option<Seq<char>> {
    match extension_of(source) {
        Some(e) => if lowercase(e) == wanted {
            None
        } else {
            Some("Expected ."@ + wanted + " file, got ."@ + e)
        },
        None => Some("No file extension"@),
    }
}

/// Holds the extension of a path against the one that a loader wants.
pub fn check_extension(source: &str, wanted: &str) -> (r: Result<(), LoaderError>)
    ensures
        r is Ok <==> extension_problem(source@, wanted@) is None,
        r is Err ==> r->Err_0 is UnsupportedFormat && r->Err_0->UnsupportedFormat_0@
            == extension_problem(source@, wanted@)->Some_0,
{
    match extension(&chars_of(source)) {
        Some(e) => {
            let ext = string_of(&e);
            if text_is(to_lower(ext.as_str()).as_str(), wanted) {
                Ok(())
            } else {
                let mut out: Vec<char> = Vec::new();
                push_str(&mut out, "Expected .");
                push_str(&mut out, wanted);
                push_str(&mut out, " file, got .");
                push_all(&mut out, &e);
                Err(LoaderError::UnsupportedFormat(string_of(&out)))
            }
        },
        None => Err(LoaderError::UnsupportedFormat("No file extension".to_owned())),
    }
}

/// The text of an optional string that is borrowed.
pub open spec fn ref_view(o: Option<&String>) -> Option<Seq<char>> {
    match o {
        Some(s) => Some(s@),
        None => None,
    }
}

/// Sets a key of the metadata where there is a value for it.
pub fn set_field(document: &mut Document, key: &str, value: Option<&String>)
    ensures
        final(document)@.source == old(document)@.source,
        final(document)@.content == old(document)@.content,
        final(document)@.metadata == with_field(old(document)@.metadata, key@, ref_view(value)),
{
    match value {
        Some(v) => {
            document.add_metadata(key, v.as_str());
        },
        None => {},
    }
}

} // verus!
