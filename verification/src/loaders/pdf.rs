//! Loader for PDF documents.
//!
//! The file is read by `lopdf`. The loader assembles the text of the pages
//! and the metadata.

use vstd::prelude::*;
use crate::document::{check_size, size_ok, Document, DocumentModel, LoaderError, LoaderOptions};
use crate::loaders::common::{field_at, nth_field, opt_view, set_field, with_field};
use crate::text::{chars_of, decimal, join, join_chars, push_decimal, push_str, string_of, views};

verus! {

/// What a PDF holds, as the loader reads it.
pub struct PdfModel {
    /// The pages by increasing number: the number of the page, and the
    /// text that was extracted for it, if any.
    pub pages: Seq<(u32, Option<Seq<char>>)>,
    /// For each key of the information dictionary asked for, its value
    /// where it is a string.
    pub fields: Seq<Option<Seq<char>>>,
}

/// A PDF, as the loader reads it.
#[derive(Debug)]
pub struct PdfBook {
    /// The pages by increasing number: the number of the page, and the
    /// text that was extracted for it, if any.
    pub pages: Vec<(u32, Option<String>)>,
    /// For each key of the information dictionary asked for, its value
    /// where it is a string.
    pub fields: Vec<Option<String>>,
}

impl View for PdfBook {
    type V = PdfModel;

    open spec fn view(&self) -> PdfModel {
        PdfModel {
            pages: pages_view(self.pages@),
            fields: self.fields@.map_values(|o: Option<String>| opt_view(o)),
        }
    }
}

/// The numbers of the pages rise from each page to the next.
pub open spec fn numbers_rise(pages: Seq<(u32, Option<Seq<char>>)>) -> bool {
    forall|i: int, j: int| 0 <= i < j < pages.len() ==> (#[trigger] pages[i]).0 < (#[trigger] pages[j]).0
}

/// The pages of a list, as mathematics.
pub open spec fn pages_view(pages: Seq<(u32, Option<String>)>) -> Seq<(u32, Option<Seq<char>>)> {
    pages.map_values(|p: (u32, Option<String>)| (p.0, opt_view(p.1)))
}

/// The information that `lopdf` finds in the bytes of a file: for each of
/// `keys` the string under that key in the dictionary that the trailer
/// holds under `info_key`. Nothing where `Document::load_mem` fails.
pub uninterp spec fn pdf_info_fields(bytes: Seq<u8>, info_key: Seq<char>, keys: Seq<Seq<char>>) -> Option<
    Seq<Option<Seq<char>>>,
>;

/// Reads a PDF with `lopdf::Document::load_mem`, lists its pages with
/// `get_pages` and extracts the text of each with `extract_text`; where
/// the file cannot be read, the result is the message of the error.
/// `lopdf` reads the objects of a large file on several threads, and
/// which copy of an object it keeps can depend on their timing, so two
/// readings of the same bytes may differ. What holds of every reading:
/// `get_pages` gives an ordered map from page numbers, so the numbers
/// rise.
#[verifier::external_body]
pub(crate) fn read_pdf_pages(bytes: &[u8]) -> (r: Result<Vec<(u32, Option<String>)>, String>)
    ensures
        r is Ok ==> numbers_rise(pages_view(r->Ok_0@)),
{
    let pdf = match lopdf::Document::load_mem(bytes) {
        Ok(p) => p,
        Err(e) => return Err(e.to_string()),
    };
    Ok(pdf.get_pages().iter().map(|(n, id)| (*n, pdf.extract_text(&[id.0]).ok())).collect())
}

/// Reads a PDF with `lopdf::Document::load_mem` and looks the keys up in
/// the dictionary that the trailer holds under `info_key`; a value that is
/// a string is read with `String::from_utf8_lossy`. All of this reads the
/// arguments alone, so the result is what [`pdf_info_fields`] names. There
/// is one field per key.
#[verifier::external_body]
pub(crate) fn read_pdf_info(bytes: &[u8], info_key: &str, keys: &Vec<&str>) -> (r: Option<Vec<Option<String>>>)
    ensures
        match r {
            Some(v) => pdf_info_fields(bytes@, info_key@, keys@.map_values(|k: &str| k@)) == Some(
                v@.map_values(|o: Option<String>| opt_view(o)),
            ) && v@.len() == keys@.len(),
            None => pdf_info_fields(bytes@, info_key@, keys@.map_values(|k: &str| k@)) is None,
        },
{
    let pdf = lopdf::Document::load_mem(bytes).ok()?;
    let info = pdf.trailer.get(info_key.as_bytes()).and_then(|i| i.as_dict()).ok();
    let text = |k: &&str| info.and_then(|d| d.get(k.as_bytes()).and_then(|o| o.as_str()).ok());
    Some(keys.iter().map(|k| text(k).map(|b| String::from_utf8_lossy(b).to_string())).collect())
}

/// The information that the loader has of a file: what `lopdf` finds
/// under the keys, and nothing under any of them where it finds no
/// information.
pub open spec fn info_fields(bytes: Seq<u8>, info_key: Seq<char>, keys: Seq<Seq<char>>) -> Seq<
    Option<Seq<char>>,
> {
    match pdf_info_fields(bytes, info_key, keys) {
        Some(f) => f,
        None => Seq::new(keys.len(), |i: int| None),
    }
}

/// Reads a PDF: its pages, then its information. The pages are whatever
/// the reader gave, with rising numbers; the information is that of
/// [`info_fields`]. A file whose pages cannot be read is reported with the
/// message of the reader.
pub fn read_pdf(bytes: &[u8], info_key: &str, keys: &Vec<&str>) -> (r: Result<PdfBook, String>)
    ensures
        r is Ok ==> numbers_rise(r->Ok_0@.pages) && r->Ok_0@.fields == info_fields(
            bytes@,
            info_key@,
            keys@.map_values(|k: &str| k@),
        ) && r->Ok_0.fields@.len() == keys@.len(),
{
    let pages = match read_pdf_pages(bytes) {
        Ok(p) => p,
        Err(e) => {
            return Err(e);
        },
    };
    let fields = match read_pdf_info(bytes, info_key, keys) {
        Some(f) => f,
        None => {
            let mut f: Vec<Option<String>> = Vec::new();
            let mut i: usize = 0;
            while i < keys.len()
                invariant
                    i <= keys.len(),
                    f@.len() == i,
                    forall|k: int| 0 <= k < i ==> (#[trigger] f@[k]) is None,
                decreases keys.len() - i,
            {
                f.push(None);
                i += 1;
            }
            assert(f@.map_values(|o: Option<String>| opt_view(o)) =~= Seq::new(
                keys@.map_values(|k: &str| k@).len(),
                |i: int| None::<Seq<char>>,
            ));
            f
        },
    };
    Ok(PdfBook { pages, fields })
}

/// The keys of the information dictionary that the loader asks for, in the
/// order of [`PdfModel::fields`].
pub open spec fn info_keys() -> Seq<Seq<char>> {
    seq!["Title"@, "Author"@, "Subject"@, "CreationDate"@]
}

/// One page as the loader keeps it: nothing where no text was extracted,
/// else the text, behind a line with the number of the page where pages
/// are numbered.
pub open spec fn pdf_page(numbered: bool, page: (u32, Option<Seq<char>>)) -> Option<Seq<char>> {
    match page.1 {
        None => None,
        Some(t) => if numbered {
            Some("--- Page "@ + decimal(page.0 as nat) + " ---\n"@ + t)
        } else {
            Some(t)
        },
    }
}

/// The texts of the pages that are kept, in order.
pub open spec fn pdf_pages(numbered: bool, pages: Seq<(u32, Option<Seq<char>>)>) -> Seq<Seq<char>>
    decreases pages.len(),
{
    if pages.len() == 0 {
        Seq::empty()
    } else {
        let rest = pdf_pages(numbered, pages.drop_last());
        match pdf_page(numbered, pages.last()) {
            Some(t) => rest.push(t),
            None => rest,
        }
    }
}

/// What the loader records of a PDF: the format, the number of pages, and
/// title, author, subject and creation date as far as the file names them.
pub open spec fn pdf_metadata(b: PdfModel) -> Map<Seq<char>, Seq<char>> {
    let base = Map::<Seq<char>, Seq<char>>::empty().insert("format"@, "pdf"@).insert(
        "page_count"@,
        decimal(b.pages.len()),
    );
    with_field(
        with_field(
            with_field(
                with_field(base, "title"@, nth_field(b.fields, 0)),
                "author"@,
                nth_field(b.fields, 1),
            ),
            "subject"@,
            nth_field(b.fields, 2),
        ),
        "creation_date"@,
        nth_field(b.fields, 3),
    )
}

/// Document `d` is what loader `l` assembles for the PDF `b` at `source`:
/// the pages that are kept, the separator between them, with the metadata
/// of the PDF.
pub open spec fn assembled(l: PdfLoaderModel, source: Seq<char>, b: PdfModel, d: DocumentModel) -> bool {
    &&& d.source == source
    &&& d.content == join(pdf_pages(l.include_page_numbers, b.pages), l.page_separator)
    &&& d.metadata == pdf_metadata(b)
}

/// Document `d` is what loader `l` assembles for some pages with rising
/// numbers and the information `fields`.
pub open spec fn loaded_from(
    l: PdfLoaderModel,
    source: Seq<char>,
    fields: Seq<Option<Seq<char>>>,
    d: DocumentModel,
) -> bool {
    exists|pages: Seq<(u32, Option<Seq<char>>)>|
        numbers_rise(pages) && #[trigger] assembled(l, source, (PdfModel { pages, fields }), d)
}

/// Loader for PDF files.
#[derive(Debug)]
pub struct PdfLoader {
    /// Whether each page stands behind a line with its number.
    pub include_page_numbers: bool,
    /// What stands between two pages.
    pub page_separator: String,
}

/// What a PDF loader holds.
pub struct PdfLoaderModel {
    pub include_page_numbers: bool,
    pub page_separator: Seq<char>,
}

impl View for PdfLoader {
    type V = PdfLoaderModel;

    open spec fn view(&self) -> PdfLoaderModel {
        PdfLoaderModel {
            include_page_numbers: self.include_page_numbers,
            page_separator: self.page_separator@,
        }
    }
}

impl PdfLoader {
    /// A loader that does not number pages and puts two line feeds between
    /// them.
    pub fn new() -> (l: PdfLoader)
        ensures
            l@ == (PdfLoaderModel { include_page_numbers: false, page_separator: "\n\n"@ }),
    {
        PdfLoader { include_page_numbers: false, page_separator: "\n\n".to_owned() }
    }

    /// Numbers the pages.
    pub fn with_page_numbers(self) -> (l: PdfLoader)
        ensures
            l@ == (PdfLoaderModel { include_page_numbers: true, ..self@ }),
    {
        PdfLoader { include_page_numbers: true, page_separator: self.page_separator }
    }

    /// Sets what stands between two pages.
    pub fn with_page_separator(self, separator: &str) -> (l: PdfLoader)
        ensures
            l@ == (PdfLoaderModel { page_separator: separator@, ..self@ }),
    {
        PdfLoader {
            include_page_numbers: self.include_page_numbers,
            page_separator: separator.to_owned(),
        }
    }

    /// The text of a PDF: the pages that are kept, the separator between
    /// them.
    pub fn extract_text(&self, book: &PdfBook) -> (r: String)
        ensures
            r@ == join(pdf_pages(self.include_page_numbers, book@.pages), self.page_separator@),
    {
        let ghost all = book@.pages;
        let mut texts: Vec<Vec<char>> = Vec::new();
        let mut i: usize = 0;
        assert(all.take(0) =~= Seq::<(u32, Option<Seq<char>>)>::empty());
        assert(views(texts@) =~= Seq::<Seq<char>>::empty());
        while i < book.pages.len()
            invariant
                i <= book.pages.len(),
                all == book@.pages,
                views(texts@) == pdf_pages(self.include_page_numbers, all.take(i as int)),
            decreases book.pages.len() - i,
        {
            proof {
                assert(all.take(i as int + 1).drop_last() =~= all.take(i as int));
                assert(all.take(i as int + 1).last() == (
                    book.pages@[i as int].0,
                    opt_view(book.pages@[i as int].1),
                ));
            }
            match &book.pages[i].1 {
                Some(text) => {
                    let ghost texts0 = texts@;
                    let mut t: Vec<char> = Vec::new();
                    if self.include_page_numbers {
                        push_str(&mut t, "--- Page ");
                        push_decimal(&mut t, book.pages[i].0 as usize);
                        push_str(&mut t, " ---\n");
                    }
                    push_str(&mut t, text.as_str());
                    texts.push(t);
                    assert(views(texts@) =~= views(texts0).push(t@));
                },
                None => {},
            }
            i += 1;
        }
        assert(all.take(i as int) =~= all);
        let sep = chars_of(self.page_separator.as_str());
        string_of(&join_chars(&texts, &sep))
    }

    /// The document for a PDF that was read.
    pub fn assemble(&self, source: &str, book: &PdfBook) -> (d: Document)
        ensures
            assembled(self@, source@, book@, d@),
    {
        let content = self.extract_text(book);
        let mut document = Document::new(content, source.to_owned());
        document.add_metadata("format", "pdf");
        let mut count: Vec<char> = Vec::new();
        push_decimal(&mut count, book.pages.len());
        assert(count@ =~= decimal(book@.pages.len()));
        document.add_metadata("page_count", string_of(&count).as_str());
        set_field(&mut document, "title", field_at(&book.fields, 0));
        set_field(&mut document, "author", field_at(&book.fields, 1));
        set_field(&mut document, "subject", field_at(&book.fields, 2));
        set_field(&mut document, "creation_date", field_at(&book.fields, 3));
        document
    }

    /// Loads a PDF from the bytes of its file. The document is assembled,
    /// as by [`PdfLoader::assemble`], from the pages that the reader gave
    /// and the information of the file; a file that the reader refuses is
    /// reported with its message.
    pub fn load(&self, source: &str, bytes: &[u8]) -> (r: Result<Document, LoaderError>)
        ensures
            match r {
                Ok(d) => loaded_from(self@, source@, info_fields(bytes@, "Info"@, info_keys()), d@),
                Err(e) => e is PdfError,
            },
    {
        let keys: Vec<&str> = vec!["Title", "Author", "Subject", "CreationDate"];
        assert(keys@.map_values(|k: &str| k@) =~= info_keys());
        match read_pdf(bytes, "Info", &keys) {
            Ok(book) => {
                let d = self.assemble(source, &book);
                assert(assembled(self@, source@, book@, d@));
                Ok(d)
            },
            Err(e) => Err(LoaderError::PdfError(e)),
        }
    }

    /// Holds the file size against the limit of the options, then loads.
    pub fn load_with_options(
        &self,
        source: &str,
        bytes: &[u8],
        file_size: usize,
        options: &LoaderOptions,
    ) -> (r: Result<Document, LoaderError>)
        ensures
            !size_ok(file_size, options.max_size) ==> r is Err && r->Err_0 == LoaderError::FileTooLarge(
                file_size,
                options.max_size->Some_0,
            ),
            size_ok(file_size, options.max_size) ==> match r {
                Ok(d) => loaded_from(self@, source@, info_fields(bytes@, "Info"@, info_keys()), d@),
                Err(e) => e is PdfError,
            },
    {
        match check_size(file_size, options) {
            Ok(_) => self.load(source, bytes),
            Err(e) => Err(e),
        }
    }

    /// `PdfLoader`.
    pub fn name(&self) -> (n: &'static str)
        ensures
            n@ == "PdfLoader"@,
    {
        "PdfLoader"
    }

    /// `pdf`.
    pub fn supported_extensions(&self) -> (e: Vec<&'static str>)
        ensures
            e@.len() == 1,
            e@[0]@ == "pdf"@,
    {
        vec!["pdf"]
    }
}

} // verus!
