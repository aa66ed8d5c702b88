//! Loader for EPUB books.
//!
//! The book is opened by the `epub` crate. The loader strips the markup of
//! each page and assembles the text and the metadata.

use vstd::prelude::*;
use crate::document::{Document, LoaderError, LoaderOptions};
use crate::loaders::common::{
    check_extension,
    extension_problem,
    field_at,
    nth_field,
    opt_view,
    set_field,
    with_field,
};
use crate::text::{
    blank,
    chars_of,
    decimal,
    is_blank,
    join,
    join_chars,
    lowercase,
    push_all,
    push_decimal,
    push_str,
    split_words,
    string_of,
    text_is,
    to_lower,
    views,
    words_of,
};

verus! {

/// While stripping HTML: whether a tag is being read, whether a script or a
/// style sheet is being passed over, the tag read so far, and the text
/// kept so far.
pub struct HtmlState {
    pub in_tag: bool,
    pub hidden: bool,
    pub tag: Seq<char>,
    pub out: Seq<char>,
}

/// The tag opens a script or a style sheet.
pub open spec fn opens_hidden(tag: Seq<char>) -> bool {
    lowercase(tag) == "script"@ || lowercase(tag) == "style"@
}

/// The tag closes a script or a style sheet.
pub open spec fn closes_hidden(tag: Seq<char>) -> bool {
    lowercase(tag) == "/script"@ || lowercase(tag) == "/style"@
}

/// The state after one more character. `<` starts a tag and `>` ends it.
/// What stands between the tags of a script or of a style sheet is passed
/// over, and a space is kept in its place; everything else outside tags
/// is kept.
pub open spec fn html_step(st: HtmlState, c: char) -> HtmlState {
    if c == '<' {
        HtmlState { in_tag: true, tag: Seq::empty(), ..st }
    } else if c == '>' {
        if opens_hidden(st.tag) {
            HtmlState { in_tag: false, hidden: true, ..st }
        } else if closes_hidden(st.tag) {
            HtmlState { in_tag: false, hidden: false, out: st.out.push(' '), ..st }
        } else {
            HtmlState { in_tag: false, ..st }
        }
    } else if st.in_tag {
        HtmlState { tag: st.tag.push(c), ..st }
    } else if !st.hidden {
        HtmlState { out: st.out.push(c), ..st }
    } else {
        st
    }
}

/// The state after the characters of `s`.
pub open spec fn html_run(s: Seq<char>) -> HtmlState
    decreases s.len(),
{
    if s.len() == 0 {
        HtmlState { in_tag: false, hidden: false, tag: Seq::empty(), out: Seq::empty() }
    } else {
        html_step(html_run(s.drop_last()), s.last())
    }
}

/// The plain text of HTML: what is kept, with every run of whitespace
/// turned into one space and none at the ends.
pub open spec fn html_text(html: Seq<char>) -> Seq<char> {
    join(words_of(html_run(html).out), seq![' '])
}

/// One page of a book as the loader keeps it: nothing for a page that
/// could not be read or that is blank, else its text, behind a chapter mark
/// where chapters are marked.
pub open spec fn page_text(mark_chapters: bool, index: nat, page: Option<Seq<char>>) -> Option<Seq<char>> {
    match page {
        None => None,
        Some(p) => if is_blank(html_text(p)) {
            None
        } else if mark_chapters {
            Some("=== Chapter "@ + decimal(index + 1) + " ===\n"@ + html_text(p))
        } else {
            Some(html_text(p))
        },
    }
}

/// The texts of the pages that are kept, in order.
pub open spec fn page_texts(mark_chapters: bool, pages: Seq<Option<Seq<char>>>) -> Seq<Seq<char>>
    decreases pages.len(),
{
    if pages.len() == 0 {
        Seq::empty()
    } else {
        let rest = page_texts(mark_chapters, pages.drop_last());
        match page_text(mark_chapters, (pages.len() - 1) as nat, pages.last()) {
            Some(t) => rest.push(t),
            None => rest,
        }
    }
}

/// What an opened book holds, as the loader reads it.
pub struct BookModel {
    /// For each metadata key asked for, its first value.
    pub fields: Seq<Option<Seq<char>>>,
    /// The pages in reading order; nothing for a page that cannot be read
    /// as text.
    pub pages: Seq<Option<Seq<char>>>,
}

/// An opened book, as the loader reads it.
#[derive(Debug)]
pub struct EpubBook {
    /// For each metadata key asked for, its first value.
    pub fields: Vec<Option<String>>,
    /// The pages in reading order; nothing for a page that cannot be read
    /// as text.
    pub pages: Vec<Option<String>>,
}

impl View for EpubBook {
    type V = BookModel;

    open spec fn view(&self) -> BookModel {
        BookModel {
            fields: self.fields@.map_values(|o: Option<String>| opt_view(o)),
            pages: self.pages@.map_values(|o: Option<String>| opt_view(o)),
        }
    }
}

/// The container file of a book, `META-INF/container.xml`, as
/// `epub::archive::EpubArchive` reads it from the bytes of the book; nothing
/// where the bytes are no archive or the archive has no such file.
pub uninterp spec fn epub_container_file(bytes: Seq<u8>) -> Option<Seq<u8>>;

/// Opens the archive with `epub::archive::EpubArchive::from_reader` and
/// reads the container file with `get_container_file`. Both read the bytes
/// alone, so the result is what [`epub_container_file`] names.
#[verifier::external_body]
pub(crate) fn epub_container(bytes: &[u8]) -> (r: Option<Vec<u8>>)
    ensures
        match r {
            Some(c) => epub_container_file(bytes@) == Some(c@),
            None => epub_container_file(bytes@) is None,
        },
{
    match epub::archive::EpubArchive::from_reader(std::io::Cursor::new(bytes)) {
        Ok(mut a) => a.get_container_file().ok(),
        Err(_) => None,
    }
}

/// The name of the attribute that holds the path of the root file:
/// `full-path`, in ASCII.
pub open spec fn root_attribute() -> Seq<u8> {
    seq![102u8, 117u8, 108u8, 108u8, 45u8, 112u8, 97u8, 116u8, 104u8]
}

/// The attribute name stands in `c` at position `i`.
pub open spec fn names_root_at(c: Seq<u8>, i: int) -> bool {
    0 <= i && i + 9 <= c.len() && c.subrange(i, i + 9) == root_attribute()
}

/// A byte that a container may hold: any but NUL, `&`, and the two bytes
/// that no UTF-8 text holds and that mark UTF-16. Without them the
/// container is read byte by byte as it stands: it is not UTF-16, and
/// nothing in it stands for another character.
pub open spec fn plain_byte(b: u8) -> bool {
    b != 0 && b != 38 && b != 254 && b != 255
}

/// A space, a tab, a line feed or a carriage return.
pub open spec fn blank_byte(b: u8) -> bool {
    b == 32 || b == 9 || b == 10 || b == 13
}

/// The first position from `i` on that holds no blank; the length of `c`
/// where there is none.
pub open spec fn past_blanks(c: Seq<u8>, i: int) -> int
    decreases c.len() - i,
{
    if i < 0 || i >= c.len() {
        c.len() as int
    } else if blank_byte(c[i]) {
        past_blanks(c, i + 1)
    } else {
        i
    }
}

/// From position `i` on stands the value of an attribute that is a usable
/// path: blanks if any, `=`, blanks if any, a quote of either kind, and
/// then a character that is neither a quote nor a slash. The path then is
/// not empty and not absolute.
pub open spec fn valued_at(c: Seq<u8>, i: int) -> bool {
    let e = past_blanks(c, i);
    e < c.len() && c[e] == 61 && {
        let q = past_blanks(c, e + 1);
        q + 1 < c.len() && (c[q] == 34 || c[q] == 39) && c[q + 1] != 34 && c[q + 1] != 39 && c[q + 1]
            != 47
    }
}

/// A container that the loader accepts: every byte is plain, and every
/// `full-path` in it is followed by a usable path. Such a container names
/// only paths that are not empty and not absolute.
pub open spec fn plain_container(c: Seq<u8>) -> bool {
    &&& forall|i: int| 0 <= i < c.len() ==> plain_byte(#[trigger] c[i])
    &&& forall|i: int| #[trigger] names_root_at(c, i) ==> valued_at(c, i + 9)
}

/// Whether the attribute name stands in `c` at position `i`.
pub fn root_named_at(c: &[u8], i: usize) -> (b: bool)
    ensures
        b == names_root_at(c@, i as int),
{
    if i > c.len() || c.len() - i < 9 {
        return false;
    }
    let b = c[i] == 102 && c[i + 1] == 117 && c[i + 2] == 108 && c[i + 3] == 108 && c[i + 4] == 45
        && c[i + 5] == 112 && c[i + 6] == 97 && c[i + 7] == 116 && c[i + 8] == 104;
    proof {
        let w = c@.subrange(i as int, i + 9);
        if b {
            assert(w =~= root_attribute());
        }
        if w == root_attribute() {
            assert(w[0] == 102 && w[1] == 117 && w[2] == 108 && w[3] == 108 && w[4] == 45 && w[5]
                == 112 && w[6] == 97 && w[7] == 116 && w[8] == 104);
        }
    }
    b
}

/// The first position from `i` on that holds no blank.
pub fn skip_blanks(c: &[u8], i: usize) -> (r: usize)
    ensures
        r == past_blanks(c@, i as int),
        r <= c@.len(),
{
    let mut k = i;
    while k < c.len() && (c[k] == 32 || c[k] == 9 || c[k] == 10 || c[k] == 13)
        invariant
            past_blanks(c@, i as int) == past_blanks(c@, k as int),
        decreases c.len() - k,
    {
        k += 1;
    }
    if k >= c.len() {
        c.len()
    } else {
        k
    }
}

/// Whether a usable path stands from position `i` on as the value of an
/// attribute.
pub fn has_value_at(c: &[u8], i: usize) -> (b: bool)
    ensures
        b == valued_at(c@, i as int),
{
    let e = skip_blanks(c, i);
    if e >= c.len() || c[e] != 61 {
        return false;
    }
    let q = skip_blanks(c, e + 1);
    if q >= c.len() || c.len() - q < 2 {
        return false;
    }
    (c[q] == 34 || c[q] == 39) && c[q + 1] != 34 && c[q + 1] != 39 && c[q + 1] != 47
}

/// Whether the loader accepts a container.
pub fn is_plain_container(c: &[u8]) -> (b: bool)
    ensures
        b == plain_container(c@),
{
    let mut i: usize = 0;
    while i < c.len()
        invariant
            i <= c.len(),
            forall|k: int| 0 <= k < i ==> plain_byte(#[trigger] c@[k]),
            forall|k: int| 0 <= k < i && #[trigger] names_root_at(c@, k) ==> valued_at(c@, k + 9),
        decreases c.len() - i,
    {
        if c[i] == 0 || c[i] == 38 || c[i] == 254 || c[i] == 255 {
            return false;
        }
        if root_named_at(c, i) {
            if !has_value_at(c, i + 9) {
                return false;
            }
        }
        i += 1;
    }
    assert forall|k: int| #[trigger] names_root_at(c@, k) implies valued_at(c@, k + 9) by {
        assert(k < i);
    }
    true
}

/// A book can be opened: it has no container file, or one that the loader
/// accepts.
pub open spec fn openable(bytes: Seq<u8>) -> bool {
    match epub_container_file(bytes) {
        Some(c) => plain_container(c),
        None => true,
    }
}

/// What `epub::doc::EpubDoc` makes of the bytes of a file: the book, with
/// the first value of each of the metadata keys `keys` and the pages of
/// its spine, or the message of the error.
pub uninterp spec fn epub_book(bytes: Seq<u8>, keys: Seq<Seq<char>>) -> Result<BookModel, Seq<char>>;

/// Opens a book with `epub::doc::EpubDoc::from_reader`, asks `mdata` for
/// each key, and reads the pages of the spine in order with
/// `get_current_str` and `go_next`. All of this reads the bytes alone, so
/// the result is what [`epub_book`] names. There is one field per key.
///
/// `from_reader` takes the parent of the path that the container names
/// for the root file, and does not return where that path has none: where
/// it is empty or only a root. The path is the value of the attribute
/// `full-path` as the XML reader gives it, which puts a space for each
/// blank in a value and changes nothing else where the text holds no `&`.
/// A container that the loader accepts is read byte by byte as it stands,
/// and every `full-path` in it is followed by a value that begins with a
/// character other than a quote and a slash, so the path is not empty and
/// not absolute. Without a container file `from_reader` fails before it
/// looks for a path.
#[verifier::external_body]
pub(crate) fn read_epub(bytes: Vec<u8>, keys: &Vec<&str>) -> (r: Result<EpubBook, String>)
    requires
        openable(bytes@),
    ensures
        match r {
            Ok(b) => epub_book(bytes@, keys@.map_values(|k: &str| k@)) == Ok::<BookModel, Seq<char>>(b@),
            Err(e) => epub_book(bytes@, keys@.map_values(|k: &str| k@)) == Err::<BookModel, Seq<char>>(e@),
        },
        r is Ok ==> r->Ok_0.fields@.len() == keys@.len(),
{
    let mut doc = match epub::doc::EpubDoc::from_reader(std::io::Cursor::new(bytes)) {
        Ok(d) => d,
        Err(e) => return Err(e.to_string()),
    };
    let fields = keys.iter().map(|k| doc.mdata(k).map(|m| m.value.clone())).collect();
    let mut pages = Vec::new();
    for _ in 0..doc.spine.len() {
        pages.push(doc.get_current_str().map(|p| p.0));
        doc.go_next();
    }
    Ok(EpubBook { fields, pages })
}

/// The metadata keys that the loader asks a book for, in the order of
/// [`BookModel::fields`].
pub open spec fn book_keys() -> Seq<Seq<char>> {
    seq!["title"@, "creator"@, "publisher"@, "date"@, "language"@]
}

/// What the loader records of a book. Where metadata is asked for: title,
/// author, publisher, date and language, as far as the book names them. In
/// any case the format, the type and the number of pages.
pub open spec fn book_metadata(with_metadata: bool, b: BookModel) -> Map<Seq<char>, Seq<char>> {
    let named = if with_metadata {
        with_field(
            with_field(
                with_field(
                    with_field(
                        with_field(Map::empty(), "title"@, nth_field(b.fields, 0)),
                        "author"@,
                        nth_field(b.fields, 1),
                    ),
                    "publisher"@,
                    nth_field(b.fields, 2),
                ),
                "date"@,
                nth_field(b.fields, 3),
            ),
            "language"@,
            nth_field(b.fields, 4),
        )
    } else {
        Map::empty()
    };
    let paged = if with_metadata {
        named.insert("pages"@, decimal(b.pages.len()))
    } else {
        named
    };
    paged.insert("format"@, "epub"@).insert("type"@, "book"@).insert("pages"@, decimal(b.pages.len()))
}

/// Loader for EPUB files.
#[derive(Debug)]
pub struct EpubLoader {
    /// Whether title, author and the like are recorded.
    pub extract_metadata: bool,
    /// Whether each page stands behind a chapter mark.
    pub include_chapters: bool,
}

impl EpubLoader {
    /// A loader that records no metadata and marks no chapters.
    pub fn new() -> (l: EpubLoader)
        ensures
            l == (EpubLoader { extract_metadata: false, include_chapters: false }),
    {
        EpubLoader { extract_metadata: false, include_chapters: false }
    }

    /// Records title, author and the like.
    pub fn with_metadata(self) -> (l: EpubLoader)
        ensures
            l == (EpubLoader { extract_metadata: true, ..self }),
    {
        EpubLoader { extract_metadata: true, include_chapters: self.include_chapters }
    }

    /// Marks chapters.
    pub fn with_chapters(self) -> (l: EpubLoader)
        ensures
            l == (EpubLoader { include_chapters: true, ..self }),
    {
        EpubLoader { extract_metadata: self.extract_metadata, include_chapters: true }
    }

    /// The plain text of HTML.
    pub fn strip_html(&self, html: &str) -> (r: String)
        ensures
            r@ == html_text(html@),
    {
        string_of(&strip_markup(&chars_of(html)))
    }

    /// The text of the pages of a book: the pages that are kept, two line
    /// feeds between them.
    pub fn extract_text(&self, book: &EpubBook) -> (r: String)
        ensures
            r@ == join(page_texts(self.include_chapters, book@.pages), "\n\n"@),
    {
        let ghost all = book@.pages;
        let mut texts: Vec<Vec<char>> = Vec::new();
        let mut i: usize = 0;
        assert(all.take(0) =~= Seq::<Option<Seq<char>>>::empty());
        assert(views(texts@) =~= Seq::<Seq<char>>::empty());
        while i < book.pages.len()
            invariant
                i <= book.pages.len(),
                all == book@.pages,
                views(texts@) == page_texts(self.include_chapters, all.take(i as int)),
            decreases book.pages.len() - i,
        {
            proof {
                assert(all.take(i as int + 1).drop_last() =~= all.take(i as int));
                assert(all.take(i as int + 1).last() == opt_view(book.pages@[i as int]));
            }
            match &book.pages[i] {
                Some(page) => {
                    let plain = strip_markup(&chars_of(page.as_str()));
                    if !blank(&plain) {
                        let ghost texts0 = texts@;
                        if self.include_chapters {
                            let mut t: Vec<char> = Vec::new();
                            push_str(&mut t, "=== Chapter ");
                            push_decimal(&mut t, i + 1);
                            push_str(&mut t, " ===\n");
                            push_all(&mut t, &plain);
                            texts.push(t);
                            assert(views(texts@) =~= views(texts0).push(t@));
                        } else {
                            texts.push(plain);
                            assert(views(texts@) =~= views(texts0).push(plain@));
                        }
                    }
                },
                None => {},
            }
            i += 1;
        }
        assert(all.take(i as int) =~= all);
        let sep = chars_of("\n\n");
        string_of(&join_chars(&texts, &sep))
    }

    /// The document for a book that was opened.
    pub fn assemble(&self, source: &str, book: &EpubBook) -> (d: Document)
        ensures
            d@.source == source@,
            d@.content == join(page_texts(self.include_chapters, book@.pages), "\n\n"@),
            d@.metadata == book_metadata(self.extract_metadata, book@),
    {
        let content = self.extract_text(book);
        let mut document = Document::new(content, source.to_owned());
        let mut count: Vec<char> = Vec::new();
        push_decimal(&mut count, book.pages.len());
        let pages = string_of(&count);
        assert(pages@ =~= decimal(book@.pages.len()));
        if self.extract_metadata {
            set_field(&mut document, "title", field_at(&book.fields, 0));
            set_field(&mut document, "author", field_at(&book.fields, 1));
            set_field(&mut document, "publisher", field_at(&book.fields, 2));
            set_field(&mut document, "date", field_at(&book.fields, 3));
            set_field(&mut document, "language", field_at(&book.fields, 4));
            document.add_metadata("pages", pages.as_str());
        }
        document.add_metadata("format", "epub");
        document.add_metadata("type", "book");
        document.add_metadata("pages", pages.as_str());
        document
    }

    /// Loads a book from the bytes of its file. The path must end in
    /// `.epub`, in any case of letters. A book whose container file the
    /// loader does not accept is refused; a file that is no book is
    /// reported with the message of the reader.
    pub fn load(&self, source: &str, bytes: Vec<u8>) -> (r: Result<Document, LoaderError>)
        ensures
            match extension_problem(source@, "epub"@) {
                Some(m) => r is Err && r->Err_0 is UnsupportedFormat && r->Err_0->UnsupportedFormat_0@ == m,
                None => if !openable(bytes@) {
                    r is Err && r->Err_0 is ParseError && r->Err_0->ParseError_0@
                        == "Failed to open EPUB: the container names no usable root file"@
                } else {
                    match epub_book(bytes@, book_keys()) {
                    Ok(b) => r is Ok && r->Ok_0@.source == source@ && r->Ok_0@.content == join(
                        page_texts(self.include_chapters, b.pages),
                        "\n\n"@,
                    ) && r->Ok_0@.metadata == book_metadata(self.extract_metadata, b),
                    Err(e) => r is Err && r->Err_0 is ParseError && r->Err_0->ParseError_0@
                        == "Failed to open EPUB: "@ + e,
                    }
                },
            },
    {
        match check_extension(source, "epub") {
            Ok(_) => {},
            Err(e) => {
                return Err(e);
            },
        }
        match epub_container(bytes.as_slice()) {
            Some(c) => {
                if !is_plain_container(c.as_slice()) {
                    return Err(
                        LoaderError::ParseError(
                            "Failed to open EPUB: the container names no usable root file".to_owned(),
                        ),
                    );
                }
            },
            None => {},
        }
        let keys: Vec<&str> = vec!["title", "creator", "publisher", "date", "language"];
        assert(keys@.map_values(|k: &str| k@) =~= book_keys());
        match read_epub(bytes, &keys) {
            Ok(book) => Ok(self.assemble(source, &book)),
            Err(e) => {
                let mut out: Vec<char> = Vec::new();
                push_str(&mut out, "Failed to open EPUB: ");
                push_str(&mut out, e.as_str());
                Err(LoaderError::ParseError(string_of(&out)))
            },
        }
    }

    /// The loader that the options ask for: metadata where they include
    /// it, chapter marks where the custom option `include_chapters` is
    /// `true`.
    pub fn from_options(options: &LoaderOptions) -> (l: EpubLoader)
        ensures
            l.extract_metadata == options.include_metadata,
            l.include_chapters == (options.custom@.contains_key("include_chapters"@)
                && options.custom@["include_chapters"@] == "true"@),
    {
        let mut loader = EpubLoader::new();
        if options.include_metadata {
            loader = loader.with_metadata();
        }
        match options.custom.get("include_chapters") {
            Some(val) => {
                if text_is(val.as_str(), "true") {
                    loader = loader.with_chapters();
                }
            },
            None => {},
        }
        loader
    }

    /// `EpubLoader`.
    pub fn name(&self) -> (n: &'static str)
        ensures
            n@ == "EpubLoader"@,
    {
        "EpubLoader"
    }

    /// `epub`.
    pub fn supported_extensions(&self) -> (e: Vec<&'static str>)
        ensures
            e@.len() == 1,
            e@[0]@ == "epub"@,
    {
        vec!["epub"]
    }
}

/// The plain text of HTML.
pub fn strip_markup(v: &Vec<char>) -> (out: Vec<char>)
    ensures
        out@ == html_text(v@),
{
    let mut kept: Vec<char> = Vec::new();
    let mut tag: Vec<char> = Vec::new();
    let mut in_tag = false;
    let mut hidden = false;
    let mut i: usize = 0;
    assert(v@.take(0) =~= Seq::<char>::empty());
    while i < v.len()
        invariant
            i <= v.len(),
            in_tag == html_run(v@.take(i as int)).in_tag,
            hidden == html_run(v@.take(i as int)).hidden,
            tag@ == html_run(v@.take(i as int)).tag,
            kept@ == html_run(v@.take(i as int)).out,
        decreases v.len() - i,
    {
        proof {
            assert(v@.take(i as int + 1).drop_last() =~= v@.take(i as int));
            assert(v@.take(i as int + 1).last() == v@[i as int]);
        }
        let c = v[i];
        if c == '<' {
            in_tag = true;
            tag = Vec::new();
        } else if c == '>' {
            in_tag = false;
            let lower = to_lower(string_of(&tag).as_str());
            if text_is(lower.as_str(), "script") || text_is(lower.as_str(), "style") {
                hidden = true;
            } else if text_is(lower.as_str(), "/script") || text_is(lower.as_str(), "/style") {
                hidden = false;
                kept.push(' ');
            }
        } else if in_tag {
            tag.push(c);
        } else if !hidden {
            kept.push(c);
        }
        i += 1;
    }
    assert(v@.take(i as int) =~= v@);
    let words = split_words(&kept);
    let sep = chars_of(" ");
    proof {
        reveal_strlit(" ");
        assert(sep@ =~= seq![' ']);
    }
    join_chars(&words, &sep)
}

} // verus!
