//! Loader for PowerPoint presentations.
//!
//! A presentation is a ZIP archive of XML files. The archive is read by
//! `zip`, each slide is parsed by `quick_xml`, and the loader picks the
//! slides, keeps the text runs of each, and assembles the text.

use vstd::prelude::*;
use quick_xml::events::Event;
use crate::document::{Document, LoaderError, LoaderOptions};
use crate::loaders::common::{check_extension, extension_problem};
use crate::text::{
    begins_with, chars_of, decimal, ends_with, finishes_with, join, join_chars, push_all,
    push_decimal, push_str, starts_with, string_of, text_is, views,
};

verus! {

/// One event of the parse of an XML text, as the loader reads it.
pub enum PieceModel {
    /// A start tag, with its name.
    Start(Seq<u8>),
    /// Text, unescaped.
    Text(Seq<char>),
    /// An end tag, with its name.
    End(Seq<u8>),
    Other,
}

/// One event of the parse of an XML text, as the loader reads it.
#[derive(Debug)]
pub enum XmlPiece {
    /// A start tag, with its name.
    Start(Vec<u8>),
    /// Text, unescaped.
    Text(String),
    /// An end tag, with its name.
    End(Vec<u8>),
    Other,
}

impl View for XmlPiece {
    type V = PieceModel;

    open spec fn view(&self) -> PieceModel {
        match self {
            XmlPiece::Start(n) => PieceModel::Start(n@),
            XmlPiece::Text(t) => PieceModel::Text(t@),
            XmlPiece::End(n) => PieceModel::End(n@),
            XmlPiece::Other => PieceModel::Other,
        }
    }
}

/// The models of a list of events.
pub open spec fn piece_views(pieces: Seq<XmlPiece>) -> Seq<PieceModel> {
    pieces.map_values(|p: XmlPiece| p@)
}

/// The events that `quick_xml::Reader` yields for a text, with text
/// trimmed, up to the end of the text; or the message of the first error.
/// The text of a text event is what `BytesText::unescape` gives, and
/// nothing where that fails.
pub uninterp spec fn xml_events(text: Seq<char>) -> Result<Seq<PieceModel>, Seq<char>>;

/// Parses a text with `quick_xml::Reader::from_str`, with `trim_text` on,
/// and collects the events of `read_event` up to `Eof`. The reader reads
/// nothing but the text, so the events are those that [`xml_events`]
/// names.
#[verifier::external_body]
pub(crate) fn xml_pieces(text: &str) -> (r: Result<Vec<XmlPiece>, String>)
    ensures
        match r {
            Ok(v) => xml_events(text@) == Ok::<Seq<PieceModel>, Seq<char>>(piece_views(v@)),
            Err(e) => xml_events(text@) == Err::<Seq<PieceModel>, Seq<char>>(e@),
        },
{
    let mut reader = quick_xml::Reader::from_str(text);
    reader.config_mut().trim_text(true);
    let mut out = Vec::new();
    loop {
        match reader.read_event() {
            Ok(Event::Start(e)) => out.push(XmlPiece::Start(e.name().as_ref().to_vec())),
            Ok(Event::Text(e)) => out.push(XmlPiece::Text(e.unescape().unwrap_or_default().to_string())),
            Ok(Event::End(e)) => out.push(XmlPiece::End(e.name().as_ref().to_vec())),
            Ok(Event::Eof) => return Ok(out),
            Ok(_) => out.push(XmlPiece::Other),
            Err(e) => return Err(e.to_string()),
        }
    }
}

/// The names of the entries of a ZIP archive, in the order of the archive;
/// for an entry that cannot be opened, the message of its error. Where the
/// bytes are no archive, the message of that error.
pub uninterp spec fn zip_names(bytes: Seq<u8>) -> Result<Seq<Result<Seq<char>, Seq<char>>>, Seq<char>>;

/// The content of entry `index` of a ZIP archive, read as text, or the
/// message of the error of reading it.
pub uninterp spec fn zip_text(bytes: Seq<u8>, index: nat) -> Result<Seq<char>, Seq<char>>;

/// What a name, or the error in its place, stands for.
pub open spec fn entry_view(e: Result<String, String>) -> Result<Seq<char>, Seq<char>> {
    match e {
        Ok(n) => Ok(n@),
        Err(m) => Err(m@),
    }
}

/// Opens an archive with `zip::ZipArchive::new` and asks `by_index` and
/// `ZipFile::name` for each entry. The archive is read from the bytes
/// alone, so the names are those that [`zip_names`] names.
#[verifier::external_body]
pub(crate) fn zip_entry_names(bytes: &[u8]) -> (r: Result<Vec<Result<String, String>>, String>)
    ensures
        match r {
            Ok(v) => zip_names(bytes@) == Ok::<Seq<Result<Seq<char>, Seq<char>>>, Seq<char>>(
                v@.map_values(|e: Result<String, String>| entry_view(e)),
            ),
            Err(e) => zip_names(bytes@) == Err::<Seq<Result<Seq<char>, Seq<char>>>, Seq<char>>(e@),
        },
{
    let mut a = match zip::ZipArchive::new(std::io::Cursor::new(bytes)) {
        Ok(a) => a,
        Err(e) => return Err(e.to_string()),
    };
    let name = |a: &mut zip::ZipArchive<std::io::Cursor<&[u8]>>, i: usize| {
        a.by_index(i).and_then(|f| f.name().map(|n| n.into_owned()))
    };
    Ok((0..a.len()).map(|i| name(&mut a, i).map_err(|e| e.to_string())).collect())
}

/// Opens an archive with `zip::ZipArchive::new`, opens entry `index` with
/// `by_index` and reads it to a string. The archive is read from the bytes
/// alone, so the text is what [`zip_text`] names.
#[verifier::external_body]
pub(crate) fn zip_entry_text(bytes: &[u8], index: usize) -> (r: Result<String, String>)
    ensures
        entry_view(r) == zip_text(bytes@, index as nat),
{
    let mut a = match zip::ZipArchive::new(std::io::Cursor::new(bytes)) {
        Ok(a) => a,
        Err(e) => return Err(e.to_string()),
    };
    let mut f = match a.by_index(index) {
        Ok(f) => f,
        Err(e) => return Err(e.to_string()),
    };
    let mut s = String::new();
    match std::io::Read::read_to_string(&mut f, &mut s) {
        Ok(_) => Ok(s),
        Err(e) => Err(e.to_string()),
    }
}

/// The name of the element that holds a run of text.
pub open spec fn text_tag() -> Seq<u8> {
    seq![97u8, 58u8, 116u8]
}

/// While reading a slide: whether a run of text is open, and the texts
/// kept so far.
pub struct SlideState {
    pub inside: bool,
    pub texts: Seq<Seq<char>>,
}

/// The state after one more event: the start and the end of a run of text
/// open and close it, and text inside a run is kept unless it is empty.
pub open spec fn slide_step(st: SlideState, p: PieceModel) -> SlideState {
    match p {
        PieceModel::Start(n) => if n == text_tag() {
            SlideState { inside: true, ..st }
        } else {
            st
        },
        PieceModel::Text(t) => if st.inside && t.len() > 0 {
            SlideState { texts: st.texts.push(t), ..st }
        } else {
            st
        },
        PieceModel::End(n) => if n == text_tag() {
            SlideState { inside: false, ..st }
        } else {
            st
        },
        PieceModel::Other => st,
    }
}

/// The state after the events.
pub open spec fn slide_run(pieces: Seq<PieceModel>) -> SlideState
    decreases pieces.len(),
{
    if pieces.len() == 0 {
        SlideState { inside: false, texts: Seq::empty() }
    } else {
        slide_step(slide_run(pieces.drop_last()), pieces.last())
    }
}

/// The text of a slide: the texts of its runs, a space between them.
pub open spec fn slide_text(pieces: Seq<PieceModel>) -> Seq<char> {
    join(slide_run(pieces).texts, seq![' '])
}

/// An entry of this name is a slide.
pub open spec fn is_slide(name: Seq<char>) -> bool {
    starts_with(name, "ppt/slides/slide"@) && ends_with(name, ".xml"@)
}

/// Why the slides of a presentation could not be read.
pub enum SlideFailure {
    /// The archive or a slide could not be parsed.
    Parse(Seq<char>),
    /// A slide could not be read from the archive.
    Io(Seq<char>),
}

/// What one entry of the archive is to the loader, as mathematics.
pub enum SourceModel {
    /// The entry cannot be opened; the message of the error.
    BadEntry(Seq<char>),
    /// The entry is no slide.
    NotASlide,
    /// The entry is a slide that cannot be read; the message of the error.
    Unreadable(Seq<char>),
    /// The entry is a slide that cannot be parsed; the message of the
    /// error.
    Unparsable(Seq<char>),
    /// A slide, with the events of its parse.
    Slide(Seq<PieceModel>),
}

/// What one entry of the archive is to the loader.
#[derive(Debug)]
pub enum SlideSource {
    /// The entry cannot be opened; the message of the error.
    BadEntry(String),
    /// The entry is no slide.
    NotASlide,
    /// The entry is a slide that cannot be read; the message of the error.
    Unreadable(String),
    /// The entry is a slide that cannot be parsed; the message of the
    /// error.
    Unparsable(String),
    /// A slide, with the events of its parse.
    Slide(Vec<XmlPiece>),
}

impl View for SlideSource {
    type V = SourceModel;

    open spec fn view(&self) -> SourceModel {
        match self {
            SlideSource::BadEntry(e) => SourceModel::BadEntry(e@),
            SlideSource::NotASlide => SourceModel::NotASlide,
            SlideSource::Unreadable(e) => SourceModel::Unreadable(e@),
            SlideSource::Unparsable(e) => SourceModel::Unparsable(e@),
            SlideSource::Slide(p) => SourceModel::Slide(piece_views(p@)),
        }
    }
}

/// The models of a list of entries.
pub open spec fn source_views(sources: Seq<SlideSource>) -> Seq<SourceModel> {
    sources.map_values(|s: SlideSource| s@)
}

/// What entry `index` of an archive is to the loader, by its name.
pub open spec fn source_of(bytes: Seq<u8>, name: Result<Seq<char>, Seq<char>>, index: nat) -> SourceModel {
    match name {
        Err(e) => SourceModel::BadEntry(e),
        Ok(n) => if !is_slide(n) {
            SourceModel::NotASlide
        } else {
            match zip_text(bytes, index) {
                Err(e) => SourceModel::Unreadable(e),
                Ok(xml) => match xml_events(xml) {
                    Err(e) => SourceModel::Unparsable(e),
                    Ok(pieces) => SourceModel::Slide(pieces),
                },
            }
        },
    }
}

/// The slides read so far: the texts that are kept, and the number of
/// slides seen.
pub struct Slides {
    pub texts: Seq<Seq<char>>,
    pub count: nat,
}

/// What one slide adds: its number counts, and its text is kept unless it
/// is empty, behind a line with its number where slides are numbered.
pub open spec fn with_slide(numbered: bool, s: Slides, text: Seq<char>) -> Slides {
    let count = s.count + 1;
    if text.len() == 0 {
        Slides { texts: s.texts, count }
    } else if numbered {
        Slides { texts: s.texts.push("--- Slide "@ + decimal(count) + " ---\n"@ + text), count }
    } else {
        Slides { texts: s.texts.push(text), count }
    }
}

/// The slides among the first `n` entries, or the first failure: an entry
/// that cannot be opened, a slide that cannot be read, a slide that cannot
/// be parsed.
pub open spec fn slides_upto(numbered: bool, sources: Seq<SourceModel>, n: nat) -> Result<
    Slides,
    SlideFailure,
>
    decreases n,
{
    if n == 0 || n > sources.len() {
        Ok(Slides { texts: Seq::empty(), count: 0 })
    } else {
        match slides_upto(numbered, sources, (n - 1) as nat) {
            Err(f) => Err(f),
            Ok(s) => match sources[n - 1] {
                SourceModel::BadEntry(e) => Err(SlideFailure::Parse("Failed to read ZIP entry: "@ + e)),
                SourceModel::NotASlide => Ok(s),
                SourceModel::Unreadable(e) => Err(SlideFailure::Io(e)),
                SourceModel::Unparsable(e) => Err(SlideFailure::Parse("XML parsing error: "@ + e)),
                SourceModel::Slide(pieces) => Ok(with_slide(numbered, s, slide_text(pieces))),
            },
        }
    }
}

/// The entries of an archive, each as it is to the loader.
pub open spec fn sources_of(bytes: Seq<u8>, names: Seq<Result<Seq<char>, Seq<char>>>) -> Seq<SourceModel> {
    Seq::new(names.len(), |i: int| source_of(bytes, names[i], i as nat))
}

/// What reading the slides of a presentation gives: the slides of all the
/// entries, or the first failure. Bytes that are no archive are a failure
/// to parse.
pub open spec fn slides_of(numbered: bool, bytes: Seq<u8>) -> Result<Slides, SlideFailure> {
    match zip_names(bytes) {
        Err(e) => Err(SlideFailure::Parse("Failed to open PPTX ZIP: "@ + e)),
        Ok(names) => slides_upto(numbered, sources_of(bytes, names), names.len()),
    }
}

/// Error `e` reports failure `f`.
pub open spec fn reports(e: LoaderError, f: SlideFailure) -> bool {
    match f {
        SlideFailure::Parse(m) => e is ParseError && e->ParseError_0@ == m,
        SlideFailure::Io(m) => e is Io && e->Io_0@ == m,
    }
}

/// What the loader records of a presentation.
pub open spec fn pptx_metadata(count: nat) -> Map<Seq<char>, Seq<char>> {
    Map::<Seq<char>, Seq<char>>::empty().insert("format"@, "pptx"@).insert(
        "type"@,
        "presentation"@,
    ).insert("slides"@, decimal(count))
}

/// The error with `prefix` in front of the message.
pub fn parse_error(prefix: &str, message: &str) -> (e: LoaderError)
    ensures
        e is ParseError,
        e->ParseError_0@ == prefix@ + message@,
{
    let mut out: Vec<char> = Vec::new();
    push_str(&mut out, prefix);
    push_str(&mut out, message);
    LoaderError::ParseError(string_of(&out))
}

/// Whether the bytes are the name of the element that holds a run of
/// text.
pub fn is_text_tag(name: &Vec<u8>) -> (b: bool)
    ensures
        b == (name@ == text_tag()),
{
    let b = name.len() == 3 && name[0] == 97u8 && name[1] == 58u8 && name[2] == 116u8;
    proof {
        if b {
            assert(name@ =~= text_tag());
        }
        if name@ == text_tag() {
            assert(name@[0] == 97u8 && name@[1] == 58u8 && name@[2] == 116u8);
        }
    }
    b
}

/// Loader for PowerPoint files.
#[derive(Debug)]
pub struct PptxLoader {
    /// Whether each slide stands behind a line with its number.
    pub include_slide_numbers: bool,
    /// Whether metadata is recorded.
    pub extract_metadata: bool,
}

impl PptxLoader {
    /// A loader that numbers no slides and records no metadata.
    pub fn new() -> (l: PptxLoader)
        ensures
            l == (PptxLoader { include_slide_numbers: false, extract_metadata: false }),
    {
        PptxLoader { include_slide_numbers: false, extract_metadata: false }
    }

    /// Numbers the slides.
    pub fn with_slide_numbers(self) -> (l: PptxLoader)
        ensures
            l == (PptxLoader { include_slide_numbers: true, ..self }),
    {
        PptxLoader { include_slide_numbers: true, extract_metadata: self.extract_metadata }
    }

    /// Records metadata.
    pub fn with_metadata(self) -> (l: PptxLoader)
        ensures
            l == (PptxLoader { extract_metadata: true, ..self }),
    {
        PptxLoader { include_slide_numbers: self.include_slide_numbers, extract_metadata: true }
    }

    /// The text of one slide, from the events of its parse.
    pub fn slide_text_of(&self, pieces: &Vec<XmlPiece>) -> (r: String)
        ensures
            r@ == slide_text(piece_views(pieces@)),
    {
        let ghost all = piece_views(pieces@);
        let mut texts: Vec<Vec<char>> = Vec::new();
        let mut inside = false;
        let mut i: usize = 0;
        assert(all.take(0) =~= Seq::<PieceModel>::empty());
        assert(views(texts@) =~= Seq::<Seq<char>>::empty());
        while i < pieces.len()
            invariant
                i <= pieces.len(),
                all == piece_views(pieces@),
                inside == slide_run(all.take(i as int)).inside,
                views(texts@) == slide_run(all.take(i as int)).texts,
            decreases pieces.len() - i,
        {
            proof {
                assert(all.take(i as int + 1).drop_last() =~= all.take(i as int));
                assert(all.take(i as int + 1).last() == pieces@[i as int]@);
            }
            match &pieces[i] {
                XmlPiece::Start(n) => {
                    if is_text_tag(n) {
                        inside = true;
                    }
                },
                XmlPiece::Text(t) => {
                    let v = chars_of(t.as_str());
                    if inside && v.len() > 0 {
                        let ghost texts0 = texts@;
                        texts.push(v);
                        assert(views(texts@) =~= views(texts0).push(v@));
                    }
                },
                XmlPiece::End(n) => {
                    if is_text_tag(n) {
                        inside = false;
                    }
                },
                XmlPiece::Other => {},
            }
            i += 1;
        }
        assert(all.take(i as int) =~= all);
        let sep = chars_of(" ");
        proof {
            reveal_strlit(" ");
            assert(sep@ =~= seq![' ']);
        }
        string_of(&join_chars(&texts, &sep))
    }

    /// The text of one slide, from its XML.
    pub fn extract_slide_text(&self, xml_content: &str) -> (r: Result<String, LoaderError>)
        ensures
            match xml_events(xml_content@) {
                Ok(pieces) => r is Ok && r->Ok_0@ == slide_text(pieces),
                Err(e) => r is Err && r->Err_0 is ParseError && r->Err_0->ParseError_0@
                    == "XML parsing error: "@ + e,
            },
    {
        match xml_pieces(xml_content) {
            Ok(pieces) => Ok(self.slide_text_of(&pieces)),
            Err(e) => Err(parse_error("XML parsing error: ", e.as_str())),
        }
    }

    /// The text of the slides among the entries, two line feeds between
    /// them, and the number of slides; or the first failure among the
    /// entries.
    pub fn collect_slides(&self, sources: &Vec<SlideSource>) -> (r: Result<(String, usize), LoaderError>)
        ensures
            match slides_upto(self.include_slide_numbers, source_views(sources@), sources@.len()) {
                Ok(s) => r is Ok && r->Ok_0.0@ == join(s.texts, "\n\n"@) && r->Ok_0.1 == s.count,
                Err(f) => r is Err && reports(r->Err_0, f),
            },
    {
        let ghost all = source_views(sources@);
        let mut texts: Vec<Vec<char>> = Vec::new();
        let mut count: usize = 0;
        let mut i: usize = 0;
        assert(views(texts@) =~= Seq::<Seq<char>>::empty());
        while i < sources.len()
            invariant
                i <= sources.len(),
                all == source_views(sources@),
                count <= i,
                slides_upto(self.include_slide_numbers, all, i as nat) == Ok::<Slides, SlideFailure>(
                    Slides { texts: views(texts@), count: count as nat },
                ),
            decreases sources.len() - i,
        {
            assert(all[i as int] == sources@[i as int]@);
            match &sources[i] {
                SlideSource::BadEntry(e) => {
                    proof {
                        lemma_failure_stays(self.include_slide_numbers, all, i as nat + 1);
                    }
                    return Err(parse_error("Failed to read ZIP entry: ", e.as_str()));
                },
                SlideSource::NotASlide => {},
                SlideSource::Unreadable(e) => {
                    proof {
                        lemma_failure_stays(self.include_slide_numbers, all, i as nat + 1);
                    }
                    return Err(LoaderError::Io(e.clone()));
                },
                SlideSource::Unparsable(e) => {
                    proof {
                        lemma_failure_stays(self.include_slide_numbers, all, i as nat + 1);
                    }
                    return Err(parse_error("XML parsing error: ", e.as_str()));
                },
                SlideSource::Slide(pieces) => {
                    count += 1;
                    let text = self.slide_text_of(pieces);
                    let t = chars_of(text.as_str());
                    if t.len() > 0 {
                        let ghost texts0 = texts@;
                        if self.include_slide_numbers {
                            let mut line: Vec<char> = Vec::new();
                            push_str(&mut line, "--- Slide ");
                            push_decimal(&mut line, count);
                            push_str(&mut line, " ---\n");
                            push_all(&mut line, &t);
                            texts.push(line);
                            assert(views(texts@) =~= views(texts0).push(line@));
                        } else {
                            texts.push(t);
                            assert(views(texts@) =~= views(texts0).push(t@));
                        }
                    }
                },
            }
            i += 1;
        }
        let sep = chars_of("\n\n");
        Ok((string_of(&join_chars(&texts, &sep)), count))
    }

    /// Reads the entries of an archive: the name of each, and, for each
    /// slide, its content and the events of its parse.
    pub fn read_sources(bytes: &[u8]) -> (r: Result<Vec<SlideSource>, String>)
        ensures
            match r {
                Ok(v) => zip_names(bytes@) is Ok && source_views(v@) == sources_of(
                    bytes@,
                    zip_names(bytes@)->Ok_0,
                ),
                Err(e) => zip_names(bytes@) == Err::<Seq<Result<Seq<char>, Seq<char>>>, Seq<char>>(e@),
            },
    {
        let names = match zip_entry_names(bytes) {
            Ok(n) => n,
            Err(e) => {
                return Err(e);
            },
        };
        let ghost all = zip_names(bytes@)->Ok_0;
        let marker = chars_of("ppt/slides/slide");
        let ending = chars_of(".xml");
        let mut out: Vec<SlideSource> = Vec::new();
        let mut i: usize = 0;
        while i < names.len()
            invariant
                i <= names.len(),
                names@.len() == all.len(),
                forall|k: int| 0 <= k < names@.len() ==> entry_view(#[trigger] names@[k]) == all[k],
                marker@ == "ppt/slides/slide"@,
                ending@ == ".xml"@,
                out@.len() == i,
                forall|k: int| 0 <= k < i ==> (#[trigger] out@[k])@ == source_of(bytes@, all[k], k as nat),
            decreases names.len() - i,
        {
            let source = match &names[i] {
                Err(e) => SlideSource::BadEntry(e.clone()),
                Ok(name) => {
                    let n = chars_of(name.as_str());
                    if begins_with(&n, &marker) && finishes_with(&n, &ending) {
                        match zip_entry_text(bytes, i) {
                            Err(e) => SlideSource::Unreadable(e),
                            Ok(xml) => match xml_pieces(xml.as_str()) {
                                Err(e) => SlideSource::Unparsable(e),
                                Ok(pieces) => SlideSource::Slide(pieces),
                            },
                        }
                    } else {
                        SlideSource::NotASlide
                    }
                },
            };
            out.push(source);
            i += 1;
        }
        assert(source_views(out@) =~= sources_of(bytes@, all));
        Ok(out)
    }

    /// The text of the slides of a presentation, two line feeds between
    /// them, and the number of slides.
    pub fn extract_text(&self, bytes: &[u8]) -> (r: Result<(String, usize), LoaderError>)
        ensures
            match slides_of(self.include_slide_numbers, bytes@) {
                Ok(s) => r is Ok && r->Ok_0.0@ == join(s.texts, "\n\n"@) && r->Ok_0.1 == s.count,
                Err(f) => r is Err && reports(r->Err_0, f),
            },
    {
        match Self::read_sources(bytes) {
            Ok(sources) => self.collect_slides(&sources),
            Err(e) => Err(parse_error("Failed to open PPTX ZIP: ", e.as_str())),
        }
    }

    /// Loads a presentation from the bytes of its file. The path must end
    /// in `.pptx`, in any case of letters.
    pub fn load(&self, source: &str, bytes: &[u8]) -> (r: Result<Document, LoaderError>)
        ensures
            match extension_problem(source@, "pptx"@) {
                Some(m) => r is Err && r->Err_0 is UnsupportedFormat && r->Err_0->UnsupportedFormat_0@ == m,
                None => match slides_of(self.include_slide_numbers, bytes@) {
                    Ok(s) => r is Ok && r->Ok_0@.source == source@ && r->Ok_0@.content == join(
                        s.texts,
                        "\n\n"@,
                    ) && r->Ok_0@.metadata == pptx_metadata(s.count),
                    Err(f) => r is Err && reports(r->Err_0, f),
                },
            },
    {
        match check_extension(source, "pptx") {
            Ok(_) => {},
            Err(e) => {
                return Err(e);
            },
        }
        match self.extract_text(bytes) {
            Ok((content, count)) => {
                let mut document = Document::new(content, source.to_owned());
                document.add_metadata("format", "pptx");
                document.add_metadata("type", "presentation");
                let mut n: Vec<char> = Vec::new();
                push_decimal(&mut n, count);
                assert(n@ =~= decimal(count as nat));
                document.add_metadata("slides", string_of(&n).as_str());
                Ok(document)
            },
            Err(e) => Err(e),
        }
    }

    /// The loader that the options ask for: metadata where they include
    /// it, slide numbers where the custom option `include_slide_numbers`
    /// is `true`.
    pub fn from_options(options: &LoaderOptions) -> (l: PptxLoader)
        ensures
            l.extract_metadata == options.include_metadata,
            l.include_slide_numbers == (options.custom@.contains_key("include_slide_numbers"@)
                && options.custom@["include_slide_numbers"@] == "true"@),
    {
        let mut loader = PptxLoader::new();
        if options.include_metadata {
            loader = loader.with_metadata();
        }
        match options.custom.get("include_slide_numbers") {
            Some(val) => {
                if text_is(val.as_str(), "true") {
                    loader = loader.with_slide_numbers();
                }
            },
            None => {},
        }
        loader
    }

    /// `PptxLoader`.
    pub fn name(&self) -> (n: &'static str)
        ensures
            n@ == "PptxLoader"@,
    {
        "PptxLoader"
    }

    /// `pptx`.
    pub fn supported_extensions(&self) -> (e: Vec<&'static str>)
        ensures
            e@.len() == 1,
            e@[0]@ == "pptx"@,
    {
        vec!["pptx"]
    }
}

/// A failure among the first `n` entries is the failure of all the
/// entries.
pub proof fn lemma_failure_stays(numbered: bool, sources: Seq<SourceModel>, n: nat)
    requires
        n <= sources.len(),
        slides_upto(numbered, sources, n) is Err,
    ensures
        slides_upto(numbered, sources, sources.len()) == slides_upto(numbered, sources, n),
    decreases sources.len() - n,
{
    if n < sources.len() {
        lemma_failure_stays(numbered, sources, n + 1);
    }
}

} // verus!
