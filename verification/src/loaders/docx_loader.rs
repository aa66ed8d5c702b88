//! Loader for Word documents.
//!
//! The file is read outside the library, by `docx_rs`; the loader is
//! handed the body of the document as plain values and turns it into
//! text.

use vstd::prelude::*;
use crate::document::{Document, LoaderError, LoaderOptions, Metadata};
use crate::loaders::common::{check_extension, extension_problem};
use crate::text::{chars_of, join, join_chars, push_all, push_str, string_of, views};

verus! {

/// One element of a paragraph, as mathematics: nothing where it is no run,
/// else the elements of the run, each with its text where it is text.
pub type PieceModel = Option<Seq<Option<Seq<char>>>>;

/// One element of the body, as mathematics.
pub enum BlockModel {
    /// A paragraph, with its elements.
    Paragraph(Seq<PieceModel>),
    /// A table, with the number of its rows.
    Table(nat),
    Other,
}

/// One element of a paragraph: nothing where it is no run, else the
/// elements of the run, each with its text where it is text.
pub type DocxPiece = Option<Vec<Option<String>>>;

/// One element of the body of a document.
#[derive(Debug)]
pub enum DocxBlock {
    /// A paragraph, with its elements.
    Paragraph(Vec<DocxPiece>),
    /// A table, with the number of its rows.
    Table(usize),
    /// Anything else.
    Other,
}

/// The elements of a run, as mathematics.
pub open spec fn run_view(children: Seq<Option<String>>) -> Seq<Option<Seq<char>>> {
    Seq::new(
        children.len(),
        |i: int|
            match children[i] {
                Some(t) => Some(t@),
                None => None,
            },
    )
}

/// An element of a paragraph, as mathematics.
pub open spec fn piece_view(p: DocxPiece) -> PieceModel {
    match p {
        Some(children) => Some(run_view(children@)),
        None => None,
    }
}

/// The elements of a paragraph, as mathematics.
pub open spec fn pieces_view(pieces: Seq<DocxPiece>) -> Seq<PieceModel> {
    Seq::new(pieces.len(), |i: int| piece_view(pieces[i]))
}

impl View for DocxBlock {
    type V = BlockModel;

    open spec fn view(&self) -> BlockModel {
        match self {
            DocxBlock::Paragraph(pieces) => BlockModel::Paragraph(pieces_view(pieces@)),
            DocxBlock::Table(n) => BlockModel::Table(*n as nat),
            DocxBlock::Other => BlockModel::Other,
        }
    }
}

/// The elements of a body, as mathematics.
pub open spec fn blocks_view(blocks: Seq<DocxBlock>) -> Seq<BlockModel> {
    Seq::new(blocks.len(), |i: int| blocks[i]@)
}

/// What reading a file gave, as mathematics: the body of the document, or
/// the message of the reader's error.
pub open spec fn body_view(body: Result<Vec<DocxBlock>, String>) -> Result<Seq<BlockModel>, Seq<char>> {
    match body {
        Ok(blocks) => Ok(blocks_view(blocks@)),
        Err(e) => Err(e@),
    }
}

/// The text of the elements of a run: the texts among them, one after the
/// other.
pub open spec fn run_text(children: Seq<Option<Seq<char>>>) -> Seq<char>
    decreases children.len(),
{
    if children.len() == 0 {
        Seq::empty()
    } else {
        match children.last() {
            Some(t) => run_text(children.drop_last()) + t,
            None => run_text(children.drop_last()),
        }
    }
}

/// The text of a paragraph: the texts of its runs, one after the other.
pub open spec fn paragraph_text(pieces: Seq<PieceModel>) -> Seq<char>
    decreases pieces.len(),
{
    if pieces.len() == 0 {
        Seq::empty()
    } else {
        match pieces.last() {
            Some(run) => paragraph_text(pieces.drop_last()) + run_text(run),
            None => paragraph_text(pieces.drop_last()),
        }
    }
}

/// `parts` followed by `n` table marks.
pub open spec fn with_rows(parts: Seq<Seq<char>>, n: nat) -> Seq<Seq<char>>
    decreases n,
{
    if n == 0 {
        parts
    } else {
        with_rows(parts, (n - 1) as nat).push("[Table content]"@)
    }
}

/// The parts of the text of a body: the text of each paragraph that has
/// some, and one mark for each row of each table.
pub open spec fn body_parts(blocks: Seq<BlockModel>) -> Seq<Seq<char>>
    decreases blocks.len(),
{
    if blocks.len() == 0 {
        Seq::empty()
    } else {
        let rest = body_parts(blocks.drop_last());
        match blocks.last() {
            BlockModel::Paragraph(pieces) => if paragraph_text(pieces).len() > 0 {
                rest.push(paragraph_text(pieces))
            } else {
                rest
            },
            BlockModel::Table(n) => with_rows(rest, n),
            BlockModel::Other => rest,
        }
    }
}

/// The text of a body: its parts, two line feeds between them.
pub open spec fn body_text(blocks: Seq<BlockModel>) -> Seq<char> {
    join(body_parts(blocks), "\n\n"@)
}

/// What the loader records of a document.
pub open spec fn docx_metadata() -> Map<Seq<char>, Seq<char>> {
    Map::<Seq<char>, Seq<char>>::empty().insert("format"@, "docx"@).insert("type"@, "document"@)
}

/// The text of the elements of a run.
pub fn text_of_run(children: &Vec<Option<String>>) -> (out: Vec<char>)
    ensures
        out@ == run_text(run_view(children@)),
{
    let ghost all = run_view(children@);
    let mut out: Vec<char> = Vec::new();
    let mut i: usize = 0;
    assert(all.take(0) =~= Seq::<Option<Seq<char>>>::empty());
    while i < children.len()
        invariant
            i <= children.len(),
            all == run_view(children@),
            out@ == run_text(all.take(i as int)),
        decreases children.len() - i,
    {
        proof {
            assert(all.take(i as int + 1).drop_last() =~= all.take(i as int));
            assert(all.take(i as int + 1).last() == all[i as int]);
        }
        match &children[i] {
            Some(t) => {
                push_str(&mut out, t.as_str());
            },
            None => {},
        }
        i += 1;
    }
    assert(all.take(i as int) =~= all);
    out
}

/// The text of a paragraph.
pub fn text_of_paragraph(pieces: &Vec<DocxPiece>) -> (out: Vec<char>)
    ensures
        out@ == paragraph_text(pieces_view(pieces@)),
{
    let ghost all = pieces_view(pieces@);
    let mut out: Vec<char> = Vec::new();
    let mut i: usize = 0;
    assert(all.take(0) =~= Seq::<PieceModel>::empty());
    while i < pieces.len()
        invariant
            i <= pieces.len(),
            all == pieces_view(pieces@),
            out@ == paragraph_text(all.take(i as int)),
        decreases pieces.len() - i,
    {
        proof {
            assert(all.take(i as int + 1).drop_last() =~= all.take(i as int));
            assert(all.take(i as int + 1).last() == all[i as int]);
        }
        match &pieces[i] {
            Some(children) => {
                let t = text_of_run(children);
                push_all(&mut out, &t);
            },
            None => {},
        }
        i += 1;
    }
    assert(all.take(i as int) =~= all);
    out
}

/// Loader for Word documents.
#[derive(Debug)]
pub struct DocxLoader {
    /// Whether title, author and the like are recorded.
    pub extract_metadata: bool,
}

impl DocxLoader {
    /// A loader that records no metadata.
    pub fn new() -> (l: DocxLoader)
        ensures
            l == (DocxLoader { extract_metadata: false }),
    {
        DocxLoader { extract_metadata: false }
    }

    /// Records title, author and the like.
    pub fn with_metadata(self) -> (l: DocxLoader)
        ensures
            l == (DocxLoader { extract_metadata: true }),
    {
        DocxLoader { extract_metadata: true }
    }

    /// The text of a body: the text of each paragraph that has some, one
    /// mark for each row of each table, two line feeds between them.
    pub fn extract_text(&self, blocks: &Vec<DocxBlock>) -> (r: String)
        ensures
            r@ == body_text(blocks_view(blocks@)),
    {
        let ghost all = blocks_view(blocks@);
        let mut parts: Vec<Vec<char>> = Vec::new();
        let mut i: usize = 0;
        assert(all.take(0) =~= Seq::<BlockModel>::empty());
        assert(views(parts@) =~= Seq::<Seq<char>>::empty());
        while i < blocks.len()
            invariant
                i <= blocks.len(),
                all == blocks_view(blocks@),
                views(parts@) == body_parts(all.take(i as int)),
            decreases blocks.len() - i,
        {
            proof {
                assert(all.take(i as int + 1).drop_last() =~= all.take(i as int));
                assert(all.take(i as int + 1).last() == blocks@[i as int]@);
            }
            let ghost before = views(parts@);
            match &blocks[i] {
                DocxBlock::Paragraph(pieces) => {
                    let v = text_of_paragraph(pieces);
                    if v.len() > 0 {
                        let ghost parts0 = parts@;
                        parts.push(v);
                        assert(views(parts@) =~= views(parts0).push(v@));
                    }
                },
                DocxBlock::Table(n) => {
                    let mut k: usize = 0;
                    while k < *n
                        invariant
                            k <= *n,
                            views(parts@) == with_rows(before, k as nat),
                        decreases *n - k,
                    {
                        let ghost parts0 = parts@;
                        let mark = chars_of("[Table content]");
                        parts.push(mark);
                        assert(views(parts@) =~= views(parts0).push("[Table content]"@));
                        k += 1;
                    }
                },
                DocxBlock::Other => {},
            }
            i += 1;
        }
        assert(all.take(i as int) =~= all);
        let sep = chars_of("\n\n");
        string_of(&join_chars(&parts, &sep))
    }

    /// The metadata of a document; none is read so far.
    pub fn extract_docx_metadata(&self, path: &str) -> (m: Metadata)
        ensures
            m@ == Map::<Seq<char>, Seq<char>>::empty(),
    {
        Metadata::new()
    }

    /// The document for what reading a file gave: the body of the
    /// document, or the message of the reader's error. The path must end in
    /// `.docx`, in any case of letters, whatever was read; a file that is
    /// no document is reported with the error of the reader.
    pub fn load(&self, source: &str, body: &Result<Vec<DocxBlock>, String>) -> (r: Result<
        Document,
        LoaderError,
    >)
        ensures
            match extension_problem(source@, "docx"@) {
                Some(m) => r is Err && r->Err_0 is UnsupportedFormat && r->Err_0->UnsupportedFormat_0@ == m,
                None => match body_view(*body) {
                    Ok(blocks) => r is Ok && r->Ok_0@.source == source@ && r->Ok_0@.content
                        == body_text(blocks) && r->Ok_0@.metadata == docx_metadata(),
                    Err(e) => r is Err && r->Err_0 is ParseError && r->Err_0->ParseError_0@
                        == "Failed to parse DOCX: "@ + e,
                },
            },
    {
        match check_extension(source, "docx") {
            Ok(_) => {},
            Err(e) => {
                return Err(e);
            },
        }
        match body {
            Ok(blocks) => {
                let content = self.extract_text(blocks);
                let mut document = Document::new(content, source.to_owned());
                if self.extract_metadata {
                    document.metadata = self.extract_docx_metadata(source);
                }
                document.add_metadata("format", "docx");
                document.add_metadata("type", "document");
                Ok(document)
            },
            Err(e) => {
                let mut out: Vec<char> = Vec::new();
                push_str(&mut out, "Failed to parse DOCX: ");
                push_str(&mut out, e.as_str());
                Err(LoaderError::ParseError(string_of(&out)))
            },
        }
    }

    /// The loader that the options ask for: metadata where they include
    /// it.
    pub fn from_options(options: &LoaderOptions) -> (l: DocxLoader)
        ensures
            l.extract_metadata == options.include_metadata,
    {
        let mut loader = DocxLoader::new();
        if options.include_metadata {
            loader = loader.with_metadata();
        }
        loader
    }

    /// `DocxLoader`.
    pub fn name(&self) -> (n: &'static str)
        ensures
            n@ == "DocxLoader"@,
    {
        "DocxLoader"
    }

    /// `docx`.
    pub fn supported_extensions(&self) -> (e: Vec<&'static str>)
        ensures
            e@.len() == 1,
            e@[0]@ == "docx"@,
    {
        vec!["docx"]
    }
}

} // verus!
