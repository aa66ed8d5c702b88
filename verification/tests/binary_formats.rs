use lopdf::content::{Content, Operation};
use lopdf::{Document, Object, Stream};
use std::io::{Cursor, Write};
use vecstore::document::LoaderError;
use vecstore::loaders::docx_loader::{text_of_paragraph, text_of_run, DocxBlock, DocxLoader};
use vecstore::loaders::epub_loader::{
    has_value_at, is_plain_container, skip_blanks, EpubBook, EpubLoader,
};
use vecstore::loaders::pdf::{PdfBook, PdfLoader};
use vecstore::loaders::pptx_loader::{PptxLoader, XmlPiece};

fn zip_of(files: &[(&str, &str)]) -> Vec<u8> {
    let mut w = zip::ZipWriter::new(Cursor::new(Vec::new()));
    let options = zip::write::SimpleFileOptions::default()
        .compression_method(zip::CompressionMethod::Stored);
    for (name, content) in files {
        w.start_file(*name, options).unwrap();
        w.write_all(content.as_bytes()).unwrap();
    }
    w.finish().unwrap().into_inner()
}

fn slide(texts: &[&str]) -> String {
    let runs: String = texts
        .iter()
        .map(|t| format!("<a:p><a:r><a:t>{}</a:t></a:r></a:p>", t))
        .collect();
    format!(
        "<?xml version=\"1.0\"?><p:sld xmlns:a=\"urn:a\" xmlns:p=\"urn:p\"><p:title>skipped</p:title>{}</p:sld>",
        runs
    )
}

#[test]
fn pptx_slides_are_read_in_order() {
    let bytes = zip_of(&[
        ("[Content_Types].xml", "<Types/>"),
        ("ppt/slides/slide1.xml", &slide(&["Hello", "World &amp; all"])),
        ("ppt/slides/_rels/slide1.xml.rels", "<Relationships/>"),
        ("ppt/slides/slide2.xml", &slide(&[])),
        ("ppt/slides/slide3.xml", &slide(&["Third"])),
        ("ppt/notes/slide9.xml", &slide(&["a note"])),
    ]);
    let d = PptxLoader::new().load("deck.pptx", &bytes).unwrap();
    assert_eq!(d.content, "Hello World & all\n\nThird");
    assert_eq!(d.metadata.get("slides"), Some(&"3".to_string()));
    assert_eq!(d.metadata.get("format"), Some(&"pptx".to_string()));
    assert_eq!(d.metadata.get("type"), Some(&"presentation".to_string()));
    let numbered = PptxLoader::new().with_slide_numbers().load("DECK.PPTX", &bytes).unwrap();
    assert_eq!(numbered.content, "--- Slide 1 ---\nHello World & all\n\n--- Slide 3 ---\nThird");
    let (text, count) = PptxLoader::new().extract_text(&bytes).unwrap();
    assert_eq!(count, 3);
    assert_eq!(text, "Hello World & all\n\nThird");
}

#[test]
fn pptx_failures() {
    match PptxLoader::new().load("deck.ppt", b"") {
        Err(LoaderError::UnsupportedFormat(m)) => assert_eq!(m, "Expected .pptx file, got .ppt"),
        _ => panic!("Expected UnsupportedFormat"),
    }
    match PptxLoader::new().load("deck", b"") {
        Err(LoaderError::UnsupportedFormat(m)) => assert_eq!(m, "No file extension"),
        _ => panic!("Expected UnsupportedFormat"),
    }
    match PptxLoader::new().load("deck.pptx", b"this is no archive") {
        Err(LoaderError::ParseError(m)) => assert!(m.starts_with("Failed to open PPTX ZIP: ")),
        _ => panic!("Expected ParseError"),
    }
    let broken = zip_of(&[("ppt/slides/slide1.xml", "<a:t>open</b:t>")]);
    match PptxLoader::new().load("deck.pptx", &broken) {
        Err(LoaderError::ParseError(m)) => assert!(m.starts_with("XML parsing error: ")),
        _ => panic!("Expected ParseError"),
    }
    let loader = PptxLoader::new();
    assert_eq!(loader.extract_slide_text(&slide(&["one", "two"])).unwrap(), "one two");
    assert_eq!(loader.extract_slide_text("").unwrap(), "");
    let pieces = vec![
        XmlPiece::Text("outside".to_string()),
        XmlPiece::Start(b"a:t".to_vec()),
        XmlPiece::Text("in".to_string()),
        XmlPiece::Text(String::new()),
        XmlPiece::Other,
        XmlPiece::Text("too".to_string()),
        XmlPiece::End(b"a:t".to_vec()),
        XmlPiece::Start(b"a:tt".to_vec()),
        XmlPiece::Text("after".to_string()),
    ];
    assert_eq!(loader.slide_text_of(&pieces), "in too");
}

fn docx_bytes() -> Vec<u8> {
    let table = docx_rs::Table::new(vec![
        docx_rs::TableRow::new(vec![docx_rs::TableCell::new()]),
        docx_rs::TableRow::new(vec![docx_rs::TableCell::new()]),
    ]);
    let docx = docx_rs::Docx::new()
        .add_paragraph(
            docx_rs::Paragraph::new()
                .add_run(docx_rs::Run::new().add_text("Hello "))
                .add_run(docx_rs::Run::new().add_text("World")),
        )
        .add_paragraph(docx_rs::Paragraph::new())
        .add_table(table)
        .add_paragraph(docx_rs::Paragraph::new().add_run(docx_rs::Run::new().add_text("Bye")));
    let mut out = Cursor::new(Vec::new());
    docx.build().pack(&mut out).unwrap();
    out.into_inner()
}

/// Reads a document with `docx_rs` and hands over its body as plain values.
fn docx_body(bytes: &[u8]) -> Result<Vec<DocxBlock>, String> {
    let docx = docx_rs::read_docx(bytes).map_err(|e| format!("{:?}", e))?;
    let mut blocks = Vec::new();
    for child in docx.document.children {
        blocks.push(match child {
            docx_rs::DocumentChild::Paragraph(p) => DocxBlock::Paragraph(
                p.children
                    .into_iter()
                    .map(|x| match x {
                        docx_rs::ParagraphChild::Run(r) => Some(
                            r.children
                                .into_iter()
                                .map(|c| match c {
                                    docx_rs::RunChild::Text(t) => Some(t.text),
                                    _ => None,
                                })
                                .collect(),
                        ),
                        _ => None,
                    })
                    .collect(),
            ),
            docx_rs::DocumentChild::Table(t) => DocxBlock::Table(t.rows.len()),
            _ => DocxBlock::Other,
        });
    }
    Ok(blocks)
}

fn run(texts: &[&str]) -> Option<Vec<Option<String>>> {
    Some(texts.iter().map(|t| Some(t.to_string())).collect())
}

#[test]
fn docx_paragraphs_and_tables() {
    let body = docx_body(&docx_bytes());
    let d = DocxLoader::new().load("letter.docx", &body).unwrap();
    assert_eq!(d.content, "Hello World\n\n[Table content]\n\n[Table content]\n\nBye");
    assert_eq!(d.metadata.get("format"), Some(&"docx".to_string()));
    assert_eq!(d.metadata.get("type"), Some(&"document".to_string()));
    let with = DocxLoader::new().with_metadata().load("LETTER.DOCX", &body).unwrap();
    assert_eq!(with.content, d.content);
    let blocks = body.unwrap();
    match &blocks[0] {
        DocxBlock::Paragraph(pieces) => {
            assert_eq!(text_of_paragraph(pieces).into_iter().collect::<String>(), "Hello World")
        }
        other => panic!("a paragraph, not {:?}", other),
    }
    match &blocks[1] {
        DocxBlock::Paragraph(pieces) => assert!(text_of_paragraph(pieces).is_empty()),
        other => panic!("a paragraph, not {:?}", other),
    }
    assert!(matches!(&blocks[2], DocxBlock::Table(2)));
}

#[test]
fn docx_failures_and_blocks() {
    match DocxLoader::new().load("letter.doc", &docx_body(b"")) {
        Err(LoaderError::UnsupportedFormat(m)) => assert_eq!(m, "Expected .docx file, got .doc"),
        _ => panic!("Expected UnsupportedFormat"),
    }
    // The extension is held against the path whatever was read.
    match DocxLoader::new().load("letter.doc", &Ok(vec![])) {
        Err(LoaderError::UnsupportedFormat(m)) => assert_eq!(m, "Expected .docx file, got .doc"),
        _ => panic!("Expected UnsupportedFormat"),
    }
    match DocxLoader::new().load("letter.docx", &docx_body(b"no document")) {
        Err(LoaderError::ParseError(m)) => assert!(m.starts_with("Failed to parse DOCX: ")),
        _ => panic!("Expected ParseError"),
    }
    match DocxLoader::new().load("letter.docx", &Err("ZipError".to_string())) {
        Err(LoaderError::ParseError(m)) => assert_eq!(m, "Failed to parse DOCX: ZipError"),
        _ => panic!("Expected ParseError"),
    }
    let blocks = vec![
        DocxBlock::Paragraph(vec![run(&["o", "n"]), None, run(&["e"])]),
        DocxBlock::Other,
        DocxBlock::Paragraph(vec![]),
        DocxBlock::Paragraph(vec![None, Some(vec![None]), run(&[""])]),
        DocxBlock::Table(0),
        DocxBlock::Table(1),
        DocxBlock::Paragraph(vec![Some(vec![None, Some("two".to_string()), None])]),
    ];
    assert_eq!(DocxLoader::new().extract_text(&blocks), "one\n\n[Table content]\n\ntwo");
    assert_eq!(DocxLoader::new().extract_text(&vec![]), "");
    let texts = vec![Some("a".to_string()), None, Some("bc".to_string())];
    assert_eq!(text_of_run(&texts), vec!['a', 'b', 'c']);
    assert_eq!(text_of_run(&vec![]), Vec::<char>::new());
}

fn epub_bytes() -> Vec<u8> {
    epub_with_container("<?xml version=\"1.0\"?><container version=\"1.0\" xmlns=\"urn:oasis:names:tc:opendocument:xmlns:container\"><rootfiles><rootfile full-path=\"OEBPS/content.opf\" media-type=\"application/oebps-package+xml\"/></rootfiles></container>")
}

fn epub_with_container(container: &str) -> Vec<u8> {
    let opf = "<?xml version=\"1.0\"?><package xmlns=\"http://www.idpf.org/2007/opf\" version=\"2.0\" unique-identifier=\"id\"><metadata xmlns:dc=\"http://purl.org/dc/elements/1.1/\"><dc:title>The Book</dc:title><dc:creator>An Author</dc:creator><dc:language>en</dc:language><dc:identifier id=\"id\">urn:x</dc:identifier></metadata><manifest><item id=\"c1\" href=\"c1.xhtml\" media-type=\"application/xhtml+xml\"/><item id=\"c2\" href=\"c2.xhtml\" media-type=\"application/xhtml+xml\"/><item id=\"c3\" href=\"c3.xhtml\" media-type=\"application/xhtml+xml\"/></manifest><spine><itemref idref=\"c1\"/><itemref idref=\"c2\"/><itemref idref=\"c3\"/></spine></package>";
    zip_of(&[
        ("mimetype", "application/epub+zip"),
        ("META-INF/container.xml", container),
        ("OEBPS/content.opf", opf),
        ("OEBPS/c1.xhtml", "<html><body><h1>One</h1><p>first  page</p></body></html>"),
        ("OEBPS/c2.xhtml", "<html><body>  </body></html>"),
        ("OEBPS/c3.xhtml", "<html><body><p>last</p><style>p {}</style></body></html>"),
    ])
}

#[test]
fn epub_pages_and_metadata() {
    let bytes = epub_bytes();
    let d = EpubLoader::new().load("book.epub", bytes.clone()).unwrap();
    assert_eq!(d.content, "Onefirst page\n\nlast");
    assert_eq!(d.metadata.get("format"), Some(&"epub".to_string()));
    assert_eq!(d.metadata.get("type"), Some(&"book".to_string()));
    assert_eq!(d.metadata.get("pages"), Some(&"3".to_string()));
    assert_eq!(d.metadata.get("title"), None);
    let full = EpubLoader::new().with_metadata().with_chapters().load("BOOK.EPUB", bytes).unwrap();
    assert_eq!(full.content, "=== Chapter 1 ===\nOnefirst page\n\n=== Chapter 3 ===\nlast");
    assert_eq!(full.metadata.get("title"), Some(&"The Book".to_string()));
    assert_eq!(full.metadata.get("author"), Some(&"An Author".to_string()));
    assert_eq!(full.metadata.get("language"), Some(&"en".to_string()));
    assert_eq!(full.metadata.get("publisher"), None);
    assert_eq!(full.metadata.get("pages"), Some(&"3".to_string()));
}

#[test]
fn epub_containers_in_other_spellings() {
    let plain = epub_bytes();
    let expected = EpubLoader::new().load("book.epub", plain).unwrap().content;
    for container in [
        "<?xml version='1.0'?><container><rootfiles><rootfile full-path='OEBPS/content.opf'/></rootfiles></container>",
        "<?xml version=\"1.0\"?><container><rootfiles><rootfile full-path = \"OEBPS/content.opf\"/></rootfiles></container>",
        "\u{feff}<?xml version=\"1.0\"?><container><rootfiles><rootfile\n full-path\n=\n\"OEBPS/content.opf\"/></rootfiles></container>",
        "<?xml version=\"1.0\" encoding=\"UTF-8\"?><!-- caf\u{e9} --><container><rootfiles><rootfile full-path=\"OEBPS/content.opf\"/></rootfiles></container>",
    ] {
        let bytes = epub_with_container(container);
        assert!(is_plain_container(container.as_bytes()));
        assert_eq!(EpubLoader::new().load("book.epub", bytes).unwrap().content, expected);
    }
    // A path that names no file of the archive is an error of the reader, not a crash.
    for container in [
        "<container><rootfiles><rootfile full-path=' '/></rootfiles></container>",
        "<container><rootfiles><rootfile full-path='.'/></rootfiles></container>",
        "<container><rootfiles><rootfile full-path='..'/></rootfiles></container>",
        "<container><rootfiles><rootfile full-path='a'/></rootfiles></container>",
        "<container><rootfiles><rootfile full-path='\\'/></rootfiles></container>",
    ] {
        assert!(is_plain_container(container.as_bytes()));
        match EpubLoader::new().load("book.epub", epub_with_container(container)) {
            Err(LoaderError::ParseError(m)) => assert!(m.starts_with("Failed to open EPUB: ")),
            _ => panic!("Expected ParseError for {:?}", container),
        }
    }
}

#[test]
fn epub_failures_and_assembly() {
    match EpubLoader::new().load("book.pdf", vec![]) {
        Err(LoaderError::UnsupportedFormat(m)) => assert_eq!(m, "Expected .epub file, got .pdf"),
        _ => panic!("Expected UnsupportedFormat"),
    }
    match EpubLoader::new().load("book.epub", b"no book".to_vec()) {
        Err(LoaderError::ParseError(m)) => assert!(m.starts_with("Failed to open EPUB: ")),
        _ => panic!("Expected ParseError"),
    }
    // A container whose root file has no directory to stand in is refused.
    for path in ["", "/", "/content.opf"] {
        let container = format!(
            "<?xml version=\"1.0\"?><container><rootfiles><rootfile full-path=\"{}\"/></rootfiles></container>",
            path
        );
        let bytes = zip_of(&[("mimetype", "application/epub+zip"), ("META-INF/container.xml", &container)]);
        match EpubLoader::new().load("book.epub", bytes) {
            Err(LoaderError::ParseError(m)) => {
                assert_eq!(m, "Failed to open EPUB: the container names no usable root file")
            }
            _ => panic!("Expected ParseError"),
        }
    }
    for good in [
        "<rootfile full-path=\"a/b.opf\"/>",
        "<rootfile full-path='a/b.opf'/>",
        "<rootfile full-path = \"a/b.opf\"/>",
        "<rootfile full-path\t=\r\n'b.opf'/>",
        "\u{feff}<rootfile full-path=\"b.opf\"/>",
        "<!-- caf\u{e9} --><rootfile full-path=\"\u{e9}.opf\"/>",
        "<rootfile full-path=\" \"/>",
        "<rootfile full-path=\"a\" full-path='b'/>",
        "caf\u{e9}",
        "",
    ] {
        assert!(is_plain_container(good.as_bytes()), "{:?}", good);
    }
    for bad in [
        "<rootfile full-path=\"\"/>",
        "<rootfile full-path=''/>",
        "<rootfile full-path = ''/>",
        "<rootfile full-path=\"/\"/>",
        "<rootfile full-path='/a.opf'/>",
        "<rootfile full-path\n=\n\"/\"/>",
        "<rootfile full-path=\"&#47;\"/>",
        "<rootfile full-path=\"a&amp;b\"/>",
        "<rootfile full-path=\"'\"/>",
        "<rootfile full-path=\"a\" x:full-path=\"\"/>",
        "<rootfile full-path=\"",
        "<rootfile full-path=",
        "<rootfile full-path x=\"a\"/>",
        "full-path",
        "a\u{0}b",
    ] {
        assert!(!is_plain_container(bad.as_bytes()), "{:?}", bad);
    }
    assert!(!is_plain_container(&[0xff, 0xfe, b'<', 0]));
    assert!(!is_plain_container(&[0xfe, 0xff, 0, b'<']));
    assert_eq!(skip_blanks(b" \t\r\nx ", 0), 4);
    assert_eq!(skip_blanks(b"x ", 0), 0);
    assert_eq!(skip_blanks(b"  ", 1), 2);
    assert_eq!(skip_blanks(b"  ", 7), 2);
    assert!(has_value_at(b" = 'a'", 0));
    assert!(!has_value_at(b" = ''", 0));
    assert!(!has_value_at(b"='", 0));
    let short = EpubBook { fields: vec![Some("only".to_string())], pages: vec![] };
    let d = EpubLoader::new().with_metadata().assemble("x.epub", &short);
    assert_eq!(d.metadata.get("title"), Some(&"only".to_string()));
    assert_eq!(d.metadata.get("author"), None);
    let book = EpubBook {
        fields: vec![Some("T".to_string()), None, None, Some("2020".to_string()), None],
        pages: vec![Some("<p>a</p>".to_string()), None, Some("<p>b</p>".to_string())],
    };
    let d = EpubLoader::new().with_metadata().assemble("x.epub", &book);
    assert_eq!(d.content, "a\n\nb");
    assert_eq!(d.metadata.get("title"), Some(&"T".to_string()));
    assert_eq!(d.metadata.get("date"), Some(&"2020".to_string()));
    assert_eq!(d.metadata.get("author"), None);
    assert_eq!(d.metadata.get("pages"), Some(&"3".to_string()));
    assert_eq!(EpubLoader::new().with_chapters().extract_text(&book), "=== Chapter 1 ===\na\n\n=== Chapter 3 ===\nb");
}

fn pdf_dict(pairs: Vec<(&str, lopdf::Object)>) -> lopdf::Dictionary {
    let mut d = lopdf::Dictionary::new();
    for (k, v) in pairs {
        d.set(k, v);
    }
    d
}

fn name(n: &str) -> lopdf::Object {
    lopdf::Object::Name(n.as_bytes().to_vec())
}

fn pdf_bytes() -> Vec<u8> {
    let mut doc = Document::with_version("1.5");
    // The loader asks for the text of the page whose number is the number of
    // the page's object, so the page gets the first object number.
    let page_id = doc.new_object_id();
    let pages_id = doc.new_object_id();
    let font_id = doc.add_object(pdf_dict(vec![
        ("Type", name("Font")),
        ("Subtype", name("Type1")),
        ("BaseFont", name("Courier")),
    ]));
    let resources_id = doc.add_object(pdf_dict(vec![(
        "Font",
        Object::Dictionary(pdf_dict(vec![("F1", Object::Reference(font_id))])),
    )]));
    let content = Content {
        operations: vec![
            Operation::new("BT", vec![]),
            Operation::new("Tf", vec![name("F1"), Object::Integer(48)]),
            Operation::new("Td", vec![Object::Integer(100), Object::Integer(600)]),
            Operation::new("Tj", vec![Object::string_literal("Hello World!")]),
            Operation::new("ET", vec![]),
        ],
    };
    let content_id = doc.add_object(Stream::new(lopdf::Dictionary::new(), content.encode().unwrap()));
    doc.objects.insert(
        page_id,
        Object::Dictionary(pdf_dict(vec![
            ("Type", name("Page")),
            ("Parent", Object::Reference(pages_id)),
            ("Contents", Object::Reference(content_id)),
        ])),
    );
    doc.objects.insert(
        pages_id,
        Object::Dictionary(pdf_dict(vec![
            ("Type", name("Pages")),
            ("Kids", Object::Array(vec![Object::Reference(page_id)])),
            ("Count", Object::Integer(1)),
            ("Resources", Object::Reference(resources_id)),
            (
                "MediaBox",
                Object::Array(vec![
                    Object::Integer(0),
                    Object::Integer(0),
                    Object::Integer(595),
                    Object::Integer(842),
                ]),
            ),
        ])),
    );
    let catalog_id = doc.add_object(pdf_dict(vec![
        ("Type", name("Catalog")),
        ("Pages", Object::Reference(pages_id)),
    ]));
    doc.trailer.set("Root", Object::Reference(catalog_id));
    doc.trailer.set(
        "Info",
        Object::Dictionary(pdf_dict(vec![
            ("Title", Object::string_literal("A Title")),
            ("Author", Object::string_literal("An Author")),
        ])),
    );
    let mut out = Vec::new();
    doc.save_to(&mut out).unwrap();
    out
}

#[test]
fn pdf_text_and_information() {
    let bytes = pdf_bytes();
    let d = PdfLoader::new().load("paper.pdf", &bytes).unwrap();
    assert!(d.content.contains("Hello World!"));
    assert_eq!(d.metadata.get("format"), Some(&"pdf".to_string()));
    assert_eq!(d.metadata.get("page_count"), Some(&"1".to_string()));
    assert_eq!(d.metadata.get("title"), Some(&"A Title".to_string()));
    assert_eq!(d.metadata.get("author"), Some(&"An Author".to_string()));
    assert_eq!(d.metadata.get("subject"), None);
    assert_eq!(d.metadata.get("creation_date"), None);
    let numbered = PdfLoader::new().with_page_numbers().load("paper.pdf", &bytes).unwrap();
    assert!(numbered.content.starts_with("--- Page 1 ---\n"));
    assert!(numbered.content.contains("Hello World!"));
}

#[test]
fn pdf_failures_and_assembly() {
    match PdfLoader::new().load("paper.pdf", b"no pdf") {
        Err(LoaderError::PdfError(m)) => assert!(!m.is_empty()),
        _ => panic!("Expected PdfError"),
    }
    let options = vecstore::document::LoaderOptions::new().with_max_size(5);
    match PdfLoader::new().load_with_options("paper.pdf", b"no pdf", 6, &options) {
        Err(LoaderError::FileTooLarge(6, 5)) => {}
        _ => panic!("Expected FileTooLarge"),
    }
    let book = PdfBook {
        pages: vec![(1, Some("one".to_string())), (2, None), (3, Some("three".to_string()))],
        fields: vec![None, None, Some("S".to_string()), Some("D:2020".to_string())],
    };
    let plain = PdfLoader::new();
    assert_eq!(plain.extract_text(&book), "one\n\nthree");
    let marked = PdfLoader::new().with_page_numbers().with_page_separator("|");
    assert_eq!(marked.extract_text(&book), "--- Page 1 ---\none|--- Page 3 ---\nthree");
    let d = plain.assemble("p.pdf", &book);
    assert_eq!(d.metadata.get("page_count"), Some(&"3".to_string()));
    assert_eq!(d.metadata.get("subject"), Some(&"S".to_string()));
    assert_eq!(d.metadata.get("creation_date"), Some(&"D:2020".to_string()));
    assert_eq!(d.metadata.get("title"), None);
}

#[test]
fn pptx_collects_slides_from_sources() {
    let run = |t: &str| {
        vecstore::loaders::pptx_loader::SlideSource::Slide(vec![
            XmlPiece::Start(b"a:t".to_vec()),
            XmlPiece::Text(t.to_string()),
            XmlPiece::End(b"a:t".to_vec()),
        ])
    };
    let not = || vecstore::loaders::pptx_loader::SlideSource::NotASlide;
    let loader = PptxLoader::new().with_slide_numbers();
    let sources = vec![not(), run("one"), run(""), not(), run("three")];
    assert_eq!(
        loader.collect_slides(&sources).unwrap(),
        ("--- Slide 1 ---\none\n\n--- Slide 3 ---\nthree".to_string(), 3)
    );
    assert_eq!(loader.collect_slides(&vec![]).unwrap(), (String::new(), 0));
    let unreadable = vec![
        run("one"),
        vecstore::loaders::pptx_loader::SlideSource::Unreadable("short read".to_string()),
        vecstore::loaders::pptx_loader::SlideSource::BadEntry("later".to_string()),
    ];
    match loader.collect_slides(&unreadable) {
        Err(LoaderError::Io(m)) => assert_eq!(m, "short read"),
        _ => panic!("Expected Io"),
    }
    let bad = vec![vecstore::loaders::pptx_loader::SlideSource::BadEntry("gone".to_string()), run("x")];
    match loader.collect_slides(&bad) {
        Err(LoaderError::ParseError(m)) => assert_eq!(m, "Failed to read ZIP entry: gone"),
        _ => panic!("Expected ParseError"),
    }
    let unparsable = vec![vecstore::loaders::pptx_loader::SlideSource::Unparsable("tag".to_string())];
    match loader.collect_slides(&unparsable) {
        Err(LoaderError::ParseError(m)) => assert_eq!(m, "XML parsing error: tag"),
        _ => panic!("Expected ParseError"),
    }
}
