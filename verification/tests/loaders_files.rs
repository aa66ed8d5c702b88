use std::time::Duration;
use vecstore::document::{LoaderError, LoaderOptions};
use vecstore::loaders::csv_loader::CsvLoader;
use vecstore::loaders::docx_loader::DocxLoader;
use vecstore::loaders::epub_loader::EpubLoader;
use vecstore::loaders::json_loader::JsonLoader;
use vecstore::loaders::pdf::PdfLoader;
use vecstore::loaders::pptx_loader::PptxLoader;
use vecstore::loaders::text::{FileInfo, FileProbe, TextLoader};
use vecstore::loaders::web::{HttpResponse, WebLoader};

#[test]
fn test_load_csv() {
    let content = "name,age,city\nAlice,30,NYC\nBob,25,SF\n";
    let loader = CsvLoader::new();
    let document = loader.load("data.csv", content.as_bytes()).unwrap();

    assert!(document.content.contains("Alice"));
    assert!(document.content.contains("Bob"));
    assert_eq!(document.metadata.get("row_count"), Some(&"2".to_string()));
    assert_eq!(document.content, "Alice 30 NYC\nBob 25 SF");
    assert_eq!(document.metadata.get("columns"), Some(&"name,age,city".to_string()));
    assert_eq!(document.metadata.get("format"), Some(&"csv".to_string()));
    assert_eq!(document.metadata.get("extracted_columns"), None);
}

#[test]
fn test_load_csv_no_headers() {
    let content = "Alice,30,NYC\nBob,25,SF\n";
    let loader = CsvLoader::new().with_headers(false);
    let document = loader.load("data.csv", content.as_bytes()).unwrap();

    assert!(document.content.contains("Alice"));
    assert!(document.content.contains("Bob"));
    assert_eq!(document.metadata.get("columns"), None);
    assert_eq!(document.metadata.get("row_count"), Some(&"2".to_string()));
}

#[test]
fn test_extract_columns() {
    let content = "name,age,city\nAlice,30,NYC\nBob,25,SF\n";
    let loader = CsvLoader::new().with_columns(vec!["name".to_string(), "city".to_string()]);
    let document = loader.load("data.csv", content.as_bytes()).unwrap();

    assert!(document.content.contains("Alice"));
    assert!(document.content.contains("NYC"));
    // Should not contain age column
    let lines: Vec<&str> = document.content.lines().collect();
    assert!(!lines[0].contains("30") || lines[0].contains("Alice"));
    assert_eq!(document.content, "Alice NYC\nBob SF");
    assert_eq!(document.metadata.get("extracted_columns"), Some(&"name,city".to_string()));
}

#[test]
fn test_tsv_delimiter() {
    let content = "name\tage\tcity\nAlice\t30\tNYC\n";
    let loader = CsvLoader::new().with_delimiter(b'\t');
    let document = loader.load("data.tsv", content.as_bytes()).unwrap();

    assert!(document.content.contains("Alice"));
    assert!(document.content.contains("NYC"));
}

#[test]
fn test_custom_row_separator() {
    let content = "name,age\nAlice,30\nBob,25\n";
    let loader = CsvLoader::new().with_row_separator(" | ");
    let document = loader.load("data.csv", content.as_bytes()).unwrap();

    assert!(document.content.contains(" | "));
    assert_eq!(document.content, "Alice 30 | Bob 25");
}

#[test]
fn csv_columns_unknown_order_and_errors() {
    let content = "a,b,c\n1,2,3\n , , \n4,5,6\n";
    let loader = CsvLoader::new().with_columns(vec![
        "c".to_string(),
        "zzz".to_string(),
        "a".to_string(),
    ]);
    let document = loader.load("x.csv", content.as_bytes()).unwrap();
    assert_eq!(document.content, "3 1\n6 4");
    assert_eq!(document.metadata.get("row_count"), Some(&"2".to_string()));
    assert_eq!(CsvLoader::new().select_columns(&vec!["a".to_string()]), None);
    assert_eq!(loader.select_columns(&vec![]), None);
    assert_eq!(
        loader.select_columns(&vec!["a".to_string(), "c".to_string(), "a".to_string()]),
        Some(vec![1, 0])
    );
    // A record of another length than the first is an error of the parser.
    let ragged = "a,b\n1,2\n3\n";
    match CsvLoader::new().load("x.csv", ragged.as_bytes()) {
        Err(LoaderError::ParseError(m)) => assert!(!m.is_empty()),
        _ => panic!("Expected ParseError"),
    }
    let options = LoaderOptions::new().with_max_size(3);
    match CsvLoader::new().load_with_options("x.csv", b"a\n1\n", 4, &options) {
        Err(LoaderError::FileTooLarge(4, 3)) => {}
        _ => panic!("Expected FileTooLarge error"),
    }
    assert_eq!(CsvLoader::new().name(), "CsvLoader");
    assert_eq!(CsvLoader::new().supported_extensions(), vec!["csv", "tsv"]);
}

#[test]
fn test_load_json() {
    let content = "{\"title\": \"Test\", \"content\": \"Hello world\"}\n";
    let loader = JsonLoader::new();
    let document = loader.load("data.json", content).unwrap();

    assert!(document.content.contains("Test") || document.content.contains("Hello world"));
    assert_eq!(document.metadata.get("format"), Some(&"json".to_string()));
}

#[test]
fn test_load_json_array() {
    let content = "[{\"text\": \"First\"}, {\"text\": \"Second\"}]\n";
    let loader = JsonLoader::new();
    let document = loader.load("data.json", content).unwrap();

    assert!(document.content.contains("First"));
    assert!(document.content.contains("Second"));
    assert_eq!(document.content, "First\nSecond");
}

#[test]
fn test_load_with_pretty() {
    let content = "{\"key\":\"value\"}\n";
    let loader = JsonLoader::new().with_pretty();
    let document = loader.load("data.json", content).unwrap();

    // Pretty-printed JSON should have newlines
    assert!(document.content.contains('\n'));
    assert_eq!(document.content, "{\n  \"key\": \"value\"\n}");
}

#[test]
fn test_extract_specific_fields() {
    let content = "{\"title\": \"Test\", \"content\": \"Hello\", \"ignore\": \"This\"}\n";
    let loader = JsonLoader::new().with_fields(vec!["title".to_string(), "content".to_string()]);
    let document = loader.load("data.json", content).unwrap();

    assert!(document.content.contains("Test"));
    assert!(document.content.contains("Hello"));
    // Should not contain "ignore" field
    assert!(!document.content.contains("This") || document.content.contains("Test"));
    assert_eq!(document.content, "Test\nHello");
    assert_eq!(document.metadata.get("extracted_fields"), Some(&"title,content".to_string()));
}

#[test]
fn json_values_as_text() {
    let content = r#"{"n": 42, "x": 1.5, "t": true, "f": false, "z": null, "a": [1, "two", [3]], "o": {"k": -7}}"#;
    let document = JsonLoader::new().load("d.json", content).unwrap();
    // serde_json hands the fields of an object out by name.
    assert_eq!(document.content, "1\ntwo\n3\nfalse\n42\n-7\ntrue\n1.5\n");
    let wanted = JsonLoader::new().with_fields(vec!["x".to_string(), "absent".to_string(), "n".to_string()]);
    assert_eq!(wanted.load("d.json", content).unwrap().content, "1.5\n42");
    match JsonLoader::new().load("d.json", "{oops") {
        Err(LoaderError::ParseError(m)) => assert!(m.contains("line 1")),
        _ => panic!("Expected ParseError"),
    }
    assert_eq!(JsonLoader::new().supported_extensions(), vec!["json", "jsonl", "ndjson"]);
    assert_eq!(JsonLoader::new().name(), "JsonLoader");
}

fn probe(content: &[u8]) -> FileProbe {
    FileProbe::File(
        content.to_vec(),
        FileInfo { size: Some(content.len()), modified: Some(1700000000) },
    )
}

#[test]
fn test_load_text_file() {
    let loader = TextLoader::new();
    let document = loader
        .load("notes.txt", &probe(b"Hello, world!\nThis is a test.\n"))
        .unwrap();

    assert!(document.content.contains("Hello, world!"));
    assert!(document.content.contains("This is a test."));
    assert!(!document.is_empty());
    assert_eq!(document.metadata.get("file_size"), Some(&"30".to_string()));
    assert_eq!(document.metadata.get("modified_timestamp"), Some(&"1700000000".to_string()));
    assert_eq!(document.metadata.get("extension"), Some(&"txt".to_string()));
}

#[test]
fn test_load_with_metadata() {
    let loader = TextLoader::new();
    let options = LoaderOptions::new().with_metadata();
    let bytes = b"Test content\n";
    let info = FileInfo { size: Some(bytes.len()), modified: None };

    let document = loader
        .load_with_options("/tmp/file", bytes, &info, bytes.len(), &options)
        .unwrap();

    assert!(document.metadata.contains_key("file_size"));
    assert!(document.metadata.contains_key("encoding"));
    assert_eq!(document.metadata.get("encoding"), Some(&"utf-8".to_string()));
    assert!(!document.metadata.contains_key("modified_timestamp"));
    assert!(!document.metadata.contains_key("extension"));
    let bare = loader
        .load_with_options("/tmp/file", bytes, &info, bytes.len(), &LoaderOptions::new())
        .unwrap();
    assert!(bare.metadata.is_empty());
}

#[test]
fn test_file_not_found() {
    let loader = TextLoader::new();
    let result = loader.load("/path/to/nonexistent/file.txt", &FileProbe::Missing);

    assert!(result.is_err());
    match result {
        Err(LoaderError::InvalidPath(_)) => {}
        _ => panic!("Expected InvalidPath error"),
    }
}

#[test]
fn text_not_a_file() {
    match TextLoader::new().load("/tmp", &FileProbe::NotAFile) {
        Err(LoaderError::InvalidPath(m)) => assert_eq!(m, "/tmp is not a file"),
        _ => panic!("Expected InvalidPath error"),
    }
    match TextLoader::new().load("/no/where", &FileProbe::Missing) {
        Err(e) => assert_eq!(e.message(), "Invalid path: File not found: /no/where"),
        _ => panic!("Expected InvalidPath error"),
    }
}

#[test]
fn test_max_size_limit() {
    let bytes = b"This is some test content that exceeds the limit\n";
    let loader = TextLoader::new();
    let options = LoaderOptions::new().with_max_size(10); // Very small limit
    let info = FileInfo { size: Some(bytes.len()), modified: None };

    let result = loader.load_with_options("big.txt", bytes, &info, bytes.len(), &options);

    assert!(result.is_err());
    match result {
        Err(LoaderError::FileTooLarge(_, _)) => {}
        _ => panic!("Expected FileTooLarge error"),
    }
    let e = loader
        .load_with_options("big.txt", bytes, &info, bytes.len(), &options)
        .unwrap_err();
    assert_eq!(e.message(), "File too large: 49 bytes (max: 10)");
}

#[test]
fn test_supported_extensions() {
    let loader = TextLoader::new();
    let extensions = loader.supported_extensions();

    assert!(extensions.contains(&"txt"));
    assert!(extensions.contains(&"md"));
    assert!(extensions.contains(&"log"));
}

#[test]
fn text_encodings() {
    // 0xE9 is "é" in windows-1252 and no text at all in UTF-8.
    let bytes = [b'c', b'a', b'f', 0xE9];
    let latin = TextLoader::with_encoding("windows-1252");
    assert_eq!(latin.load("a.txt", &probe(&bytes)).unwrap().content, "caf\u{e9}");
    let utf8 = TextLoader::new();
    assert_eq!(utf8.load("a.txt", &probe(&bytes)).unwrap().content, "caf\u{fffd}");
    // A label that names no encoding falls back to UTF-8.
    let unknown = TextLoader::with_encoding("no-such-encoding");
    assert_eq!(unknown.load("a.txt", &probe("na\u{ef}ve".as_bytes())).unwrap().content, "na\u{ef}ve");
    assert_eq!(utf8.load_with_encoding(&bytes, "latin1"), "caf\u{e9}");
    let options = LoaderOptions::new().with_encoding("windows-1252").with_metadata();
    let info = FileInfo { size: None, modified: Some(5) };
    let d = utf8.load_with_options("x.log", &bytes, &info, 4, &options).unwrap();
    assert_eq!(d.content, "caf\u{e9}");
    assert_eq!(d.metadata.get("encoding"), Some(&"windows-1252".to_string()));
    assert_eq!(d.metadata.get("extension"), Some(&"log".to_string()));
    assert_eq!(d.metadata.get("file_size"), None);
    assert_eq!(d.metadata.get("modified_timestamp"), None);
    assert_eq!(utf8.name(), "TextLoader");
}

#[test]
fn test_web_loader_creation() {
    let loader = WebLoader::new();
    assert_eq!(loader.name(), "WebLoader");
    assert!(loader.main_content_only);
}

#[test]
fn test_web_loader_with_timeout() {
    let loader = WebLoader::new().with_timeout(Duration::from_secs(60));
    assert_eq!(loader.timeout, Duration::from_secs(60));
}

#[test]
fn test_web_loader_custom_user_agent() {
    let loader = WebLoader::new().with_user_agent("CustomBot/1.0");
    assert_eq!(loader.user_agent, "CustomBot/1.0");
}

#[test]
fn test_web_loader_full_content() {
    let loader = WebLoader::new().with_full_content();
    assert!(!loader.main_content_only);
}

#[test]
fn test_extract_text_from_html() {
    let loader = WebLoader::new();
    let html = r#"
            <html>
                <head><title>Test Page</title></head>
                <body>
                    <article>
                        <h1>Main Content</h1>
                        <p>This is the main content.</p>
                    </article>
                </body>
            </html>
        "#;

    let text = loader.extract_text(html).unwrap();
    assert!(text.contains("Main Content"));
    assert!(text.contains("main content"));
    assert!(!text.contains("Test Page"));
}

#[test]
fn test_extract_metadata() {
    let loader = WebLoader::new();
    let html = r#"
            <html>
                <head>
                    <title>Test Page</title>
                    <meta name="description" content="Test description">
                    <meta property="og:title" content="OG Title">
                </head>
                <body></body>
            </html>
        "#;

    let metadata = loader.extract_metadata(html, "https://example.com");
    assert_eq!(metadata.get("title"), Some(&"Test Page".to_string()));
    assert_eq!(metadata.get("description"), Some(&"Test description".to_string()));
    assert_eq!(metadata.get("og_title"), Some(&"OG Title".to_string()));
    assert_eq!(metadata.get("keywords"), None);
    assert_eq!(metadata.get("url"), Some(&"https://example.com".to_string()));
}

#[test]
fn test_invalid_url() {
    let loader = WebLoader::new();
    let response = HttpResponse { success: true, status: "200 OK".to_string(), body: String::new() };
    let result = loader.load("not-a-url", &response);
    assert!(result.is_err());
}

#[test]
fn web_load_judges_the_response() {
    let loader = WebLoader::new();
    let page = "<html><head><title> T </title></head><body><nav>menu</nav><main> Body  text </main></body></html>";
    let ok = HttpResponse { success: true, status: "200 OK".to_string(), body: page.to_string() };
    let d = loader.load("https://example.com/a", &ok).unwrap();
    assert_eq!(d.content, "Body  text");
    assert_eq!(d.source, "https://example.com/a");
    assert_eq!(d.metadata.get("title"), Some(&"T".to_string()));
    let gone = HttpResponse { success: false, status: "404 Not Found".to_string(), body: page.to_string() };
    match loader.load("http://example.com/a", &gone) {
        Err(LoaderError::NetworkError(m)) => assert_eq!(m, "HTTP request failed with status: 404 Not Found"),
        _ => panic!("Expected NetworkError"),
    }
    match loader.load("ftp://example.com", &ok) {
        Err(LoaderError::InvalidPath(m)) => {
            assert_eq!(m, "URL must start with http:// or https://: ftp://example.com")
        }
        _ => panic!("Expected InvalidPath"),
    }
    assert!(WebLoader::check_url("https://x").is_ok());
    assert!(WebLoader::check_url("http://x").is_ok());
    assert!(WebLoader::check_url("https:/x").is_err());
    // Without a place for main content, the body is taken.
    assert_eq!(loader.extract_text("<p>one</p><p>two</p>").unwrap(), "one two");
    // A page without any text has none.
    assert_eq!(loader.extract_text("").unwrap(), "");
    let more = WebLoader::new().add_remove_selector(".x");
    assert_eq!(more.remove_selectors.len(), 7);
    assert_eq!(more.remove_selectors[6], ".x");
    assert!(WebLoader::new().clear_remove_selectors().remove_selectors.is_empty());
    assert_eq!(WebLoader::new().timeout, Duration::from_secs(30));
    // A page whose only text stands in its head has no main content.
    assert_eq!(loader.extract_text("<html><head><title>Only title</title></head><body></body></html>").unwrap(), "Only title");
    assert_eq!(WebLoader::new().user_agent, "vecstore-loaders/0.1.0");
    assert_eq!(WebLoader::new().supported_extensions(), vec!["html", "htm"]);
}

#[test]
fn test_docx_loader_creation() {
    let loader = DocxLoader::new();
    assert_eq!(loader.name(), "DocxLoader");
    assert_eq!(loader.supported_extensions(), &["docx"]);
}

#[test]
fn test_docx_loader_with_metadata() {
    let loader = DocxLoader::new().with_metadata();
    assert!(loader.extract_metadata);
}

#[test]
fn test_epub_loader_creation() {
    let loader = EpubLoader::new();
    assert_eq!(loader.name(), "EpubLoader");
    assert_eq!(loader.supported_extensions(), &["epub"]);
}

#[test]
fn test_epub_loader_with_options() {
    let loader = EpubLoader::new().with_metadata().with_chapters();

    assert!(loader.extract_metadata);
    assert!(loader.include_chapters);
}

#[test]
fn test_html_stripping() {
    let loader = EpubLoader::new();
    let html = "<p>Hello <b>world</b>!</p><script>alert('test');</script><p>More text</p>";
    let plain = loader.strip_html(html);
    assert_eq!(plain, "Hello world! More text");
}

#[test]
fn test_html_stripping_with_style() {
    let loader = EpubLoader::new();
    let html = "<div>Text<style>body { color: red; }</style>More</div>";
    let plain = loader.strip_html(html);
    assert_eq!(plain, "Text More");
}

#[test]
fn html_stripping_edges() {
    let loader = EpubLoader::new();
    assert_eq!(loader.strip_html(""), "");
    assert_eq!(loader.strip_html("  a \n\t b  "), "a b");
    assert_eq!(loader.strip_html("<SCRIPT>x</SCRIPT>y"), "y");
    assert_eq!(loader.strip_html("a<b>c"), "ac");
    assert_eq!(loader.strip_html("a > b"), "a b");
    // A script tag with attributes is no script tag to the loader.
    assert_eq!(loader.strip_html("<script type=\"x\">code</script>z"), "code z");
}

#[test]
fn test_pdf_loader_creation() {
    let loader = PdfLoader::new();
    assert_eq!(loader.name(), "PdfLoader");
    assert!(loader.supported_extensions().contains(&"pdf"));
}

#[test]
fn test_pdf_loader_with_page_numbers() {
    let loader = PdfLoader::new().with_page_numbers();
    assert!(loader.include_page_numbers);
}

#[test]
fn test_pdf_loader_custom_separator() {
    let loader = PdfLoader::new().with_page_separator("\n---\n");
    assert_eq!(loader.page_separator, "\n---\n");
}

#[test]
fn test_pptx_loader_creation() {
    let loader = PptxLoader::new();
    assert_eq!(loader.name(), "PptxLoader");
    assert_eq!(loader.supported_extensions(), &["pptx"]);
}

#[test]
fn test_pptx_loader_with_options() {
    let loader = PptxLoader::new().with_slide_numbers().with_metadata();

    assert!(loader.include_slide_numbers);
    assert!(loader.extract_metadata);
}

#[test]
fn loaders_from_options() {
    let options = LoaderOptions::new()
        .with_metadata()
        .with_custom("include_chapters", "true")
        .with_custom("include_slide_numbers", "yes");
    let e = EpubLoader::from_options(&options);
    assert!(e.extract_metadata && e.include_chapters);
    let p = PptxLoader::from_options(&options);
    assert!(p.extract_metadata && !p.include_slide_numbers);
    assert!(DocxLoader::from_options(&options).extract_metadata);
    assert!(!DocxLoader::from_options(&LoaderOptions::new()).extract_metadata);
    assert!(DocxLoader::new().extract_docx_metadata("a.docx").is_empty());
}

#[test]
fn web_text_from_places() {
    let s = |v: &[&str]| Some(v.iter().map(|x| x.to_string()).collect::<Vec<String>>());
    let root = vec!["all".to_string(), "of it".to_string()];
    assert_eq!(WebLoader::text_from(&vec![None, s(&[" ", ""]), s(&[" a", "b "]), s(&["c"])], &root), "a b");
    assert_eq!(WebLoader::text_from(&vec![None, s(&[])], &root), "all of it");
    assert_eq!(WebLoader::text_from(&vec![], &vec![]), "");
    let m = WebLoader::metadata_from(
        &s(&[" A ", "title "]),
        &Some(Some("d".to_string())),
        &Some(None),
        &None,
        "http://u",
    );
    assert_eq!(m.get("title"), Some(&"A title".to_string()));
    assert_eq!(m.get("description"), Some(&"d".to_string()));
    assert_eq!(m.get("keywords"), None);
    assert_eq!(m.get("og_title"), None);
    assert_eq!(m.get("url"), Some(&"http://u".to_string()));
}

#[test]
fn csv_assemble_from_records() {
    let row = |v: &[&str]| Ok(v.iter().map(|x| x.to_string()).collect::<Vec<String>>());
    let headers = vec!["a".to_string(), "b".to_string()];
    let loader = CsvLoader::new().with_columns(vec!["b".to_string()]).with_row_separator(";");
    let records = vec![row(&["1", "2"]), row(&["3"]), row(&["4", "5", "6"])];
    let d = loader.assemble("m.csv", &headers, &records).unwrap();
    assert_eq!(d.content, "2;5");
    assert_eq!(d.metadata.get("row_count"), Some(&"2".to_string()));
    assert_eq!(d.metadata.get("columns"), Some(&"a,b".to_string()));
    let failing = vec![row(&["1", "2"]), Err("bad record".to_string()), row(&["3", "4"])];
    match loader.assemble("m.csv", &headers, &failing) {
        Err(LoaderError::ParseError(m)) => assert_eq!(m, "bad record"),
        _ => panic!("Expected ParseError"),
    }
    assert_eq!(CsvLoader::row_text_of(&vec!["x".to_string(), "y".to_string()], &None), "x y".chars().collect::<Vec<char>>());
    assert_eq!(
        CsvLoader::row_text_of(&vec!["x".to_string(), "y".to_string()], &Some(vec![1, 5, 0, 1])),
        "y x y".chars().collect::<Vec<char>>()
    );
}
