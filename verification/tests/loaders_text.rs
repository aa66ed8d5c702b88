use vecstore::document::{Document, LoaderOptions, Metadata};
use vecstore::loaders::code::CodeLoader;
use vecstore::loaders::extended::{
    ArchiveLoader, EmlLoader, JupyterLoader, LatexLoader, OdsLoader, RtfLoader, SqlLoader,
    TomlLoader, XlsxLoader, XmlLoader, YamlLoader,
};
use vecstore::loaders::markdown::MarkdownLoader;

#[test]
fn test_document_creation() {
    let doc = Document::new("Hello world".to_string(), "test.txt".to_string());
    assert_eq!(doc.content, "Hello world");
    assert_eq!(doc.source, "test.txt");
    assert_eq!(doc.len(), 11);
    assert!(!doc.is_empty());
}

#[test]
fn test_document_metadata() {
    let mut metadata = Metadata::new();
    metadata.insert("author".to_string(), "Test".to_string());

    let mut doc =
        Document::with_metadata("Content".to_string(), "source.txt".to_string(), metadata);

    doc.add_metadata("title", "Test Document");
    assert_eq!(doc.metadata.get("author"), Some(&"Test".to_string()));
    assert_eq!(doc.metadata.get("title"), Some(&"Test Document".to_string()));
}

#[test]
fn test_loader_options() {
    let options = LoaderOptions::new()
        .with_encoding("utf-8")
        .with_max_size(1024 * 1024)
        .with_metadata()
        .with_custom("key", "value");

    assert_eq!(options.encoding, Some("utf-8".to_string()));
    assert_eq!(options.max_size, Some(1024 * 1024));
    assert!(options.include_metadata);
    assert_eq!(options.custom.get("key"), Some(&"value".to_string()));
}

#[test]
fn metadata_later_entry_wins() {
    let mut m = Metadata::new();
    assert!(m.is_empty());
    m.set("k", "one");
    m.set("k", "two");
    assert_eq!(m.get("k"), Some(&"two".to_string()));
    assert_eq!(m.get("absent"), None);
    assert!(m.contains_key("k"));
    assert!(!m.is_empty());
}

#[test]
fn test_detect_language() {
    assert_eq!(CodeLoader::detect_language("test.rs"), Some("rust".to_string()));
    assert_eq!(CodeLoader::detect_language("test.py"), Some("python".to_string()));
    assert_eq!(CodeLoader::detect_language("test.js"), Some("javascript".to_string()));
}

#[test]
fn detect_language_edge_cases() {
    assert_eq!(CodeLoader::detect_language("Makefile"), None);
    assert_eq!(CodeLoader::detect_language(".bashrc"), None);
    assert_eq!(CodeLoader::detect_language("dir.d/file"), None);
    assert_eq!(CodeLoader::detect_language("a/b.tar.yml"), Some("yaml".to_string()));
    assert_eq!(CodeLoader::detect_language("x.zzz"), Some("unknown".to_string()));
    assert_eq!(CodeLoader::detect_language(".."), None);
}

#[test]
fn test_extract_structure() {
    let loader = CodeLoader::new();
    let rust_code = "fn main() {}\nstruct Foo {}\nenum Bar {}";
    let structure = loader.extract_structure(rust_code, "rust");

    assert_eq!(structure.len(), 3);
    assert!(structure.iter().any(|s| s.contains("fn main")));
    assert!(structure.iter().any(|s| s.contains("struct Foo")));
    assert!(structure.iter().any(|s| s.contains("enum Bar")));
}

#[test]
fn test_load_rust_code() {
    let content = "fn main() {\n    println!(\"Hello\");\n}\n";
    let loader = CodeLoader::new();
    let document = loader.load("/tmp/example.rs", content);

    assert!(document.content.contains("fn main"));
    assert!(document.content.contains("println"));
    assert_eq!(document.metadata.get("language"), Some(&"rust".to_string()));
    assert_eq!(document.metadata.get("lines"), Some(&"3".to_string()));
    assert_eq!(document.metadata.get("format"), Some(&"code".to_string()));
    assert_eq!(document.metadata.get("extension"), Some(&"rs".to_string()));
    assert_eq!(document.metadata.get("structure_count"), Some(&"1".to_string()));
    assert_eq!(document.metadata.get("functions_classes"), Some(&"fn main() {".to_string()));
    assert_eq!(document.content, "fn main() {\n    println!(\"Hello\");\n}");
}

#[test]
fn test_without_comments() {
    let content = "fn main() { // This is a comment\n    let x = 5; // Another comment\n}\n";
    let loader = CodeLoader::new().without_comments();
    let document = loader.load("/tmp/example.rs", content);

    assert!(!document.content.contains("This is a comment"));
    assert!(!document.content.contains("Another comment"));
    assert!(document.content.contains("fn main"));
    assert_eq!(document.content, "fn main() {\n    let x = 5;\n}");
}

#[test]
fn test_with_line_numbers() {
    let content = "def hello():\n    print('Hello')\n";
    let loader = CodeLoader::new().with_line_numbers();
    let document = loader.load("/tmp/example.py", content);

    assert!(document.content.contains("1 |"));
    assert!(document.content.contains("2 |"));
    assert_eq!(document.content, "   1 | def hello():\n   2 |     print('Hello')");
}

#[test]
fn code_without_indentation_drops_blank_lines() {
    let loader = CodeLoader::new().without_indentation();
    let out = loader.process_code("  a\n\n   \n\tb\r\nc", "rust");
    assert_eq!(out, "a\nb\nc");
    let kept = CodeLoader::new().process_code("  a\n\n b", "rust");
    assert_eq!(kept, "  a\n\n b");
}

#[test]
fn remove_comments_by_language() {
    let loader = CodeLoader::new();
    assert_eq!(loader.remove_comments("x = 1  # note", "python"), "x = 1");
    assert_eq!(loader.remove_comments("select 1 -- note", "sql"), "select 1");
    assert_eq!(loader.remove_comments("a // b // c", "go"), "a");
    assert_eq!(loader.remove_comments("a // b", "html"), "a // b");
    assert_eq!(loader.remove_comments("no comment", "rust"), "no comment");
}

#[test]
fn code_load_with_options_checks_size() {
    let loader = CodeLoader::new();
    let options = LoaderOptions::new().with_max_size(10);
    let r = loader.load_with_options("a.rs", "fn a() {}", 11, &options);
    match r {
        Err(vecstore::document::LoaderError::FileTooLarge(11, 10)) => {}
        _ => panic!("Expected FileTooLarge error"),
    }
    let ok = loader.load_with_options("a.rs", "fn a() {}", 10, &options);
    assert!(ok.is_ok());
}

#[test]
fn test_rtf_stripping() {
    let rtf = r#"{\rtf1\ansi Hello \b World\b0 }"#;
    let text = RtfLoader::strip_rtf(rtf);
    assert!(text.contains("Hello"));
    assert!(text.contains("World"));
}

#[test]
fn rtf_nested_groups_are_dropped() {
    let rtf = r#"{\rtf1 {\fonttbl inner}Hello \b World\b0 }"#;
    assert_eq!(RtfLoader::strip_rtf(rtf), "Hello World");
    assert_eq!(RtfLoader::strip_rtf("plain"), "plain");
    assert_eq!(RtfLoader::strip_rtf("}}a{{b}c}d"), "acd");
}

#[test]
fn test_latex_extraction() {
    let latex = r#"\documentclass{article}
\begin{document}
Hello \textbf{World}!
% This is a comment
\end{document}"#;

    let text = LatexLoader::extract_text(latex, true, true);
    assert!(text.contains("Hello"));
    assert!(text.contains("World"));
    assert!(!text.contains("comment"));
    assert_eq!(text, "article\ndocument\nHello World!\ndocument\n");
}

#[test]
fn latex_keeps_what_it_is_told_to_keep() {
    let latex = "a % b\n\\x{y}";
    assert_eq!(LatexLoader::extract_text(latex, false, false), "a % b\n\\x{y}\n");
    assert_eq!(LatexLoader::extract_text(latex, true, false), "a \n\\x{y}\n");
    assert_eq!(LatexLoader::extract_text(latex, false, true), "a % b\ny\n");
}

#[test]
fn test_xml_extraction() {
    let xml = r#"<root><item>Hello</item><item>World</item></root>"#;
    let text = XmlLoader::extract_text(xml, true);
    assert!(text.contains("Hello"));
    assert!(text.contains("World"));
    assert!(!text.contains("<root>"));
    assert_eq!(text, "HelloWorld");
    assert_eq!(XmlLoader::extract_text(xml, false), xml);
}

#[test]
fn email_headers_and_body() {
    let email = "From: Ann <a@x>\nSubject:  Hi \nnot a header\n\nBody: one\nline two";
    let (content, headers) = EmlLoader::parse_email(email, true);
    assert_eq!(content, "From: Ann <a@x>\nSubject:  Hi \nBody: one\nline two\n");
    assert_eq!(headers.get("from"), Some(&"Ann <a@x>".to_string()));
    assert_eq!(headers.get("subject"), Some(&"Hi".to_string()));
    assert_eq!(headers.get("body"), None);
    let (content, _) = EmlLoader::parse_email(email, false);
    assert_eq!(content, "Body: one\nline two\n");
    let d = EmlLoader::new().without_headers().load("m.eml", email);
    assert_eq!(d.metadata.get("format"), Some(&"eml".to_string()));
    assert_eq!(d.metadata.get("loader"), Some(&"EmlLoader".to_string()));
    assert_eq!(d.content, "Body: one\nline two\n");
}

#[test]
fn sql_comment_lines() {
    let sql = "-- head\nselect 1; -- kept\n   -- indented\nselect 2;\n";
    let d = SqlLoader::new().without_comments().load("q.sql", sql);
    assert_eq!(d.content, "select 1; -- kept\nselect 2;");
    let d = SqlLoader::new().load("q.sql", sql);
    assert_eq!(d.content, sql);
    assert_eq!(d.metadata.get("format"), Some(&"sql".to_string()));
}

#[test]
fn loaders_that_leave_a_note() {
    let d = XlsxLoader::new().load("/data/book.xlsx");
    assert_eq!(
        d.content,
        "Excel file: book.xlsx\n\nNote: XLSX parsing requires calamine crate.\nImplement using: cargo add calamine\n"
    );
    assert_eq!(d.metadata.get("loader"), Some(&"XlsxLoader".to_string()));
    let d = ArchiveLoader::new().load("a/b.zip");
    assert_eq!(
        d.content,
        "Archive: a/b.zip\n\nNote: Archive extraction requires zip/tar crates.\n"
    );
    assert_eq!(d.metadata.get("format"), Some(&"zip".to_string()));
    let d = ArchiveLoader::new().load("noext");
    assert_eq!(d.metadata.get("format"), Some(&"".to_string()));
    let d = JupyterLoader::new().load("n.ipynb");
    assert_eq!(d.content, "Jupyter Notebook\n\nNote: Full parsing requires serde_json.\n");
    let d = OdsLoader::new().load("s.ods", "cells");
    assert_eq!(d.content, "cells");
    let d = YamlLoader::new().raw().load("s.yaml", "a: 1");
    assert_eq!(d.content, "a: 1");
    assert_eq!(d.metadata.get("format"), Some(&"yaml".to_string()));
    let d = TomlLoader::new().load("s.toml", "a = 1");
    assert_eq!(d.source, "s.toml");
    assert_eq!(ArchiveLoader::new().non_recursive().with_max_depth(2).max_depth, 2);
    assert_eq!(
        ArchiveLoader::new().supported_extensions(),
        vec!["zip", "tar", "tar.gz", "tgz"]
    );
}

#[test]
fn test_load_markdown() {
    let content = "# Test Document\n\nThis is a **bold** test.\n";
    let loader = MarkdownLoader::new();
    let document = loader.load("doc.md", content);

    assert!(document.content.contains("Test Document"));
    assert!(document.content.contains("bold"));
    assert_eq!(document.metadata.get("title"), Some(&"Test Document".to_string()));
    assert_eq!(document.metadata.get("original_size"), Some(&"42".to_string()));
    assert_eq!(document.content, "Test Document\n\nThis is a bold test.");
}

#[test]
fn test_markdown_with_links() {
    let content = "Check out [Rust](https://rust-lang.org)\n";
    let loader = MarkdownLoader::new().with_links(true);
    let document = loader.load("doc.md", content);

    assert!(document.content.contains("Rust"));
    assert!(document.content.contains("rust-lang.org"));
    assert_eq!(document.content, "Check out Rust (https://rust-lang.org)");
    let plain = MarkdownLoader::new().with_links(false).load("doc.md", content);
    assert_eq!(plain.content, "Check out Rust");
}

#[test]
fn test_markdown_code_blocks() {
    let content = "```rust\nfn main() {}\n```\n";
    let loader = MarkdownLoader::new();
    let document = loader.load("doc.md", content);

    assert!(document.content.contains("fn main"));
}

#[test]
fn test_markdown_lists() {
    let content = "- Item 1\n- Item 2\n- Item 3\n";
    let loader = MarkdownLoader::new();
    let document = loader.load("doc.md", content);

    assert!(document.content.contains("Item 1"));
    assert!(document.content.contains("Item 2"));
    assert!(document.content.contains("Item 3"));
    assert_eq!(document.content, "\u{2022} Item 1\n\u{2022} Item 2\n\u{2022} Item 3");
}

#[test]
fn test_preserve_formatting() {
    let content = "# Heading\n\nSome `code` here\n";
    let loader = MarkdownLoader::new().with_formatting();
    let document = loader.load("doc.md", content);

    // Should preserve backticks for inline code
    assert!(document.content.contains("`code`"));
    assert_eq!(document.content, "# Heading\n\nSome `code` here");
}

#[test]
fn markdown_images_and_title_marks() {
    let content = "intro\n# # Twice  \n![alt](pic.png)\n";
    let d = MarkdownLoader::new().load("d.md", content);
    assert_eq!(d.metadata.get("title"), Some(&"Twice".to_string()));
    assert!(d.content.contains("alt [image: pic.png]"));
    let none = MarkdownLoader::new().with_images(false).load("d.md", "![alt](pic.png)\n");
    assert_eq!(none.content, "alt");
    assert_eq!(MarkdownLoader::title("no heading\nat all"), None);
}
