//! Loader for source code.

use vstd::prelude::*;
use crate::document::{check_size, size_ok, Document, LoaderError, LoaderOptions};
use crate::text::{
    begins_with,
    blank,
    chars_of,
    contains,
    decimal,
    extension,
    extension_of,
    find_chars,
    first_at,
    is_blank,
    join,
    join_chars,
    lines_of,
    occurs_at,
    pad_left,
    pad_left_chars,
    prefix,
    push_all,
    push_decimal,
    push_str,
    split_lines,
    starts_with,
    string_of,
    strings_of,
    str_views,
    text_is,
    trim,
    trim_chars,
    trim_end,
    trim_end_chars,
    trim_start,
    trim_start_chars,
    views,
};

verus! {

/// The language that an extension stands for; `unknown` for one that
/// stands for none.
pub open spec fn language_of(ext: Seq<char>) -> Seq<char> {
    if ext == "rs"@ {
        "rust"@
    } else if ext == "py"@ {
        "python"@
    } else if ext == "js"@ {
        "javascript"@
    } else if ext == "ts"@ {
        "typescript"@
    } else if ext == "go"@ {
        "go"@
    } else if ext == "java"@ {
        "java"@
    } else if ext == "c"@ {
        "c"@
    } else if ext == "cpp"@ || ext == "cc"@ || ext == "cxx"@ {
        "cpp"@
    } else if ext == "h"@ || ext == "hpp"@ {
        "c_header"@
    } else if ext == "rb"@ {
        "ruby"@
    } else if ext == "php"@ {
        "php"@
    } else if ext == "swift"@ {
        "swift"@
    } else if ext == "kt"@ {
        "kotlin"@
    } else if ext == "scala"@ {
        "scala"@
    } else if ext == "r"@ {
        "r"@
    } else if ext == "sh"@ || ext == "bash"@ {
        "shell"@
    } else if ext == "sql"@ {
        "sql"@
    } else if ext == "html"@ {
        "html"@
    } else if ext == "css"@ {
        "css"@
    } else if ext == "json"@ {
        "json"@
    } else if ext == "xml"@ {
        "xml"@
    } else if ext == "yaml"@ || ext == "yml"@ {
        "yaml"@
    } else if ext == "toml"@ {
        "toml"@
    } else if ext == "md"@ {
        "markdown"@
    } else {
        "unknown"@
    }
}

/// The language that an extension stands for.
pub fn language_for(ext: &str) -> (l: &'static str)
    ensures
        l@ == language_of(ext@),
{
    if text_is(ext, "rs") {
        "rust"
    } else if text_is(ext, "py") {
        "python"
    } else if text_is(ext, "js") {
        "javascript"
    } else if text_is(ext, "ts") {
        "typescript"
    } else if text_is(ext, "go") {
        "go"
    } else if text_is(ext, "java") {
        "java"
    } else if text_is(ext, "c") {
        "c"
    } else if text_is(ext, "cpp") || text_is(ext, "cc") || text_is(ext, "cxx") {
        "cpp"
    } else if text_is(ext, "h") || text_is(ext, "hpp") {
        "c_header"
    } else if text_is(ext, "rb") {
        "ruby"
    } else if text_is(ext, "php") {
        "php"
    } else if text_is(ext, "swift") {
        "swift"
    } else if text_is(ext, "kt") {
        "kotlin"
    } else if text_is(ext, "scala") {
        "scala"
    } else if text_is(ext, "r") {
        "r"
    } else if text_is(ext, "sh") || text_is(ext, "bash") {
        "shell"
    } else if text_is(ext, "sql") {
        "sql"
    } else if text_is(ext, "html") {
        "html"
    } else if text_is(ext, "css") {
        "css"
    } else if text_is(ext, "json") {
        "json"
    } else if text_is(ext, "xml") {
        "xml"
    } else if text_is(ext, "yaml") || text_is(ext, "yml") {
        "yaml"
    } else if text_is(ext, "toml") {
        "toml"
    } else if text_is(ext, "md") {
        "markdown"
    } else {
        "unknown"
    }
}

/// What starts a comment that runs to the end of the line, in the
/// languages for which the loader strips comments.
pub open spec fn comment_marker(language: Seq<char>) -> Option<Seq<char>> {
    if language == "rust"@ || language == "javascript"@ || language == "typescript"@ || language
        == "java"@ || language == "c"@ || language == "cpp"@ || language == "go"@ || language
        == "swift"@ || language == "kotlin"@ || language == "scala"@ {
        Some("//"@)
    } else if language == "python"@ || language == "ruby"@ || language == "shell"@ {
        Some("#"@)
    } else if language == "sql"@ {
        Some("--"@)
    } else {
        None
    }
}

/// What starts a comment in `language`.
pub fn marker_for(language: &str) -> (m: Option<&'static str>)
    ensures
        m is Some <==> comment_marker(language@) is Some,
        m is Some ==> m->Some_0@ == comment_marker(language@)->Some_0,
{
    if text_is(language, "rust") || text_is(language, "javascript") || text_is(
        language,
        "typescript",
    ) || text_is(language, "java") || text_is(language, "c") || text_is(language, "cpp") || text_is(
        language,
        "go",
    ) || text_is(language, "swift") || text_is(language, "kotlin") || text_is(language, "scala") {
        Some("//")
    } else if text_is(language, "python") || text_is(language, "ruby") || text_is(language, "shell") {
        Some("#")
    } else if text_is(language, "sql") {
        Some("--")
    } else {
        None
    }
}

/// `line` without its comment: where the marker occurs, what stands before
/// its first occurrence, without trailing whitespace.
pub open spec fn uncommented(line: Seq<char>, language: Seq<char>) -> Seq<char> {
    match comment_marker(language) {
        Some(m) => if contains(line, m) {
            trim_end(line.take(choose|i: int| first_at(line, m, i)))
        } else {
            line
        },
        None => line,
    }
}

/// One line of code after processing: without its comment where comments
/// are left out, without leading whitespace where indentation is not
/// preserved, and behind its number, right-aligned in four columns, where
/// lines are numbered.
pub open spec fn code_line(l: CodeLoader, line: Seq<char>, index: nat, language: Seq<char>) -> Seq<
    char,
> {
    let a = if !l.include_comments {
        uncommented(line, language)
    } else {
        line
    };
    let b = if !l.preserve_indentation {
        trim_start(a)
    } else {
        a
    };
    if l.add_line_numbers {
        pad_left(decimal(index + 1), 4) + " | "@ + b
    } else {
        b
    }
}

/// The lines of code after processing. Where indentation is not preserved,
/// lines that are blank after processing are dropped.
pub open spec fn code_lines(l: CodeLoader, lines: Seq<Seq<char>>, language: Seq<char>) -> Seq<Seq<char>>
    decreases lines.len(),
{
    if lines.len() == 0 {
        Seq::empty()
    } else {
        let rest = code_lines(l, lines.drop_last(), language);
        let c = code_line(l, lines.last(), (lines.len() - 1) as nat, language);
        if l.preserve_indentation || !is_blank(c) {
            rest.push(c)
        } else {
            rest
        }
    }
}

/// A line, trimmed, declares something that the loader lists for
/// `language`.
pub open spec fn declares(trimmed: Seq<char>, language: Seq<char>) -> bool {
    if language == "rust"@ {
        starts_with(trimmed, "fn "@) || starts_with(trimmed, "struct "@) || starts_with(
            trimmed,
            "enum "@,
        )
    } else if language == "python"@ {
        starts_with(trimmed, "def "@) || starts_with(trimmed, "class "@)
    } else if language == "javascript"@ || language == "typescript"@ {
        starts_with(trimmed, "function "@) || starts_with(trimmed, "class "@) || starts_with(
            trimmed,
            "const "@,
        ) || starts_with(trimmed, "let "@)
    } else {
        false
    }
}

/// The declarations among the lines: each declaring line, trimmed.
pub open spec fn structure_of(lines: Seq<Seq<char>>, language: Seq<char>) -> Seq<Seq<char>>
    decreases lines.len(),
{
    if lines.len() == 0 {
        Seq::empty()
    } else if declares(trim(lines.last()), language) {
        structure_of(lines.drop_last(), language).push(trim(lines.last()))
    } else {
        structure_of(lines.drop_last(), language)
    }
}

/// Whether `v` starts with the text `p`.
pub fn starts(v: &Vec<char>, p: &str) -> (b: bool)
    ensures
        b == starts_with(v@, p@),
{
    begins_with(v, &chars_of(p))
}

/// The first occurrence is unique.
pub proof fn lemma_first_at_unique(s: Seq<char>, p: Seq<char>, i: int, j: int)
    requires
        first_at(s, p, i),
        first_at(s, p, j),
    ensures
        i == j,
{
    if i < j {
        assert(!occurs_at(s, p, i));
    }
    if j < i {
        assert(!occurs_at(s, p, j));
    }
}

/// Loader for source code files.
#[derive(Debug)]
pub struct CodeLoader {
    /// Whether comments stay in.
    pub include_comments: bool,
    /// Whether leading whitespace stays in.
    pub preserve_indentation: bool,
    /// Whether lines are numbered.
    pub add_line_numbers: bool,
}

impl CodeLoader {
    /// A loader that keeps comments and indentation and does not number
    /// lines.
    pub fn new() -> (l: CodeLoader)
        ensures
            l == (CodeLoader {
                include_comments: true,
                preserve_indentation: true,
                add_line_numbers: false,
            }),
    {
        CodeLoader { include_comments: true, preserve_indentation: true, add_line_numbers: false }
    }

    /// Leaves comments out.
    pub fn without_comments(self) -> (l: CodeLoader)
        ensures
            l == (CodeLoader { include_comments: false, ..self }),
    {
        CodeLoader {
            include_comments: false,
            preserve_indentation: self.preserve_indentation,
            add_line_numbers: self.add_line_numbers,
        }
    }

    /// Removes indentation.
    pub fn without_indentation(self) -> (l: CodeLoader)
        ensures
            l == (CodeLoader { preserve_indentation: false, ..self }),
    {
        CodeLoader {
            include_comments: self.include_comments,
            preserve_indentation: false,
            add_line_numbers: self.add_line_numbers,
        }
    }

    /// Numbers the lines.
    pub fn with_line_numbers(self) -> (l: CodeLoader)
        ensures
            l == (CodeLoader { add_line_numbers: true, ..self }),
    {
        CodeLoader {
            include_comments: self.include_comments,
            preserve_indentation: self.preserve_indentation,
            add_line_numbers: true,
        }
    }

    /// The language of a file, by the extension of its path; none where
    /// the path has no extension.
    pub fn detect_language(path: &str) -> (r: Option<String>)
        ensures
            r is Some <==> extension_of(path@) is Some,
            r is Some ==> r->Some_0@ == language_of(extension_of(path@)->Some_0),
    {
        match extension(&chars_of(path)) {
            Some(ext) => Some(language_for(string_of(&ext).as_str()).to_owned()),
            None => None,
        }
    }

    /// `line` without its comment.
    pub fn remove_comments(&self, line: &str, language: &str) -> (r: String)
        ensures
            r@ == uncommented(line@, language@),
    {
        string_of(&uncomment(&chars_of(line), language))
    }

    /// The content, line by line, after processing, the lines joined by
    /// line feeds.
    pub fn process_code(&self, content: &str, language: &str) -> (r: String)
        ensures
            r@ == join(code_lines(*self, lines_of(content@), language@), seq!['\n']),
    {
        let lines = split_lines(&chars_of(content));
        let ghost all = views(lines@);
        let mut done: Vec<Vec<char>> = Vec::new();
        let mut i: usize = 0;
        assert(all.take(0) =~= Seq::<Seq<char>>::empty());
        assert(views(done@) =~= Seq::<Seq<char>>::empty());
        while i < lines.len()
            invariant
                i <= lines.len(),
                all == views(lines@),
                views(done@) == code_lines(*self, all.take(i as int), language@),
            decreases lines.len() - i,
        {
            proof {
                assert(all.take(i as int + 1).drop_last() =~= all.take(i as int));
                assert(all.take(i as int + 1).last() == lines@[i as int]@);
            }
            let a = if !self.include_comments {
                uncomment(&lines[i], language)
            } else {
                lines[i].clone()
            };
            let b = if !self.preserve_indentation {
                trim_start_chars(&a)
            } else {
                a
            };
            let c = if self.add_line_numbers {
                let mut digits: Vec<char> = Vec::new();
                push_decimal(&mut digits, i + 1);
                assert(digits@ =~= decimal((i + 1) as nat));
                let mut out = pad_left_chars(&digits, 4);
                push_str(&mut out, " | ");
                push_all(&mut out, &b);
                out
            } else {
                b
            };
            if self.preserve_indentation || !blank(&c) {
                let ghost done0 = done@;
                done.push(c);
                assert(views(done@) =~= views(done0).push(c@));
            }
            i += 1;
        }
        assert(all.take(i as int) =~= all);
        let sep = chars_of("\n");
        proof {
            reveal_strlit("\n");
            assert(sep@ =~= seq!['\n']);
        }
        string_of(&join_chars(&done, &sep))
    }

    /// The declarations of functions, types and the like in the content.
    pub fn extract_structure(&self, content: &str, language: &str) -> (r: Vec<String>)
        ensures
            str_views(r@) == structure_of(lines_of(content@), language@),
    {
        strings_of(&structure(&chars_of(content), language))
    }

    /// The document for the content of a source file: the processed code,
    /// with the language, the number of lines and the declarations found.
    pub fn load(&self, source: &str, raw_content: &str) -> (d: Document)
        ensures
            d@.source == source@,
            d@.content == join(
                code_lines(
                    *self,
                    lines_of(raw_content@),
                    code_language(source@),
                ),
                seq!['\n'],
            ),
            d@.metadata == code_metadata(source@, raw_content@),
    {
        let src = chars_of(source);
        let ext = extension(&src);
        let language: String = match &ext {
            Some(e) => language_for(string_of(e).as_str()).to_owned(),
            None => "unknown".to_owned(),
        };
        let content = self.process_code(raw_content, language.as_str());
        let mut document = Document::new(content, source.to_owned());
        document.add_metadata("format", "code");
        document.add_metadata("language", language.as_str());
        let raw = chars_of(raw_content);
        let lines = split_lines(&raw);
        let mut count: Vec<char> = Vec::new();
        push_decimal(&mut count, lines.len());
        assert(count@ =~= decimal(lines_of(raw_content@).len()));
        document.add_metadata("lines", string_of(&count).as_str());
        let found = structure(&raw, language.as_str());
        if found.len() > 0 {
            let sep = chars_of("; ");
            document.add_metadata("functions_classes", string_of(&join_chars(&found, &sep)).as_str());
            let mut n: Vec<char> = Vec::new();
            push_decimal(&mut n, found.len());
            assert(n@ =~= decimal(found@.len() as nat));
            document.add_metadata("structure_count", string_of(&n).as_str());
        }
        match &ext {
            Some(e) => {
                document.add_metadata("extension", string_of(e).as_str());
            },
            None => {},
        }
        document
    }

    /// Holds the file size against the limit of the options, then loads.
    pub fn load_with_options(
        &self,
        source: &str,
        raw_content: &str,
        file_size: usize,
        options: &LoaderOptions,
    ) -> (r: Result<Document, LoaderError>)
        ensures
            r is Ok <==> size_ok(file_size, options.max_size),
            r is Err ==> r->Err_0 == LoaderError::FileTooLarge(file_size, options.max_size->Some_0),
            r is Ok ==> r->Ok_0@.source == source@ && r->Ok_0@.metadata == code_metadata(
                source@,
                raw_content@,
            ) && r->Ok_0@.content == join(
                code_lines(*self, lines_of(raw_content@), code_language(source@)),
                seq!['\n'],
            ),
    {
        match check_size(file_size, options) {
            Ok(_) => Ok(self.load(source, raw_content)),
            Err(e) => Err(e),
        }
    }

    /// `CodeLoader`.
    pub fn name(&self) -> (n: &'static str)
        ensures
            n@ == "CodeLoader"@,
    {
        "CodeLoader"
    }

    /// The extensions of the languages that the loader knows.
    pub fn supported_extensions(&self) -> (e: Vec<&'static str>)
        ensures
            e@.map_values(|s: &'static str| s@) == code_extensions(),
    {
        let e: Vec<&'static str> = vec![
            "rs",
            "py",
            "js",
            "ts",
            "go",
            "java",
            "c",
            "cpp",
            "h",
            "hpp",
            "rb",
            "php",
            "swift",
            "kt",
            "scala",
            "r",
            "sh",
            "bash",
            "sql",
        ];
        assert(e@.map_values(|s: &'static str| s@) =~= code_extensions());
        e
    }
}

/// The extensions of the files that the code loader reads.
pub open spec fn code_extensions() -> Seq<Seq<char>> {
    seq![
        "rs"@,
        "py"@,
        "js"@,
        "ts"@,
        "go"@,
        "java"@,
        "c"@,
        "cpp"@,
        "h"@,
        "hpp"@,
        "rb"@,
        "php"@,
        "swift"@,
        "kt"@,
        "scala"@,
        "r"@,
        "sh"@,
        "bash"@,
        "sql"@,
    ]
}

/// The language of a source: that of its extension, `unknown` without one.
pub open spec fn code_language(source: Seq<char>) -> Seq<char> {
    match extension_of(source) {
        Some(e) => language_of(e),
        None => "unknown"@,
    }
}

/// What the code loader records of a file: the format, the language, the
/// number of lines; the declarations and their number where there are any;
/// the extension where there is one.
pub open spec fn code_metadata(source: Seq<char>, raw: Seq<char>) -> Map<Seq<char>, Seq<char>> {
    let language = code_language(source);
    let found = structure_of(lines_of(raw), language);
    let base = Map::<Seq<char>, Seq<char>>::empty().insert("format"@, "code"@).insert(
        "language"@,
        language,
    ).insert("lines"@, decimal(lines_of(raw).len()));
    let with_structure = if found.len() > 0 {
        base.insert("functions_classes"@, join(found, "; "@)).insert(
            "structure_count"@,
            decimal(found.len()),
        )
    } else {
        base
    };
    match extension_of(source) {
        Some(e) => with_structure.insert("extension"@, e),
        None => with_structure,
    }
}

/// `line` without its comment.
pub fn uncomment(line: &Vec<char>, language: &str) -> (out: Vec<char>)
    ensures
        out@ == uncommented(line@, language@),
{
    match marker_for(language) {
        Some(m) => {
            let marker = chars_of(m);
            match find_chars(line, &marker) {
                Some(pos) => {
                    proof {
                        let w = choose|i: int| first_at(line@, marker@, i);
                        lemma_first_at_unique(line@, marker@, pos as int, w);
                    }
                    trim_end_chars(&prefix(line, pos))
                },
                None => line.clone(),
            }
        },
        None => line.clone(),
    }
}

/// Whether a trimmed line declares something that the loader lists.
pub fn is_declaration(trimmed: &Vec<char>, language: &str) -> (b: bool)
    ensures
        b == declares(trimmed@, language@),
{
    if text_is(language, "rust") {
        starts(trimmed, "fn ") || starts(trimmed, "struct ") || starts(trimmed, "enum ")
    } else if text_is(language, "python") {
        starts(trimmed, "def ") || starts(trimmed, "class ")
    } else if text_is(language, "javascript") || text_is(language, "typescript") {
        starts(trimmed, "function ") || starts(trimmed, "class ") || starts(trimmed, "const ")
            || starts(trimmed, "let ")
    } else {
        false
    }
}

/// The declarations in the content.
pub fn structure(content: &Vec<char>, language: &str) -> (out: Vec<Vec<char>>)
    ensures
        views(out@) == structure_of(lines_of(content@), language@),
{
    let lines = split_lines(content);
    let ghost all = views(lines@);
    let mut out: Vec<Vec<char>> = Vec::new();
    let mut i: usize = 0;
    assert(all.take(0) =~= Seq::<Seq<char>>::empty());
    assert(views(out@) =~= Seq::<Seq<char>>::empty());
    while i < lines.len()
        invariant
            i <= lines.len(),
            all == views(lines@),
            views(out@) == structure_of(all.take(i as int), language@),
        decreases lines.len() - i,
    {
        proof {
            assert(all.take(i as int + 1).drop_last() =~= all.take(i as int));
            assert(all.take(i as int + 1).last() == lines@[i as int]@);
        }
        let t = trim_chars(&lines[i]);
        if is_declaration(&t, language) {
            let ghost out0 = out@;
            out.push(t);
            assert(views(out@) =~= views(out0).push(trim(lines@[i as int]@)));
        }
        i += 1;
    }
    assert(all.take(i as int) =~= all);
    out
}

} // verus!
