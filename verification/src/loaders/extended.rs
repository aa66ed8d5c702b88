//! Loaders for spreadsheets, RTF, LaTeX, XML, YAML, TOML, SQL, e-mail,
//! notebooks and archives.

use vstd::prelude::*;
use crate::document::{Document, Metadata};
use crate::text::{
    before_char,
    begins_with,
    chars_of,
    cut_at,
    extension,
    extension_of,
    file_name,
    file_name_of,
    is_alnum,
    is_blank,
    blank,
    join,
    join_chars,
    lemma_before_char_prefix,
    lines_of,
    lowercase,
    push_all,
    push_str,
    split_lines,
    starts_with,
    string_of,
    suffix,
    to_lower,
    trim,
    trim_chars,
    views,
};

verus! {

/// The metadata that names a format and a loader.
pub open spec fn tagged(format: Seq<char>, loader: Seq<char>) -> Map<Seq<char>, Seq<char>> {
    Map::<Seq<char>, Seq<char>>::empty().insert("format"@, format).insert("loader"@, loader)
}

/// Metadata that names a format and a loader.
pub fn tag(format: &str, loader: &str) -> (m: Metadata)
    ensures
        m@ == tagged(format@, loader@),
{
    let mut m = Metadata::new();
    m.set("format", format);
    m.set("loader", loader);
    m
}

/// Loader for Excel spreadsheets.
#[derive(Debug)]
pub struct XlsxLoader {
    pub include_formulas: bool,
    pub include_sheet_names: bool,
}

/// The name that the spreadsheet loader gives a file: its file name, or
/// `unknown` where its path has none.
pub open spec fn shown_name(source: Seq<char>) -> Seq<char> {
    match file_name_of(source) {
        Some(name) => name,
        None => "unknown"@,
    }
}

/// What the spreadsheet loader says of a file.
pub open spec fn xlsx_content(source: Seq<char>) -> Seq<char> {
    "Excel file: "@ + shown_name(source) + "\n\n"@ + "Note: XLSX parsing requires calamine crate.\n"@
        + "Implement using: cargo add calamine\n"@
}

impl XlsxLoader {
    /// A loader that leaves formulas out and names the sheets.
    pub fn new() -> (l: XlsxLoader)
        ensures
            l == (XlsxLoader { include_formulas: false, include_sheet_names: true }),
    {
        XlsxLoader { include_formulas: false, include_sheet_names: true }
    }

    /// Includes formulas.
    pub fn with_formulas(self) -> (l: XlsxLoader)
        ensures
            l == (XlsxLoader { include_formulas: true, ..self }),
    {
        XlsxLoader { include_formulas: true, include_sheet_names: self.include_sheet_names }
    }

    /// The document for a spreadsheet: a note that names the file.
    pub fn load(&self, source: &str) -> (d: Document)
        ensures
            d@.content == xlsx_content(source@),
            d@.source == source@,
            d@.metadata == tagged("xlsx"@, "XlsxLoader"@),
    {
        let name = match file_name(&chars_of(source)) {
            Some(name) => name,
            None => chars_of("unknown"),
        };
        let mut out: Vec<char> = Vec::new();
        push_str(&mut out, "Excel file: ");
        push_all(&mut out, &name);
        push_str(&mut out, "\n\n");
        push_str(&mut out, "Note: XLSX parsing requires calamine crate.\n");
        push_str(&mut out, "Implement using: cargo add calamine\n");
        Document::with_metadata(string_of(&out), source.to_owned(), tag("xlsx", "XlsxLoader"))
    }

    /// `XlsxLoader`.
    pub fn name(&self) -> (n: &'static str)
        ensures
            n@ == "XlsxLoader"@,
    {
        "XlsxLoader"
    }

    /// `xlsx`, `xlsm`, `xls`.
    pub fn supported_extensions(&self) -> (e: Vec<&'static str>)
        ensures
            e@.len() == 3,
            e@[0]@ == "xlsx"@,
            e@[1]@ == "xlsm"@,
            e@[2]@ == "xls"@,
    {
        vec!["xlsx", "xlsm", "xls"]
    }
}

/// Loader for OpenDocument spreadsheets.
#[derive(Debug)]
pub struct OdsLoader {}

impl OdsLoader {
    /// The loader.
    pub fn new() -> (l: OdsLoader) {
        OdsLoader {  }
    }

    /// The document for the content of a spreadsheet, taken as it is.
    pub fn load(&self, source: &str, content: &str) -> (d: Document)
        ensures
            d@.content == content@,
            d@.source == source@,
            d@.metadata == tagged("ods"@, "OdsLoader"@),
    {
        Document::with_metadata(content.to_owned(), source.to_owned(), tag("ods", "OdsLoader"))
    }

    /// `OdsLoader`.
    pub fn name(&self) -> (n: &'static str)
        ensures
            n@ == "OdsLoader"@,
    {
        "OdsLoader"
    }

    /// `ods`.
    pub fn supported_extensions(&self) -> (e: Vec<&'static str>)
        ensures
            e@.len() == 1,
            e@[0]@ == "ods"@,
    {
        vec!["ods"]
    }
}

/// While stripping RTF: whether a control word is being read, how many
/// groups are open, and the text kept so far.
pub struct RtfState {
    pub in_control: bool,
    pub depth: nat,
    pub out: Seq<char>,
}

/// The state after one more character. A backslash starts a control word,
/// which a space or a line feed ends. Braces open and close groups. Any
/// other character is kept when no control word is being read and no
/// group is open inside the group of the document itself.
pub open spec fn rtf_step(st: RtfState, c: char) -> RtfState {
    if c == '\\' {
        RtfState { in_control: true, ..st }
    } else if c == '{' {
        RtfState { depth: st.depth + 1, ..st }
    } else if c == '}' {
        RtfState {
            depth: if st.depth > 0 {
                (st.depth - 1) as nat
            } else {
                0
            },
            ..st
        }
    } else if (c == ' ' || c == '\n') && st.in_control {
        RtfState { in_control: false, ..st }
    } else if !st.in_control && st.depth <= 1 {
        RtfState { out: st.out.push(c), ..st }
    } else {
        st
    }
}

/// The state after the characters of `s`.
pub open spec fn rtf_run(s: Seq<char>) -> RtfState
    decreases s.len(),
{
    if s.len() == 0 {
        RtfState { in_control: false, depth: 0, out: Seq::empty() }
    } else {
        rtf_step(rtf_run(s.drop_last()), s.last())
    }
}

/// No more groups are open than characters were read.
pub proof fn lemma_rtf_depth(s: Seq<char>)
    ensures
        rtf_run(s).depth <= s.len(),
    decreases s.len(),
{
    if s.len() > 0 {
        lemma_rtf_depth(s.drop_last());
    }
}

/// Loader for Rich Text Format.
#[derive(Debug)]
pub struct RtfLoader {}

impl RtfLoader {
    /// The loader.
    pub fn new() -> (l: RtfLoader) {
        RtfLoader {  }
    }

    /// The plain text of RTF content: what stands outside every control
    /// word, in the group of the document or outside every group.
    pub fn strip_rtf(rtf_content: &str) -> (r: String)
        ensures
            r@ == rtf_run(rtf_content@).out,
    {
        let v = chars_of(rtf_content);
        let mut out: Vec<char> = Vec::new();
        let mut in_control = false;
        let mut depth: usize = 0;
        let mut i: usize = 0;
        assert(v@.take(0) =~= Seq::<char>::empty());
        while i < v.len()
            invariant
                i <= v.len(),
                in_control == rtf_run(v@.take(i as int)).in_control,
                depth == rtf_run(v@.take(i as int)).depth,
                out@ == rtf_run(v@.take(i as int)).out,
            decreases v.len() - i,
        {
            proof {
                assert(v@.take(i as int + 1).drop_last() =~= v@.take(i as int));
                assert(v@.take(i as int + 1).last() == v@[i as int]);
                lemma_rtf_depth(v@.take(i as int));
            }
            let c = v[i];
            if c == '\\' {
                in_control = true;
            } else if c == '{' {
                depth += 1;
            } else if c == '}' {
                if depth > 0 {
                    depth -= 1;
                }
            } else if (c == ' ' || c == '\n') && in_control {
                in_control = false;
            } else if !in_control && depth <= 1 {
                out.push(c);
            }
            i += 1;
        }
        assert(v@.take(i as int) =~= v@);
        string_of(&out)
    }

    /// The document for RTF content.
    pub fn load(&self, source: &str, rtf_content: &str) -> (d: Document)
        ensures
            d@.content == rtf_run(rtf_content@).out,
            d@.source == source@,
            d@.metadata == tagged("rtf"@, "RtfLoader"@),
    {
        Document::with_metadata(Self::strip_rtf(rtf_content), source.to_owned(), tag("rtf", "RtfLoader"))
    }

    /// `RtfLoader`.
    pub fn name(&self) -> (n: &'static str)
        ensures
            n@ == "RtfLoader"@,
    {
        "RtfLoader"
    }

    /// `rtf`.
    pub fn supported_extensions(&self) -> (e: Vec<&'static str>)
        ensures
            e@.len() == 1,
            e@[0]@ == "rtf"@,
    {
        vec!["rtf"]
    }
}

/// While stripping LaTeX commands: whether a command name is being
/// skipped, and the text kept so far.
pub struct LatexState {
    pub skipping: bool,
    pub out: Seq<char>,
}

/// The state after one more character. A backslash starts a command, whose
/// name runs on while letters, digits and underscores follow. Braces are
/// dropped; any other character is kept.
pub open spec fn latex_step(st: LatexState, c: char) -> LatexState {
    if st.skipping && (is_alnum(c) || c == '_') {
        st
    } else if c == '\\' {
        LatexState { skipping: true, out: st.out }
    } else if c != '{' && c != '}' {
        LatexState { skipping: false, out: st.out.push(c) }
    } else {
        LatexState { skipping: false, out: st.out }
    }
}

/// The state after the characters of `s`.
pub open spec fn latex_run(s: Seq<char>) -> LatexState
    decreases s.len(),
{
    if s.len() == 0 {
        LatexState { skipping: false, out: Seq::empty() }
    } else {
        latex_step(latex_run(s.drop_last()), s.last())
    }
}

/// One line of LaTeX as text: cut at the first percent sign where comments
/// are stripped, then without commands and braces where commands are
/// stripped.
pub open spec fn latex_line(line: Seq<char>, strip_comments: bool, strip_commands: bool) -> Seq<char> {
    let a = if strip_comments {
        before_char(line, '%')
    } else {
        line
    };
    if strip_commands {
        latex_run(a).out
    } else {
        a
    }
}

/// The text of the lines: each line that is not blank after stripping,
/// followed by a line feed.
pub open spec fn latex_text(lines: Seq<Seq<char>>, strip_comments: bool, strip_commands: bool) -> Seq<
    char,
>
    decreases lines.len(),
{
    if lines.len() == 0 {
        Seq::empty()
    } else {
        let rest = latex_text(lines.drop_last(), strip_comments, strip_commands);
        let t = latex_line(lines.last(), strip_comments, strip_commands);
        if is_blank(t) {
            rest
        } else {
            rest + t + seq!['\n']
        }
    }
}

/// Strips commands and braces from a line.
pub fn strip_commands_of(v: &Vec<char>) -> (out: Vec<char>)
    ensures
        out@ == latex_run(v@).out,
{
    let mut out: Vec<char> = Vec::new();
    let mut skipping = false;
    let mut i: usize = 0;
    assert(v@.take(0) =~= Seq::<char>::empty());
    while i < v.len()
        invariant
            i <= v.len(),
            skipping == latex_run(v@.take(i as int)).skipping,
            out@ == latex_run(v@.take(i as int)).out,
        decreases v.len() - i,
    {
        proof {
            assert(v@.take(i as int + 1).drop_last() =~= v@.take(i as int));
            assert(v@.take(i as int + 1).last() == v@[i as int]);
        }
        let c = v[i];
        if skipping && (c.is_alphanumeric() || c == '_') {
        } else if c == '\\' {
            skipping = true;
        } else if c != '{' && c != '}' {
            skipping = false;
            out.push(c);
        } else {
            skipping = false;
        }
        i += 1;
    }
    assert(v@.take(i as int) =~= v@);
    out
}

/// Loader for LaTeX.
#[derive(Debug)]
pub struct LatexLoader {
    pub strip_comments: bool,
    pub strip_commands: bool,
}

impl LatexLoader {
    /// A loader that strips comments and commands.
    pub fn new() -> (l: LatexLoader)
        ensures
            l == (LatexLoader { strip_comments: true, strip_commands: true }),
    {
        LatexLoader { strip_comments: true, strip_commands: true }
    }

    /// Keeps commands.
    pub fn with_commands(self) -> (l: LatexLoader)
        ensures
            l == (LatexLoader { strip_commands: false, ..self }),
    {
        LatexLoader { strip_comments: self.strip_comments, strip_commands: false }
    }

    /// The text of LaTeX content, line by line.
    pub fn extract_text(latex: &str, strip_comments: bool, strip_commands: bool) -> (r: String)
        ensures
            r@ == latex_text(lines_of(latex@), strip_comments, strip_commands),
    {
        let lines = split_lines(&chars_of(latex));
        let ghost all = views(lines@);
        let mut out: Vec<char> = Vec::new();
        let mut i: usize = 0;
        assert(all.take(0) =~= Seq::<Seq<char>>::empty());
        while i < lines.len()
            invariant
                i <= lines.len(),
                all == views(lines@),
                out@ == latex_text(all.take(i as int), strip_comments, strip_commands),
            decreases lines.len() - i,
        {
            proof {
                assert(all.take(i as int + 1).drop_last() =~= all.take(i as int));
                assert(all.take(i as int + 1).last() == lines@[i as int]@);
            }
            let a = if strip_comments {
                cut_at(&lines[i], '%')
            } else {
                lines[i].clone()
            };
            let t = if strip_commands {
                strip_commands_of(&a)
            } else {
                a
            };
            if !blank(&t) {
                push_all(&mut out, &t);
                out.push('\n');
            }
            i += 1;
        }
        assert(all.take(i as int) =~= all);
        string_of(&out)
    }

    /// The document for LaTeX content.
    pub fn load(&self, source: &str, latex: &str) -> (d: Document)
        ensures
            d@.content == latex_text(lines_of(latex@), self.strip_comments, self.strip_commands),
            d@.source == source@,
            d@.metadata == tagged("latex"@, "LatexLoader"@),
    {
        Document::with_metadata(
            Self::extract_text(latex, self.strip_comments, self.strip_commands),
            source.to_owned(),
            tag("latex", "LatexLoader"),
        )
    }

    /// `LatexLoader`.
    pub fn name(&self) -> (n: &'static str)
        ensures
            n@ == "LatexLoader"@,
    {
        "LatexLoader"
    }

    /// `tex`, `latex`.
    pub fn supported_extensions(&self) -> (e: Vec<&'static str>)
        ensures
            e@.len() == 2,
            e@[0]@ == "tex"@,
            e@[1]@ == "latex"@,
    {
        vec!["tex", "latex"]
    }
}

/// While stripping tags: whether a tag is being read, and the text kept so
/// far.
pub struct TagState {
    pub in_tag: bool,
    pub out: Seq<char>,
}

/// The state after one more character: `<` opens a tag, `>` closes it, and
/// what stands outside tags is kept.
pub open spec fn tag_step(st: TagState, c: char) -> TagState {
    if c == '<' {
        TagState { in_tag: true, out: st.out }
    } else if c == '>' {
        TagState { in_tag: false, out: st.out }
    } else if !st.in_tag {
        TagState { in_tag: false, out: st.out.push(c) }
    } else {
        st
    }
}

/// The state after the characters of `s`.
pub open spec fn tag_run(s: Seq<char>) -> TagState
    decreases s.len(),
{
    if s.len() == 0 {
        TagState { in_tag: false, out: Seq::empty() }
    } else {
        tag_step(tag_run(s.drop_last()), s.last())
    }
}

/// The text of XML content: all of it, or what stands outside tags.
pub open spec fn xml_text(xml: Seq<char>, strip_tags: bool) -> Seq<char> {
    if strip_tags {
        tag_run(xml).out
    } else {
        xml
    }
}

/// Loader for XML.
#[derive(Debug)]
pub struct XmlLoader {
    pub strip_tags: bool,
    pub include_attributes: bool,
}

impl XmlLoader {
    /// A loader that strips tags and leaves attributes out.
    pub fn new() -> (l: XmlLoader)
        ensures
            l == (XmlLoader { strip_tags: true, include_attributes: false }),
    {
        XmlLoader { strip_tags: true, include_attributes: false }
    }

    /// Includes attributes.
    pub fn with_attributes(self) -> (l: XmlLoader)
        ensures
            l == (XmlLoader { include_attributes: true, ..self }),
    {
        XmlLoader { strip_tags: self.strip_tags, include_attributes: true }
    }

    /// Keeps tags.
    pub fn with_tags(self) -> (l: XmlLoader)
        ensures
            l == (XmlLoader { strip_tags: false, ..self }),
    {
        XmlLoader { strip_tags: false, include_attributes: self.include_attributes }
    }

    /// The text of XML content.
    pub fn extract_text(xml: &str, strip_tags: bool) -> (r: String)
        ensures
            r@ == xml_text(xml@, strip_tags),
    {
        if !strip_tags {
            return xml.to_owned();
        }
        let v = chars_of(xml);
        let mut out: Vec<char> = Vec::new();
        let mut in_tag = false;
        let mut i: usize = 0;
        assert(v@.take(0) =~= Seq::<char>::empty());
        while i < v.len()
            invariant
                i <= v.len(),
                in_tag == tag_run(v@.take(i as int)).in_tag,
                out@ == tag_run(v@.take(i as int)).out,
            decreases v.len() - i,
        {
            proof {
                assert(v@.take(i as int + 1).drop_last() =~= v@.take(i as int));
                assert(v@.take(i as int + 1).last() == v@[i as int]);
            }
            let c = v[i];
            if c == '<' {
                in_tag = true;
            } else if c == '>' {
                in_tag = false;
            } else if !in_tag {
                out.push(c);
            }
            i += 1;
        }
        assert(v@.take(i as int) =~= v@);
        string_of(&out)
    }

    /// The document for XML content.
    pub fn load(&self, source: &str, xml: &str) -> (d: Document)
        ensures
            d@.content == xml_text(xml@, self.strip_tags),
            d@.source == source@,
            d@.metadata == tagged("xml"@, "XmlLoader"@),
    {
        Document::with_metadata(
            Self::extract_text(xml, self.strip_tags),
            source.to_owned(),
            tag("xml", "XmlLoader"),
        )
    }

    /// `XmlLoader`.
    pub fn name(&self) -> (n: &'static str)
        ensures
            n@ == "XmlLoader"@,
    {
        "XmlLoader"
    }

    /// `xml`.
    pub fn supported_extensions(&self) -> (e: Vec<&'static str>)
        ensures
            e@.len() == 1,
            e@[0]@ == "xml"@,
    {
        vec!["xml"]
    }
}

/// Loader for YAML.
#[derive(Debug)]
pub struct YamlLoader {
    pub pretty_print: bool,
}

impl YamlLoader {
    /// A loader that pretty-prints.
    pub fn new() -> (l: YamlLoader)
        ensures
            l == (YamlLoader { pretty_print: true }),
    {
        YamlLoader { pretty_print: true }
    }

    /// Leaves the content as it is.
    pub fn raw(self) -> (l: YamlLoader)
        ensures
            l == (YamlLoader { pretty_print: false }),
    {
        YamlLoader { pretty_print: false }
    }

    /// The document for YAML content, taken as it is.
    pub fn load(&self, source: &str, content: &str) -> (d: Document)
        ensures
            d@.content == content@,
            d@.source == source@,
            d@.metadata == tagged("yaml"@, "YamlLoader"@),
    {
        Document::with_metadata(content.to_owned(), source.to_owned(), tag("yaml", "YamlLoader"))
    }

    /// `YamlLoader`.
    pub fn name(&self) -> (n: &'static str)
        ensures
            n@ == "YamlLoader"@,
    {
        "YamlLoader"
    }

    /// `yaml`, `yml`.
    pub fn supported_extensions(&self) -> (e: Vec<&'static str>)
        ensures
            e@.len() == 2,
            e@[0]@ == "yaml"@,
            e@[1]@ == "yml"@,
    {
        vec!["yaml", "yml"]
    }
}

/// Loader for TOML.
#[derive(Debug)]
pub struct TomlLoader {}

impl TomlLoader {
    /// The loader.
    pub fn new() -> (l: TomlLoader) {
        TomlLoader {  }
    }

    /// The document for TOML content, taken as it is.
    pub fn load(&self, source: &str, content: &str) -> (d: Document)
        ensures
            d@.content == content@,
            d@.source == source@,
            d@.metadata == tagged("toml"@, "TomlLoader"@),
    {
        Document::with_metadata(content.to_owned(), source.to_owned(), tag("toml", "TomlLoader"))
    }

    /// `TomlLoader`.
    pub fn name(&self) -> (n: &'static str)
        ensures
            n@ == "TomlLoader"@,
    {
        "TomlLoader"
    }

    /// `toml`.
    pub fn supported_extensions(&self) -> (e: Vec<&'static str>)
        ensures
            e@.len() == 1,
            e@[0]@ == "toml"@,
    {
        vec!["toml"]
    }
}

/// A line that, after trimming, starts with two hyphens.
pub open spec fn sql_comment(line: Seq<char>) -> bool {
    starts_with(trim(line), "--"@)
}

/// The lines that are no comment lines.
pub open spec fn sql_lines(lines: Seq<Seq<char>>) -> Seq<Seq<char>>
    decreases lines.len(),
{
    if lines.len() == 0 {
        Seq::empty()
    } else if sql_comment(lines.last()) {
        sql_lines(lines.drop_last())
    } else {
        sql_lines(lines.drop_last()).push(lines.last())
    }
}

/// The text of an SQL script: all of it, or its lines that are no comment
/// lines, joined by line feeds.
pub open spec fn sql_text(sql: Seq<char>, strip_comments: bool) -> Seq<char> {
    if strip_comments {
        join(sql_lines(lines_of(sql)), seq!['\n'])
    } else {
        sql
    }
}

/// Loader for SQL scripts.
#[derive(Debug)]
pub struct SqlLoader {
    pub strip_comments: bool,
}

impl SqlLoader {
    /// A loader that keeps comments.
    pub fn new() -> (l: SqlLoader)
        ensures
            l == (SqlLoader { strip_comments: false }),
    {
        SqlLoader { strip_comments: false }
    }

    /// Drops comment lines.
    pub fn without_comments(self) -> (l: SqlLoader)
        ensures
            l == (SqlLoader { strip_comments: true }),
    {
        SqlLoader { strip_comments: true }
    }

    /// The document for an SQL script.
    pub fn load(&self, source: &str, sql: &str) -> (d: Document)
        ensures
            d@.content == sql_text(sql@, self.strip_comments),
            d@.source == source@,
            d@.metadata == tagged("sql"@, "SqlLoader"@),
    {
        let content = if self.strip_comments {
            let lines = split_lines(&chars_of(sql));
            let ghost all = views(lines@);
            let mut kept: Vec<Vec<char>> = Vec::new();
            let marker = chars_of("--");
            let mut i: usize = 0;
            assert(all.take(0) =~= Seq::<Seq<char>>::empty());
            assert(views(kept@) =~= Seq::<Seq<char>>::empty());
            while i < lines.len()
                invariant
                    i <= lines.len(),
                    all == views(lines@),
                    marker@ == "--"@,
                    views(kept@) == sql_lines(all.take(i as int)),
                decreases lines.len() - i,
            {
                proof {
                    assert(all.take(i as int + 1).drop_last() =~= all.take(i as int));
                    assert(all.take(i as int + 1).last() == lines@[i as int]@);
                }
                let t = trim_chars(&lines[i]);
                if !begins_with(&t, &marker) {
                    let ghost kept0 = kept@;
                    kept.push(lines[i].clone());
                    assert(views(kept@) =~= views(kept0).push(lines@[i as int]@));
                }
                i += 1;
            }
            assert(all.take(i as int) =~= all);
            let sep = chars_of("\n");
            proof {
                reveal_strlit("\n");
                assert(sep@ =~= seq!['\n']);
            }
            string_of(&join_chars(&kept, &sep))
        } else {
            sql.to_owned()
        };
        Document::with_metadata(content, source.to_owned(), tag("sql", "SqlLoader"))
    }

    /// `SqlLoader`.
    pub fn name(&self) -> (n: &'static str)
        ensures
            n@ == "SqlLoader"@,
    {
        "SqlLoader"
    }

    /// `sql`.
    pub fn supported_extensions(&self) -> (e: Vec<&'static str>)
        ensures
            e@.len() == 1,
            e@[0]@ == "sql"@,
    {
        vec!["sql"]
    }
}

/// While reading an e-mail: whether the headers are still being read, the
/// text kept so far, and the headers found.
pub struct MailState {
    pub in_headers: bool,
    pub content: Seq<char>,
    pub headers: Map<Seq<char>, Seq<char>>,
}

/// The state after one more line. The headers end at the first empty
/// line. A header line has a colon: what stands before it, trimmed and in
/// lower case, names the header, and what follows it, trimmed, is its
/// value; the line is kept as text where headers are included. A line of
/// the headers without a colon is dropped. Every line after the headers
/// is kept.
pub open spec fn mail_step(st: MailState, line: Seq<char>, include_headers: bool) -> MailState {
    if st.in_headers {
        if line.len() == 0 {
            MailState { in_headers: false, ..st }
        } else if before_char(line, ':').len() < line.len() {
            let pos = before_char(line, ':').len() as int;
            MailState {
                in_headers: true,
                content: if include_headers {
                    st.content + line + seq!['\n']
                } else {
                    st.content
                },
                headers: st.headers.insert(lowercase(trim(line.take(pos))), trim(line.skip(pos + 1))),
            }
        } else {
            st
        }
    } else {
        MailState { content: st.content + line + seq!['\n'], ..st }
    }
}

/// The state after the lines.
pub open spec fn mail_run(lines: Seq<Seq<char>>, include_headers: bool) -> MailState
    decreases lines.len(),
{
    if lines.len() == 0 {
        MailState { in_headers: true, content: Seq::empty(), headers: Map::empty() }
    } else {
        mail_step(mail_run(lines.drop_last(), include_headers), lines.last(), include_headers)
    }
}

/// Loader for e-mail messages.
#[derive(Debug)]
pub struct EmlLoader {
    pub include_headers: bool,
    pub include_attachments: bool,
}

impl EmlLoader {
    /// A loader that includes headers and leaves attachments out.
    pub fn new() -> (l: EmlLoader)
        ensures
            l == (EmlLoader { include_headers: true, include_attachments: false }),
    {
        EmlLoader { include_headers: true, include_attachments: false }
    }

    /// Includes attachments.
    pub fn with_attachments(self) -> (l: EmlLoader)
        ensures
            l == (EmlLoader { include_attachments: true, ..self }),
    {
        EmlLoader { include_headers: self.include_headers, include_attachments: true }
    }

    /// Leaves headers out of the text.
    pub fn without_headers(self) -> (l: EmlLoader)
        ensures
            l == (EmlLoader { include_headers: false, ..self }),
    {
        EmlLoader { include_headers: false, include_attachments: self.include_attachments }
    }

    /// The text and the headers of an e-mail message.
    pub fn parse_email(email: &str, include_headers: bool) -> (r: (String, Metadata))
        ensures
            r.0@ == mail_run(lines_of(email@), include_headers).content,
            r.1@ == mail_run(lines_of(email@), include_headers).headers,
    {
        let lines = split_lines(&chars_of(email));
        let ghost all = views(lines@);
        let mut content: Vec<char> = Vec::new();
        let mut headers = Metadata::new();
        let mut in_headers = true;
        let mut i: usize = 0;
        assert(all.take(0) =~= Seq::<Seq<char>>::empty());
        while i < lines.len()
            invariant
                i <= lines.len(),
                all == views(lines@),
                in_headers == mail_run(all.take(i as int), include_headers).in_headers,
                content@ == mail_run(all.take(i as int), include_headers).content,
                headers@ == mail_run(all.take(i as int), include_headers).headers,
            decreases lines.len() - i,
        {
            proof {
                assert(all.take(i as int + 1).drop_last() =~= all.take(i as int));
                assert(all.take(i as int + 1).last() == lines@[i as int]@);
            }
            let line = &lines[i];
            if in_headers {
                if line.len() == 0 {
                    in_headers = false;
                } else {
                    let head = cut_at(line, ':');
                    if head.len() < line.len() {
                        let pos = head.len();
                        assert(head@ =~= line@.take(pos as int)) by {
                            lemma_before_char_prefix(line@, ':');
                        }
                        let key = to_lower(string_of(&trim_chars(&head)).as_str());
                        let value = string_of(&trim_chars(&suffix(line, pos + 1)));
                        headers.insert(key, value);
                        if include_headers {
                            push_all(&mut content, line);
                            content.push('\n');
                        }
                    }
                }
            } else {
                push_all(&mut content, line);
                content.push('\n');
            }
            i += 1;
        }
        assert(all.take(i as int) =~= all);
        (string_of(&content), headers)
    }

    /// The document for an e-mail message.
    pub fn load(&self, source: &str, email: &str) -> (d: Document)
        ensures
            d@.content == mail_run(lines_of(email@), self.include_headers).content,
            d@.source == source@,
            d@.metadata == mail_run(lines_of(email@), self.include_headers).headers.insert(
                "format"@,
                "eml"@,
            ).insert("loader"@, "EmlLoader"@),
    {
        let (content, mut metadata) = Self::parse_email(email, self.include_headers);
        metadata.set("format", "eml");
        metadata.set("loader", "EmlLoader");
        Document::with_metadata(content, source.to_owned(), metadata)
    }

    /// `EmlLoader`.
    pub fn name(&self) -> (n: &'static str)
        ensures
            n@ == "EmlLoader"@,
    {
        "EmlLoader"
    }

    /// `eml`, `msg`.
    pub fn supported_extensions(&self) -> (e: Vec<&'static str>)
        ensures
            e@.len() == 2,
            e@[0]@ == "eml"@,
            e@[1]@ == "msg"@,
    {
        vec!["eml", "msg"]
    }
}

/// What the notebook loader says of a notebook.
pub open spec fn jupyter_content() -> Seq<char> {
    "Jupyter Notebook\n\n"@ + "Note: Full parsing requires serde_json.\n"@
}

/// Loader for Jupyter notebooks.
#[derive(Debug)]
pub struct JupyterLoader {
    pub include_outputs: bool,
    pub include_markdown: bool,
}

impl JupyterLoader {
    /// A loader that includes outputs and text cells.
    pub fn new() -> (l: JupyterLoader)
        ensures
            l == (JupyterLoader { include_outputs: true, include_markdown: true }),
    {
        JupyterLoader { include_outputs: true, include_markdown: true }
    }

    /// Leaves outputs and text cells out.
    pub fn code_only(self) -> (l: JupyterLoader)
        ensures
            l == (JupyterLoader { include_outputs: false, include_markdown: false }),
    {
        JupyterLoader { include_outputs: false, include_markdown: false }
    }

    /// The document for a notebook: a note.
    pub fn load(&self, source: &str) -> (d: Document)
        ensures
            d@.content == jupyter_content(),
            d@.source == source@,
            d@.metadata == tagged("ipynb"@, "JupyterLoader"@),
    {
        let mut out: Vec<char> = Vec::new();
        push_str(&mut out, "Jupyter Notebook\n\n");
        push_str(&mut out, "Note: Full parsing requires serde_json.\n");
        assert(out@ =~= jupyter_content());
        Document::with_metadata(string_of(&out), source.to_owned(), tag("ipynb", "JupyterLoader"))
    }

    /// `JupyterLoader`.
    pub fn name(&self) -> (n: &'static str)
        ensures
            n@ == "JupyterLoader"@,
    {
        "JupyterLoader"
    }

    /// `ipynb`.
    pub fn supported_extensions(&self) -> (e: Vec<&'static str>)
        ensures
            e@.len() == 1,
            e@[0]@ == "ipynb"@,
    {
        vec!["ipynb"]
    }
}

/// What the archive loader says of an archive.
pub open spec fn archive_content(source: Seq<char>) -> Seq<char> {
    "Archive: "@ + source + "\n\n"@ + "Note: Archive extraction requires zip/tar crates.\n"@
}

/// The format that the archive loader records: the extension of the
/// source, or nothing.
pub open spec fn archive_format(source: Seq<char>) -> Seq<char> {
    match extension_of(source) {
        Some(e) => e,
        None => Seq::empty(),
    }
}

/// Loader for archives.
#[derive(Debug)]
pub struct ArchiveLoader {
    pub recursive: bool,
    pub max_depth: usize,
}

impl ArchiveLoader {
    /// A loader that descends into nested archives, five levels deep.
    pub fn new() -> (l: ArchiveLoader)
        ensures
            l == (ArchiveLoader { recursive: true, max_depth: 5 }),
    {
        ArchiveLoader { recursive: true, max_depth: 5 }
    }

    /// Stays out of nested archives.
    pub fn non_recursive(self) -> (l: ArchiveLoader)
        ensures
            l == (ArchiveLoader { recursive: false, ..self }),
    {
        ArchiveLoader { recursive: false, max_depth: self.max_depth }
    }

    /// Sets how deep nested archives are followed.
    pub fn with_max_depth(self, depth: usize) -> (l: ArchiveLoader)
        ensures
            l == (ArchiveLoader { max_depth: depth, ..self }),
    {
        ArchiveLoader { recursive: self.recursive, max_depth: depth }
    }

    /// The document for an archive: a note that names the source.
    pub fn load(&self, source: &str) -> (d: Document)
        ensures
            d@.content == archive_content(source@),
            d@.source == source@,
            d@.metadata == tagged(archive_format(source@), "ArchiveLoader"@),
    {
        let src = chars_of(source);
        let format = match extension(&src) {
            Some(e) => string_of(&e),
            None => String::new(),
        };
        let mut out: Vec<char> = Vec::new();
        push_str(&mut out, "Archive: ");
        push_all(&mut out, &src);
        push_str(&mut out, "\n\n");
        push_str(&mut out, "Note: Archive extraction requires zip/tar crates.\n");
        assert(out@ =~= archive_content(source@));
        Document::with_metadata(
            string_of(&out),
            source.to_owned(),
            tag(format.as_str(), "ArchiveLoader"),
        )
    }

    /// `ArchiveLoader`.
    pub fn name(&self) -> (n: &'static str)
        ensures
            n@ == "ArchiveLoader"@,
    {
        "ArchiveLoader"
    }

    /// `zip`, `tar`, `tar.gz`, `tgz`.
    pub fn supported_extensions(&self) -> (e: Vec<&'static str>)
        ensures
            e@.len() == 4,
            e@[0]@ == "zip"@,
            e@[1]@ == "tar"@,
            e@[2]@ == "tar.gz"@,
            e@[3]@ == "tgz"@,
    {
        vec!["zip", "tar", "tar.gz", "tgz"]
    }
}

} // verus!
