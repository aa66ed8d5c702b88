//! Loader for Markdown.
//!
//! The text is parsed by `pulldown_cmark`. The loader turns the events of
//! the parse into plain text, and finds the title.

use vstd::prelude::*;
use vstd::utf8::encode_utf8;
use crate::document::{check_size, size_ok, Document, LoaderError, LoaderOptions};
use crate::text::{
    begins_with,
    chars_of,
    decimal,
    lines_of,
    push_all,
    push_decimal,
    push_str,
    split_lines,
    starts_with,
    string_of,
    suffix,
    trim,
    trim_chars,
    views,
};

verus! {

/// `pulldown_cmark::Event`, one event of a parse.
#[verifier::external_type_specification]
#[verifier::external_body]
pub struct ExCmarkEvent<'a>(pulldown_cmark::Event<'a>);

/// `pulldown_cmark::Tag`, what an element starts as.
#[verifier::external_type_specification]
#[verifier::external_body]
pub struct ExCmarkTag<'a>(pulldown_cmark::Tag<'a>);

/// `pulldown_cmark::TagEnd`, what an element ends as.
#[verifier::external_type_specification]
#[verifier::external_body]
pub struct ExCmarkTagEnd(pulldown_cmark::TagEnd);

/// What the loader reads of one event of a parse.
pub enum MdModel {
    Text(Seq<char>),
    Code(Seq<char>),
    /// The start of a link, with its destination.
    StartLink(Seq<char>),
    /// The start of an image, with its destination.
    StartImage(Seq<char>),
    StartHeading,
    StartParagraph,
    StartCodeBlock,
    StartList,
    StartItem,
    EndLink,
    EndImage,
    EndCodeBlock,
    EndHeading,
    EndParagraph,
    SoftBreak,
    HardBreak,
    Rule,
    /// Anything that the loader passes over.
    Other,
}

/// One event of a parse, as far as the loader reads it.
#[derive(Debug)]
pub enum MdEvent {
    Text(String),
    Code(String),
    /// The start of a link, with its destination.
    StartLink(String),
    /// The start of an image, with its destination.
    StartImage(String),
    StartHeading,
    StartParagraph,
    StartCodeBlock,
    StartList,
    StartItem,
    EndLink,
    EndImage,
    EndCodeBlock,
    EndHeading,
    EndParagraph,
    SoftBreak,
    HardBreak,
    Rule,
    /// Anything that the loader passes over.
    Other,
}

impl View for MdEvent {
    type V = MdModel;

    open spec fn view(&self) -> MdModel {
        match self {
            MdEvent::Text(s) => MdModel::Text(s@),
            MdEvent::Code(s) => MdModel::Code(s@),
            MdEvent::StartLink(s) => MdModel::StartLink(s@),
            MdEvent::StartImage(s) => MdModel::StartImage(s@),
            MdEvent::StartHeading => MdModel::StartHeading,
            MdEvent::StartParagraph => MdModel::StartParagraph,
            MdEvent::StartCodeBlock => MdModel::StartCodeBlock,
            MdEvent::StartList => MdModel::StartList,
            MdEvent::StartItem => MdModel::StartItem,
            MdEvent::EndLink => MdModel::EndLink,
            MdEvent::EndImage => MdModel::EndImage,
            MdEvent::EndCodeBlock => MdModel::EndCodeBlock,
            MdEvent::EndHeading => MdModel::EndHeading,
            MdEvent::EndParagraph => MdModel::EndParagraph,
            MdEvent::SoftBreak => MdModel::SoftBreak,
            MdEvent::HardBreak => MdModel::HardBreak,
            MdEvent::Rule => MdModel::Rule,
            MdEvent::Other => MdModel::Other,
        }
    }
}

/// An event with its first level taken apart: text and code are read, a
/// start or an end still holds its tag.
pub enum MdRaw<'a> {
    Text(String),
    Code(String),
    Start(pulldown_cmark::Tag<'a>),
    End(pulldown_cmark::TagEnd),
    SoftBreak,
    HardBreak,
    Rule,
    Other,
}

/// What the loader reads of an event of `pulldown_cmark`.
pub uninterp spec fn event_model(e: pulldown_cmark::Event<'static>) -> MdModel;

/// What the loader reads of the start of an element.
pub uninterp spec fn start_model(t: pulldown_cmark::Tag<'static>) -> MdModel;

/// What the loader reads of the end of an element.
pub uninterp spec fn end_model(t: pulldown_cmark::TagEnd) -> MdModel;

/// The events that `pulldown_cmark::Parser::new_ext` yields for a text
/// with every option switched on, each as the loader reads it.
pub uninterp spec fn cmark_events(text: Seq<char>) -> Seq<MdModel>;

/// What a half-read event stands for.
pub open spec fn raw_model(r: MdRaw<'static>) -> MdModel {
    match r {
        MdRaw::Text(s) => MdModel::Text(s@),
        MdRaw::Code(s) => MdModel::Code(s@),
        MdRaw::Start(t) => start_model(t),
        MdRaw::End(t) => end_model(t),
        MdRaw::SoftBreak => MdModel::SoftBreak,
        MdRaw::HardBreak => MdModel::HardBreak,
        MdRaw::Rule => MdModel::Rule,
        MdRaw::Other => MdModel::Other,
    }
}

/// Runs `pulldown_cmark::Parser::new_ext` with `Options::all()` over the
/// text and collects the events. The parser reads nothing but the text, so
/// the events are those that [`cmark_events`] names.
#[verifier::external_body]
fn cmark_parse<'a>(text: &'a str) -> (r: Vec<pulldown_cmark::Event<'a>>)
    ensures
        r@.map_values(|e: pulldown_cmark::Event<'a>| event_model(e)) == cmark_events(text@),
{
    pulldown_cmark::Parser::new_ext(text, pulldown_cmark::Options::all()).collect()
}

/// Tells the variants of `pulldown_cmark::Event` apart. Text and code hand
/// over their text, a start and an end their tag.
#[verifier::external_body]
fn cmark_event<'a>(e: pulldown_cmark::Event<'a>) -> (r: MdRaw<'a>)
    ensures
        raw_model(r) == event_model(e),
{
    match e {
        pulldown_cmark::Event::Text(t) => MdRaw::Text(t.into_string()),
        pulldown_cmark::Event::Code(t) => MdRaw::Code(t.into_string()),
        pulldown_cmark::Event::Start(t) => MdRaw::Start(t),
        pulldown_cmark::Event::End(t) => MdRaw::End(t),
        pulldown_cmark::Event::SoftBreak => MdRaw::SoftBreak,
        pulldown_cmark::Event::HardBreak => MdRaw::HardBreak,
        pulldown_cmark::Event::Rule => MdRaw::Rule,
        _ => MdRaw::Other,
    }
}

/// Tells the variants of `pulldown_cmark::Tag` apart. A link and an image
/// hand over their destination.
#[verifier::external_body]
fn cmark_start<'a>(t: pulldown_cmark::Tag<'a>) -> (r: MdEvent)
    ensures
        r@ == start_model(t),
{
    match t {
        pulldown_cmark::Tag::Link { dest_url, .. } => MdEvent::StartLink(dest_url.into_string()),
        pulldown_cmark::Tag::Image { dest_url, .. } => MdEvent::StartImage(dest_url.into_string()),
        pulldown_cmark::Tag::Heading { .. } => MdEvent::StartHeading,
        pulldown_cmark::Tag::Paragraph => MdEvent::StartParagraph,
        pulldown_cmark::Tag::CodeBlock(_) => MdEvent::StartCodeBlock,
        pulldown_cmark::Tag::List(_) => MdEvent::StartList,
        pulldown_cmark::Tag::Item => MdEvent::StartItem,
        _ => MdEvent::Other,
    }
}

/// Tells the variants of `pulldown_cmark::TagEnd` apart.
#[verifier::external_body]
fn cmark_end(t: pulldown_cmark::TagEnd) -> (r: MdEvent)
    ensures
        r@ == end_model(t),
{
    match t {
        pulldown_cmark::TagEnd::Link => MdEvent::EndLink,
        pulldown_cmark::TagEnd::Image => MdEvent::EndImage,
        pulldown_cmark::TagEnd::CodeBlock => MdEvent::EndCodeBlock,
        pulldown_cmark::TagEnd::Heading(_) => MdEvent::EndHeading,
        pulldown_cmark::TagEnd::Paragraph => MdEvent::EndParagraph,
        _ => MdEvent::Other,
    }
}

/// The models of a list of events.
pub open spec fn md_views(events: Seq<MdEvent>) -> Seq<MdModel> {
    events.map_values(|e: MdEvent| e@)
}

/// Parses Markdown into the events that the loader reads.
pub fn parse_markdown(markdown: &str) -> (events: Vec<MdEvent>)
    ensures
        md_views(events@) == cmark_events(markdown@),
{
    let mut raw = cmark_parse(markdown);
    let ghost all = raw@;
    let mut out: Vec<MdEvent> = Vec::new();
    while raw.len() > 0
        invariant
            raw@.len() <= all.len(),
            raw@ == all.take(raw@.len() as int),
            out@.len() == all.len() - raw@.len(),
            forall|k: int|
                0 <= k < out@.len() ==> (#[trigger] out@[k])@ == event_model(all[all.len() - 1 - k]),
        decreases raw.len(),
    {
        let ghost n = raw@.len();
        let e = raw.pop().unwrap();
        assert(e == all[n - 1]);
        assert(raw@ =~= all.take(n - 1));
        let m = match cmark_event(e) {
            MdRaw::Text(s) => MdEvent::Text(s),
            MdRaw::Code(s) => MdEvent::Code(s),
            MdRaw::Start(t) => cmark_start(t),
            MdRaw::End(t) => cmark_end(t),
            MdRaw::SoftBreak => MdEvent::SoftBreak,
            MdRaw::HardBreak => MdEvent::HardBreak,
            MdRaw::Rule => MdEvent::Rule,
            MdRaw::Other => MdEvent::Other,
        };
        out.push(m);
    }
    let mut events: Vec<MdEvent> = Vec::new();
    while out.len() > 0
        invariant
            out@.len() <= all.len(),
            events@.len() == all.len() - out@.len(),
            forall|k: int|
                0 <= k < out@.len() ==> (#[trigger] out@[k])@ == event_model(all[all.len() - 1 - k]),
            forall|k: int| 0 <= k < events@.len() ==> (#[trigger] events@[k])@ == event_model(all[k]),
        decreases out.len(),
    {
        let m = out.pop().unwrap();
        events.push(m);
    }
    assert(md_views(events@) =~= all.map_values(|e: pulldown_cmark::Event| event_model(e)));
    events
}

/// While rendering: whether a link or an image is open, the destination
/// last seen, and the text so far.
pub struct MdState {
    pub in_link: bool,
    pub in_image: bool,
    pub url: Seq<char>,
    pub out: Seq<char>,
}

/// The state after one more event.
pub open spec fn md_step(l: MarkdownLoader, st: MdState, e: MdModel) -> MdState {
    match e {
        MdModel::Text(t) => if st.in_link && l.include_links {
            MdState { in_link: false, out: st.out + t + " ("@ + st.url + ")"@, ..st }
        } else {
            MdState { out: st.out + t, ..st }
        },
        MdModel::Code(c) => if l.preserve_formatting {
            MdState { out: st.out + seq!['`'] + c + seq!['`'], ..st }
        } else {
            MdState { out: st.out + c, ..st }
        },
        MdModel::StartLink(u) => MdState { in_link: true, url: u, ..st },
        MdModel::StartImage(u) => if l.include_images {
            MdState { in_image: true, url: u, ..st }
        } else {
            st
        },
        MdModel::StartHeading => if l.preserve_formatting {
            MdState { out: st.out + "\n# "@, ..st }
        } else {
            MdState { out: st.out + "\n"@, ..st }
        },
        MdModel::StartParagraph => MdState { out: st.out + "\n"@, ..st },
        MdModel::StartCodeBlock => if l.preserve_formatting {
            MdState { out: st.out + "\n```\n"@, ..st }
        } else {
            MdState { out: st.out + "\n"@, ..st }
        },
        MdModel::StartList => MdState { out: st.out + "\n"@, ..st },
        MdModel::StartItem => if l.preserve_formatting {
            MdState { out: st.out + "\n- "@, ..st }
        } else {
            MdState { out: st.out + "\n\u{2022} "@, ..st }
        },
        MdModel::EndLink => MdState { in_link: false, ..st },
        MdModel::EndImage => if st.in_image && l.include_images {
            MdState { in_image: false, out: st.out + " [image: "@ + st.url + "]"@, ..st }
        } else {
            st
        },
        MdModel::EndCodeBlock => if l.preserve_formatting {
            MdState { out: st.out + "\n```\n"@, ..st }
        } else {
            st
        },
        MdModel::EndHeading => MdState { out: st.out + "\n"@, ..st },
        MdModel::EndParagraph => MdState { out: st.out + "\n"@, ..st },
        MdModel::SoftBreak => MdState { out: st.out + " "@, ..st },
        MdModel::HardBreak => MdState { out: st.out + " "@, ..st },
        MdModel::Rule => MdState { out: st.out + "\n---\n"@, ..st },
        MdModel::Other => st,
    }
}

/// The state after the events.
pub open spec fn md_run(l: MarkdownLoader, events: Seq<MdModel>) -> MdState
    decreases events.len(),
{
    if events.len() == 0 {
        MdState { in_link: false, in_image: false, url: Seq::empty(), out: Seq::empty() }
    } else {
        md_step(l, md_run(l, events.drop_last()), events.last())
    }
}

/// The plain text of the events: what rendering leaves, trimmed.
pub open spec fn md_text(l: MarkdownLoader, events: Seq<MdModel>) -> Seq<char> {
    trim(md_run(l, events).out)
}

/// `s` without every leading occurrence of `p`.
pub open spec fn strip_prefixes(s: Seq<char>, p: Seq<char>) -> Seq<char>
    decreases s.len(),
{
    if p.len() > 0 && starts_with(s, p) {
        strip_prefixes(s.skip(p.len() as int), p)
    } else {
        s
    }
}

/// The title among the lines: the first of the first ten lines that starts
/// with a number sign and a space, without these marks and trimmed.
pub open spec fn title_in(lines: Seq<Seq<char>>) -> Option<Seq<char>>
    decreases lines.len(),
{
    if lines.len() == 0 {
        None
    } else if lines.len() <= 10 && title_in(lines.drop_last()) is None && starts_with(
        lines.last(),
        "# "@,
    ) {
        Some(trim(strip_prefixes(lines.last(), "# "@)))
    } else {
        title_in(lines.drop_last())
    }
}

/// Strips every leading occurrence of `p`.
pub fn strip_all(v: &Vec<char>, p: &Vec<char>) -> (out: Vec<char>)
    ensures
        out@ == strip_prefixes(v@, p@),
{
    if p.len() == 0 {
        return v.clone();
    }
    let mut cur = v.clone();
    while begins_with(&cur, p)
        invariant
            p@.len() > 0,
            strip_prefixes(v@, p@) == strip_prefixes(cur@, p@),
        decreases cur@.len(),
    {
        cur = suffix(&cur, p.len());
    }
    cur
}

/// What the Markdown loader records of a text: the format, the size of
/// the text in bytes, and the title where there is one.
pub open spec fn md_metadata(markdown: Seq<char>) -> Map<Seq<char>, Seq<char>> {
    let base = Map::<Seq<char>, Seq<char>>::empty().insert("format"@, "markdown"@).insert(
        "original_size"@,
        decimal(encode_utf8(markdown).len()),
    );
    match title_in(lines_of(markdown)) {
        Some(t) => base.insert("title"@, t),
        None => base,
    }
}

/// Loader for Markdown files.
#[derive(Debug)]
pub struct MarkdownLoader {
    /// Whether marks of headings, code and lists stay in the text.
    pub preserve_formatting: bool,
    /// Whether the destination follows the text of a link.
    pub include_links: bool,
    /// Whether the destination of an image is named.
    pub include_images: bool,
}

impl MarkdownLoader {
    /// A loader that gives plain text, with the destinations of links and
    /// images.
    pub fn new() -> (l: MarkdownLoader)
        ensures
            l == (MarkdownLoader {
                preserve_formatting: false,
                include_links: true,
                include_images: true,
            }),
    {
        MarkdownLoader { preserve_formatting: false, include_links: true, include_images: true }
    }

    /// Keeps marks of headings, code and lists.
    pub fn with_formatting(self) -> (l: MarkdownLoader)
        ensures
            l == (MarkdownLoader { preserve_formatting: true, ..self }),
    {
        MarkdownLoader {
            preserve_formatting: true,
            include_links: self.include_links,
            include_images: self.include_images,
        }
    }

    /// Says whether the destinations of links are included.
    pub fn with_links(self, on: bool) -> (l: MarkdownLoader)
        ensures
            l == (MarkdownLoader { include_links: on, ..self }),
    {
        MarkdownLoader {
            preserve_formatting: self.preserve_formatting,
            include_links: on,
            include_images: self.include_images,
        }
    }

    /// Says whether the destinations of images are included.
    pub fn with_images(self, on: bool) -> (l: MarkdownLoader)
        ensures
            l == (MarkdownLoader { include_images: on, ..self }),
    {
        MarkdownLoader {
            preserve_formatting: self.preserve_formatting,
            include_links: self.include_links,
            include_images: on,
        }
    }

    /// The plain text of a list of events.
    pub fn render(&self, events: &Vec<MdEvent>) -> (r: String)
        ensures
            r@ == md_text(*self, md_views(events@)),
    {
        let ghost all = md_views(events@);
        let mut out: Vec<char> = Vec::new();
        let mut in_link = false;
        let mut in_image = false;
        let mut url: Vec<char> = Vec::new();
        let mut i: usize = 0;
        assert(all.take(0) =~= Seq::<MdModel>::empty());
        while i < events.len()
            invariant
                i <= events.len(),
                all == md_views(events@),
                in_link == md_run(*self, all.take(i as int)).in_link,
                in_image == md_run(*self, all.take(i as int)).in_image,
                url@ == md_run(*self, all.take(i as int)).url,
                out@ == md_run(*self, all.take(i as int)).out,
            decreases events.len() - i,
        {
            proof {
                assert(all.take(i as int + 1).drop_last() =~= all.take(i as int));
                assert(all.take(i as int + 1).last() == events@[i as int]@);
            }
            match &events[i] {
                MdEvent::Text(t) => {
                    push_str(&mut out, t.as_str());
                    if in_link && self.include_links {
                        push_str(&mut out, " (");
                        push_all(&mut out, &url);
                        push_str(&mut out, ")");
                        in_link = false;
                    }
                },
                MdEvent::Code(c) => {
                    if self.preserve_formatting {
                        out.push('`');
                        push_str(&mut out, c.as_str());
                        out.push('`');
                    } else {
                        push_str(&mut out, c.as_str());
                    }
                },
                MdEvent::StartLink(u) => {
                    url = chars_of(u.as_str());
                    in_link = true;
                },
                MdEvent::StartImage(u) => {
                    if self.include_images {
                        in_image = true;
                        url = chars_of(u.as_str());
                    }
                },
                MdEvent::StartHeading => {
                    if self.preserve_formatting {
                        push_str(&mut out, "\n# ");
                    } else {
                        push_str(&mut out, "\n");
                    }
                },
                MdEvent::StartParagraph => {
                    push_str(&mut out, "\n");
                },
                MdEvent::StartCodeBlock => {
                    if self.preserve_formatting {
                        push_str(&mut out, "\n```\n");
                    } else {
                        push_str(&mut out, "\n");
                    }
                },
                MdEvent::StartList => {
                    push_str(&mut out, "\n");
                },
                MdEvent::StartItem => {
                    if self.preserve_formatting {
                        push_str(&mut out, "\n- ");
                    } else {
                        push_str(&mut out, "\n\u{2022} ");
                    }
                },
                MdEvent::EndLink => {
                    in_link = false;
                },
                MdEvent::EndImage => {
                    if in_image && self.include_images {
                        push_str(&mut out, " [image: ");
                        push_all(&mut out, &url);
                        push_str(&mut out, "]");
                        in_image = false;
                    }
                },
                MdEvent::EndCodeBlock => {
                    if self.preserve_formatting {
                        push_str(&mut out, "\n```\n");
                    }
                },
                MdEvent::EndHeading => {
                    push_str(&mut out, "\n");
                },
                MdEvent::EndParagraph => {
                    push_str(&mut out, "\n");
                },
                MdEvent::SoftBreak => {
                    push_str(&mut out, " ");
                },
                MdEvent::HardBreak => {
                    push_str(&mut out, " ");
                },
                MdEvent::Rule => {
                    push_str(&mut out, "\n---\n");
                },
                MdEvent::Other => {},
            }
            assert(out@ =~= md_run(*self, all.take(i as int + 1)).out);
            i += 1;
        }
        assert(all.take(i as int) =~= all);
        string_of(&trim_chars(&out))
    }

    /// The plain text of Markdown.
    pub fn extract_text(&self, markdown: &str) -> (r: String)
        ensures
            r@ == md_text(*self, cmark_events(markdown@)),
    {
        let events = parse_markdown(markdown);
        self.render(&events)
    }

    /// The title of Markdown, if its first ten lines hold one.
    pub fn title(markdown: &str) -> (r: Option<String>)
        ensures
            r is Some <==> title_in(lines_of(markdown@)) is Some,
            r is Some ==> r->Some_0@ == title_in(lines_of(markdown@))->Some_0,
    {
        let lines = split_lines(&chars_of(markdown));
        let ghost all = views(lines@);
        let mark = chars_of("# ");
        let mut i: usize = 0;
        assert(all.take(0) =~= Seq::<Seq<char>>::empty());
        while i < lines.len() && i < 10
            invariant
                i <= lines.len(),
                i <= 10,
                all == views(lines@),
                all == lines_of(markdown@),
                mark@ == "# "@,
                title_in(all.take(i as int)) is None,
            decreases lines.len() - i,
        {
            proof {
                assert(all.take(i as int + 1).drop_last() =~= all.take(i as int));
                assert(all.take(i as int + 1).last() == lines@[i as int]@);
            }
            if begins_with(&lines[i], &mark) {
                let t = trim_chars(&strip_all(&lines[i], &mark));
                proof {
                    lemma_title_stays(all, i as int + 1);
                }
                return Some(string_of(&t));
            }
            i += 1;
        }
        proof {
            lemma_title_none(all, i as int);
        }
        None
    }

    /// The document for Markdown content.
    pub fn load(&self, source: &str, markdown: &str) -> (d: Document)
        ensures
            d@.source == source@,
            d@.content == md_text(*self, cmark_events(markdown@)),
            d@.metadata == md_metadata(markdown@),
    {
        let content = self.extract_text(markdown);
        let mut document = Document::new(content, source.to_owned());
        document.add_metadata("format", "markdown");
        let mut size: Vec<char> = Vec::new();
        push_decimal(&mut size, markdown.as_bytes().len());
        assert(size@ =~= decimal(encode_utf8(markdown@).len()));
        document.add_metadata("original_size", string_of(&size).as_str());
        match Self::title(markdown) {
            Some(t) => {
                document.add_metadata("title", t.as_str());
            },
            None => {},
        }
        document
    }

    /// Holds the file size against the limit of the options, then loads.
    pub fn load_with_options(
        &self,
        source: &str,
        markdown: &str,
        file_size: usize,
        options: &LoaderOptions,
    ) -> (r: Result<Document, LoaderError>)
        ensures
            r is Ok <==> size_ok(file_size, options.max_size),
            r is Err ==> r->Err_0 == LoaderError::FileTooLarge(file_size, options.max_size->Some_0),
            r is Ok ==> r->Ok_0@.source == source@ && r->Ok_0@.content == md_text(
                *self,
                cmark_events(markdown@),
            ) && r->Ok_0@.metadata == md_metadata(markdown@),
    {
        match check_size(file_size, options) {
            Ok(_) => Ok(self.load(source, markdown)),
            Err(e) => Err(e),
        }
    }

    /// `MarkdownLoader`.
    pub fn name(&self) -> (n: &'static str)
        ensures
            n@ == "MarkdownLoader"@,
    {
        "MarkdownLoader"
    }

    /// `md`, `markdown`, `mdown`, `mkd`.
    pub fn supported_extensions(&self) -> (e: Vec<&'static str>)
        ensures
            e@.len() == 4,
            e@[0]@ == "md"@,
            e@[1]@ == "markdown"@,
            e@[2]@ == "mdown"@,
            e@[3]@ == "mkd"@,
    {
        vec!["md", "markdown", "mdown", "mkd"]
    }
}

/// A title found among the first `n` lines is the title of all the lines.
pub proof fn lemma_title_stays(lines: Seq<Seq<char>>, n: int)
    requires
        0 <= n <= lines.len(),
        title_in(lines.take(n)) is Some,
    ensures
        title_in(lines) == title_in(lines.take(n)),
    decreases lines.len() - n,
{
    if n < lines.len() {
        assert(lines.take(n + 1).drop_last() =~= lines.take(n));
        lemma_title_stays(lines, n + 1);
    } else {
        assert(lines.take(n) =~= lines);
    }
}

/// Without a title among the first `n` lines, where these are all the
/// lines or ten of them, there is no title at all.
pub proof fn lemma_title_none(lines: Seq<Seq<char>>, n: int)
    requires
        0 <= n <= lines.len(),
        n == lines.len() || n >= 10,
        title_in(lines.take(n)) is None,
    ensures
        title_in(lines) is None,
    decreases lines.len() - n,
{
    if n < lines.len() {
        assert(lines.take(n + 1).drop_last() =~= lines.take(n));
        lemma_title_none(lines, n + 1);
    } else {
        assert(lines.take(n) =~= lines);
    }
}

} // verus!
