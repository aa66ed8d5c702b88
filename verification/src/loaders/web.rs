//! Loader for web pages.
//!
//! The page is parsed and queried by `scraper`. The loader checks the
//! address, judges the response, picks the main content of the page and
//! reads its metadata. Fetching the page is the caller's part.

use vstd::prelude::*;
use crate::document::{Document, LoaderError, Metadata};
use crate::loaders::common::{opt_view, with_field};
use crate::text::{
    begins_with,
    blank,
    chars_of,
    is_blank,
    join,
    join_chars,
    push_str,
    starts_with,
    string_of,
    str_views,
    trim,
    trim_chars,
};

verus! {

/// The pieces of text inside the first element of an HTML page that a CSS
/// selector matches, as `scraper` finds them; nothing where the selector
/// cannot be parsed or matches no element.
pub uninterp spec fn html_text(html: Seq<char>, selector: Seq<char>) -> Option<Seq<Seq<char>>>;

/// The value of an attribute of the first element of an HTML page that a
/// CSS selector matches, as `scraper` finds it: nothing where the selector
/// cannot be parsed or matches no element, else the value, if the element
/// has the attribute.
pub uninterp spec fn html_attr(html: Seq<char>, selector: Seq<char>, attr: Seq<char>) -> Option<
    Option<Seq<char>>,
>;

/// The pieces of text inside the root element of an HTML page, as
/// `scraper` finds them.
pub uninterp spec fn html_root(html: Seq<char>) -> Seq<Seq<char>>;

/// Parses the page with `scraper::Html::parse_document` and the selector
/// with `scraper::Selector::parse`, takes the first element of
/// `Html::select` and collects `ElementRef::text`. All of this reads the
/// two texts alone, so the result is what [`html_text`] names.
#[verifier::external_body]
pub(crate) fn select_text(html: &str, selector: &str) -> (r: Option<Vec<String>>)
    ensures
        match r {
            Some(v) => html_text(html@, selector@) == Some(str_views(v@)),
            None => html_text(html@, selector@) is None,
        },
{
    let doc = scraper::Html::parse_document(html);
    match scraper::Selector::parse(selector) {
        Ok(sel) => doc.select(&sel).next().map(|e| e.text().map(String::from).collect()),
        Err(_) => None,
    }
}

/// Parses the page with `scraper::Html::parse_document` and the selector
/// with `scraper::Selector::parse`, takes the first element of
/// `Html::select` and asks `Element::attr` for the attribute. The result
/// is what [`html_attr`] names.
#[verifier::external_body]
pub(crate) fn select_attr(html: &str, selector: &str, attr: &str) -> (r: Option<Option<String>>)
    ensures
        match r {
            Some(v) => html_attr(html@, selector@, attr@) == Some(opt_view(v)),
            None => html_attr(html@, selector@, attr@) is None,
        },
{
    let doc = scraper::Html::parse_document(html);
    match scraper::Selector::parse(selector) {
        Ok(sel) => doc.select(&sel).next().map(|e| e.value().attr(attr).map(String::from)),
        Err(_) => None,
    }
}

/// Parses the page with `scraper::Html::parse_document` and collects the
/// text of `Html::root_element`. The result is what [`html_root`] names.
#[verifier::external_body]
pub(crate) fn root_text(html: &str) -> (r: Vec<String>)
    ensures
        str_views(r@) == html_root(html@),
{
    scraper::Html::parse_document(html).root_element().text().map(String::from).collect()
}

/// The selectors of the places where the main content of a page is looked
/// for, in this order.
pub open spec fn content_selectors() -> Seq<Seq<char>> {
    seq![
        "main"@,
        "article"@,
        "[role='main']"@,
        ".content"@,
        "#content"@,
        ".main"@,
        "#main"@,
        "body"@,
    ]
}

/// The text of the first of the first `n` places that has text which is
/// not blank: its pieces, a space between them, trimmed. Nothing where
/// none of these places has such text.
pub open spec fn first_text(places: Seq<Option<Seq<Seq<char>>>>, n: nat) -> Option<Seq<char>>
    decreases n,
{
    if n == 0 || n > places.len() {
        None
    } else {
        match first_text(places, (n - 1) as nat) {
            Some(t) => Some(t),
            None => match places[n - 1] {
                Some(pieces) => if is_blank(join(pieces, seq![' '])) {
                    None
                } else {
                    Some(trim(join(pieces, seq![' '])))
                },
                None => None,
            },
        }
    }
}

/// The text of a page whose places of main content hold `places` and
/// whose root holds `root`: the text of the first place that has some, or
/// all the text of the page, its pieces a space apart, trimmed.
pub open spec fn text_of_page(places: Seq<Option<Seq<Seq<char>>>>, root: Seq<Seq<char>>) -> Seq<char> {
    match first_text(places, places.len()) {
        Some(t) => t,
        None => trim(join(root, seq![' '])),
    }
}

/// What the places of main content of a page hold, in the order of
/// [`content_selectors`].
pub open spec fn places_of(html: Seq<char>) -> Seq<Option<Seq<Seq<char>>>> {
    Seq::new(content_selectors().len(), |i: int| html_text(html, content_selectors()[i]))
}

/// The text of a page: its main content, or, where no place has any, all
/// the text of the page.
pub open spec fn page_text(html: Seq<char>) -> Seq<char> {
    text_of_page(places_of(html), html_root(html))
}

/// What a place holds, as mathematics.
pub open spec fn place_view(p: Option<Vec<String>>) -> Option<Seq<Seq<char>>> {
    match p {
        Some(v) => Some(str_views(v@)),
        None => None,
    }
}

/// The pieces one after the other.
pub open spec fn concat(pieces: Seq<Seq<char>>) -> Seq<char> {
    join(pieces, Seq::empty())
}

/// What the loader records of a page, from what was found in it: the
/// title, trimmed, the description, the keywords and the Open Graph title,
/// as far as the page names them, and the address.
pub open spec fn metadata_of(
    title: Option<Seq<Seq<char>>>,
    description: Option<Option<Seq<char>>>,
    keywords: Option<Option<Seq<char>>>,
    og_title: Option<Option<Seq<char>>>,
    url: Seq<char>,
) -> Map<Seq<char>, Seq<char>> {
    with_field(
        with_field(
            with_field(
                with_field(
                    Map::empty(),
                    "title"@,
                    match title {
                        Some(pieces) => Some(trim(concat(pieces))),
                        None => None,
                    },
                ),
                "description"@,
                flat(description),
            ),
            "keywords"@,
            flat(keywords),
        ),
        "og_title"@,
        flat(og_title),
    ).insert("url"@, url)
}

/// The value of an attribute of an element, where both are there.
pub open spec fn flat(v: Option<Option<Seq<char>>>) -> Option<Seq<char>> {
    match v {
        Some(x) => x,
        None => None,
    }
}

/// What the loader records of a page.
pub open spec fn page_metadata(html: Seq<char>, url: Seq<char>) -> Map<Seq<char>, Seq<char>> {
    metadata_of(
        html_text(html, "title"@),
        html_attr(html, "meta[name='description']"@, "content"@),
        html_attr(html, "meta[name='keywords']"@, "content"@),
        html_attr(html, "meta[property='og:title']"@, "content"@),
        url,
    )
}

/// What was found under an attribute, as mathematics.
pub open spec fn attr_view(v: Option<Option<String>>) -> Option<Option<Seq<char>>> {
    match v {
        Some(x) => Some(opt_view(x)),
        None => None,
    }
}

/// An address is acceptable: it starts with `http://` or `https://`.
pub open spec fn url_ok(url: Seq<char>) -> bool {
    starts_with(url, "http://"@) || starts_with(url, "https://"@)
}

/// The answer of a server.
#[derive(Debug)]
pub struct HttpResponse {
    /// Whether the status is one of success.
    pub success: bool,
    /// The status, as text.
    pub status: String,
    /// The body.
    pub body: String,
}

/// The duration that `Duration::from_secs` makes of a number of seconds.
pub uninterp spec fn secs_duration(secs: u64) -> core::time::Duration;

/// `Duration::from_secs` makes a duration of whole seconds; the result
/// depends on the number alone.
pub assume_specification[ core::time::Duration::from_secs ](secs: u64) -> (d: core::time::Duration)
    ensures
        d == secs_duration(secs),
;

/// What a web loader holds.
pub struct WebLoaderModel {
    pub timeout: core::time::Duration,
    pub user_agent: Seq<char>,
    pub main_content_only: bool,
    pub remove_selectors: Seq<Seq<char>>,
}

/// Loader for web pages.
#[derive(Debug)]
pub struct WebLoader {
    /// How long a request may take.
    pub timeout: core::time::Duration,
    /// The name that requests are made under.
    pub user_agent: String,
    /// Whether only the main content is extracted.
    pub main_content_only: bool,
    /// CSS selectors of what is to be left out.
    pub remove_selectors: Vec<String>,
}

impl View for WebLoader {
    type V = WebLoaderModel;

    open spec fn view(&self) -> WebLoaderModel {
        WebLoaderModel {
            timeout: self.timeout,
            user_agent: self.user_agent@,
            main_content_only: self.main_content_only,
            remove_selectors: str_views(self.remove_selectors@),
        }
    }
}

/// The selectors that a new loader leaves out.
pub open spec fn default_removals() -> Seq<Seq<char>> {
    seq!["nav"@, "footer"@, "header"@, "aside"@, ".advertisement"@, ".ad"@]
}

/// The pieces one after the other.
pub fn concat_pieces(pieces: &Vec<String>) -> (out: Vec<char>)
    ensures
        out@ == concat(str_views(pieces@)),
{
    let parts = crate::text::strings_as_chars(pieces);
    let sep: Vec<char> = Vec::new();
    assert(sep@ =~= Seq::<char>::empty());
    join_chars(&parts, &sep)
}

/// The pieces, a space between them.
pub fn spaced(pieces: &Vec<String>) -> (out: Vec<char>)
    ensures
        out@ == join(str_views(pieces@), seq![' ']),
{
    let parts = crate::text::strings_as_chars(pieces);
    let sep = chars_of(" ");
    proof {
        reveal_strlit(" ");
        assert(sep@ =~= seq![' ']);
    }
    join_chars(&parts, &sep)
}

impl WebLoader {
    /// A loader with a timeout of 30 seconds, which extracts the main
    /// content.
    pub fn new() -> (l: WebLoader)
        ensures
            l@ == (WebLoaderModel {
                timeout: secs_duration(30),
                user_agent: "vecstore-loaders/0.1.0"@,
                main_content_only: true,
                remove_selectors: default_removals(),
            }),
    {
        let remove_selectors: Vec<String> = vec![
            "nav".to_owned(),
            "footer".to_owned(),
            "header".to_owned(),
            "aside".to_owned(),
            ".advertisement".to_owned(),
            ".ad".to_owned(),
        ];
        assert(str_views(remove_selectors@) =~= default_removals());
        WebLoader {
            timeout: core::time::Duration::from_secs(30),
            user_agent: "vecstore-loaders/0.1.0".to_owned(),
            main_content_only: true,
            remove_selectors,
        }
    }

    /// Sets how long a request may take.
    pub fn with_timeout(self, timeout: core::time::Duration) -> (l: WebLoader)
        ensures
            l@ == (WebLoaderModel { timeout, ..self@ }),
    {
        WebLoader {
            timeout,
            user_agent: self.user_agent,
            main_content_only: self.main_content_only,
            remove_selectors: self.remove_selectors,
        }
    }

    /// Sets the name that requests are made under.
    pub fn with_user_agent(self, user_agent: &str) -> (l: WebLoader)
        ensures
            l@ == (WebLoaderModel { user_agent: user_agent@, ..self@ }),
    {
        WebLoader {
            timeout: self.timeout,
            user_agent: user_agent.to_owned(),
            main_content_only: self.main_content_only,
            remove_selectors: self.remove_selectors,
        }
    }

    /// Extracts the whole page.
    pub fn with_full_content(self) -> (l: WebLoader)
        ensures
            l@ == (WebLoaderModel { main_content_only: false, ..self@ }),
    {
        WebLoader {
            timeout: self.timeout,
            user_agent: self.user_agent,
            main_content_only: false,
            remove_selectors: self.remove_selectors,
        }
    }

    /// Adds a selector of what is to be left out.
    pub fn add_remove_selector(self, selector: &str) -> (l: WebLoader)
        ensures
            l@ == (WebLoaderModel {
                remove_selectors: self@.remove_selectors.push(selector@),
                ..self@
            }),
    {
        let mut remove_selectors = self.remove_selectors;
        let ghost before = str_views(remove_selectors@);
        remove_selectors.push(selector.to_owned());
        assert(str_views(remove_selectors@) =~= before.push(selector@));
        WebLoader {
            timeout: self.timeout,
            user_agent: self.user_agent,
            main_content_only: self.main_content_only,
            remove_selectors,
        }
    }

    /// Leaves nothing out.
    pub fn clear_remove_selectors(self) -> (l: WebLoader)
        ensures
            l@ == (WebLoaderModel { remove_selectors: Seq::empty(), ..self@ }),
    {
        let remove_selectors: Vec<String> = Vec::new();
        assert(str_views(remove_selectors@) =~= Seq::<Seq<char>>::empty());
        WebLoader {
            timeout: self.timeout,
            user_agent: self.user_agent,
            main_content_only: self.main_content_only,
            remove_selectors,
        }
    }

    /// The text of a page, from what its places of main content and its
    /// root hold.
    pub fn text_from(places: &Vec<Option<Vec<String>>>, root: &Vec<String>) -> (r: String)
        ensures
            r@ == text_of_page(places@.map_values(|p: Option<Vec<String>>| place_view(p)), str_views(root@)),
    {
        let ghost all = places@.map_values(|p: Option<Vec<String>>| place_view(p));
        let mut i: usize = 0;
        while i < places.len()
            invariant
                i <= places.len(),
                all == places@.map_values(|p: Option<Vec<String>>| place_view(p)),
                first_text(all, i as nat) is None,
            decreases places.len() - i,
        {
            assert(all[i as int] == place_view(places@[i as int]));
            match &places[i] {
                Some(pieces) => {
                    let text = spaced(pieces);
                    if !blank(&text) {
                        proof {
                            lemma_first_text_stays(all, i as nat + 1);
                        }
                        return string_of(&trim_chars(&text));
                    }
                },
                None => {},
            }
            i += 1;
        }
        string_of(&trim_chars(&spaced(root)))
    }

    /// The text of a page.
    pub fn extract_text(&self, html: &str) -> (r: Result<String, LoaderError>)
        ensures
            r is Ok,
            r->Ok_0@ == page_text(html@),
    {
        let selectors: Vec<&str> = vec![
            "main",
            "article",
            "[role='main']",
            ".content",
            "#content",
            ".main",
            "#main",
            "body",
        ];
        assert(selectors@.map_values(|s: &str| s@) =~= content_selectors());
        let mut places: Vec<Option<Vec<String>>> = Vec::new();
        let mut i: usize = 0;
        while i < selectors.len()
            invariant
                i <= selectors.len(),
                selectors@.map_values(|s: &str| s@) == content_selectors(),
                places@.len() == i,
                forall|k: int|
                    0 <= k < i ==> place_view(#[trigger] places@[k]) == html_text(
                        html@,
                        content_selectors()[k],
                    ),
            decreases selectors.len() - i,
        {
            assert(selectors@[i as int]@ == content_selectors()[i as int]);
            places.push(select_text(html, selectors[i]));
            i += 1;
        }
        assert(places@.map_values(|p: Option<Vec<String>>| place_view(p)) =~= places_of(html@));
        let root = root_text(html);
        Ok(Self::text_from(&places, &root))
    }

    /// The metadata of a page, from what was found in it.
    pub fn metadata_from(
        title: &Option<Vec<String>>,
        description: &Option<Option<String>>,
        keywords: &Option<Option<String>>,
        og_title: &Option<Option<String>>,
        url: &str,
    ) -> (m: Metadata)
        ensures
            m@ == metadata_of(
                place_view(*title),
                attr_view(*description),
                attr_view(*keywords),
                attr_view(*og_title),
                url@,
            ),
    {
        let mut m = Metadata::new();
        match title {
            Some(pieces) => {
                let t = string_of(&trim_chars(&concat_pieces(pieces)));
                m.set("title", t.as_str());
            },
            None => {},
        }
        match description {
            Some(Some(c)) => {
                m.set("description", c.as_str());
            },
            _ => {},
        }
        match keywords {
            Some(Some(c)) => {
                m.set("keywords", c.as_str());
            },
            _ => {},
        }
        match og_title {
            Some(Some(c)) => {
                m.set("og_title", c.as_str());
            },
            _ => {},
        }
        m.set("url", url);
        m
    }

    /// The metadata of a page.
    pub fn extract_metadata(&self, html: &str, url: &str) -> (m: Metadata)
        ensures
            m@ == page_metadata(html@, url@),
    {
        let title = select_text(html, "title");
        let description = select_attr(html, "meta[name='description']", "content");
        let keywords = select_attr(html, "meta[name='keywords']", "content");
        let og_title = select_attr(html, "meta[property='og:title']", "content");
        Self::metadata_from(&title, &description, &keywords, &og_title, url)
    }

    /// Whether the address can be fetched; the error where it cannot.
    pub fn check_url(source: &str) -> (r: Result<(), LoaderError>)
        ensures
            r is Ok <==> url_ok(source@),
            r is Err ==> r->Err_0 is InvalidPath && r->Err_0->InvalidPath_0@
                == "URL must start with http:// or https://: "@ + source@,
    {
        let v = chars_of(source);
        if begins_with(&v, &chars_of("http://")) || begins_with(&v, &chars_of("https://")) {
            Ok(())
        } else {
            let mut m: Vec<char> = Vec::new();
            push_str(&mut m, "URL must start with http:// or https://: ");
            push_str(&mut m, source);
            Err(LoaderError::InvalidPath(string_of(&m)))
        }
    }

    /// The document for the answer of a server. An address that is not
    /// acceptable is refused, whatever the answer; an answer without
    /// success is reported with its status.
    pub fn load(&self, source: &str, response: &HttpResponse) -> (r: Result<Document, LoaderError>)
        ensures
            if !url_ok(source@) {
                r is Err && r->Err_0 is InvalidPath && r->Err_0->InvalidPath_0@
                    == "URL must start with http:// or https://: "@ + source@
            } else if !response.success {
                r is Err && r->Err_0 is NetworkError && r->Err_0->NetworkError_0@
                    == "HTTP request failed with status: "@ + response.status@
            } else {
                r is Ok && r->Ok_0@.source == source@ && r->Ok_0@.content == page_text(
                    response.body@,
                ) && r->Ok_0@.metadata == page_metadata(response.body@, source@)
            },
    {
        match Self::check_url(source) {
            Ok(_) => {},
            Err(e) => {
                return Err(e);
            },
        }
        if !response.success {
            let mut m: Vec<char> = Vec::new();
            push_str(&mut m, "HTTP request failed with status: ");
            push_str(&mut m, response.status.as_str());
            return Err(LoaderError::NetworkError(string_of(&m)));
        }
        let html = response.body.as_str();
        let content = match self.extract_text(html) {
            Ok(c) => c,
            Err(e) => {
                return Err(e);
            },
        };
        let metadata = self.extract_metadata(html, source);
        Ok(Document::with_metadata(content, source.to_owned(), metadata))
    }

    /// `WebLoader`.
    pub fn name(&self) -> (n: &'static str)
        ensures
            n@ == "WebLoader"@,
    {
        "WebLoader"
    }

    /// `html`, `htm`.
    pub fn supported_extensions(&self) -> (e: Vec<&'static str>)
        ensures
            e@.len() == 2,
            e@[0]@ == "html"@,
            e@[1]@ == "htm"@,
    {
        vec!["html", "htm"]
    }
}

/// Text found among the first `n` places is the text of all the places.
pub proof fn lemma_first_text_stays(places: Seq<Option<Seq<Seq<char>>>>, n: nat)
    requires
        n <= places.len(),
        first_text(places, n) is Some,
    ensures
        first_text(places, places.len()) == first_text(places, n),
    decreases places.len() - n,
{
    if n < places.len() {
        lemma_first_text_stays(places, n + 1);
    }
}

} // verus!
