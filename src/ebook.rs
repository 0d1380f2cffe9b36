//! E-book flow: the three ways of enumerating pages, and the chapters handed to the packager.
use vstd::prelude::*;

use http::header::HeaderMap;

use crate::extract::{
    anchor_href_attrs, css_selector_valid, get_all_urls, get_toc_urls, present_hrefs,
    substitute_dead, toc_href_attrs, Chapter, ExtractError,
};
use crate::text::{
    decimal, decimal_string, has_prefix, replace_all_char, replace_char, starts_with, text_eq,
};

verus! {

/// Configuration of the e-book flow: the enumeration strategy, the book's name, and the
/// selectors that find a chapter's title and content on a page.
pub struct Config {
    pub flow: EbookFlow,
    pub name: String,
    pub title_selector: String,
    pub content_selector: String,
    pub delay: Option<u64>,
    pub retry: Option<u8>,
}

/// Follow links from page to page.
pub struct IterationConfig {
    pub base_url: String,
    pub next_selector: String,
    pub stop_url: String,
    /// Prefix for a next link that is not absolute.
    pub relative_base: Option<String>,
}

/// Fetch one index page and every page it links to.
pub struct TocConfig {
    pub base_url: String,
    pub toc_selector: String,
    pub void_sub: String,
}

/// Generate page addresses from a pattern and a range of numbers.
pub struct NumConfig {
    pub pattern: String,
    pub start: u16,
    pub end: u16,
}

/// The strategy that decides which pages are fetched, in which order.
pub enum EbookFlow {
    Iter(IterationConfig),
    Toc(TocConfig),
    Num(NumConfig),
}

/// What every fetch of the e-book flow shares.
pub struct EBConfig<'a> {
    pub title_selector: String,
    pub content_selector: String,
    pub h2: bool,
    pub headers: &'a Option<HeaderMap>,
    pub delay: Option<u64>,
    pub retry: Option<u8>,
}

/// Why the e-book flow stopped.
#[derive(Debug, Clone, Copy, PartialEq, Eq)]
pub enum EbookError {
    /// A page before the stop page gave no next link.
    MissingNextLink,
}

pub struct IterDownloader {
    pub config: IterationConfig,
}

pub struct NumDownloader {
    pub config: NumConfig,
}

pub struct TocDownloader {
    pub config: TocConfig,
}

/// The placeholder in a numeric pattern that each number replaces.
pub const NUMBER_PLACEHOLDER: char = '$';

/// The address of page `n` of a numeric pattern.
pub open spec fn numbered_url(pattern: Seq<char>, n: nat) -> Seq<char> {
    replace_char(pattern, NUMBER_PLACEHOLDER, decimal(n))
}

/// A next link made absolute: a link that does not start with `http` gets the base in front.
pub open spec fn resolved_link(base: Option<Seq<char>>, href: Seq<char>) -> Seq<char> {
    match base {
        Some(b) => if has_prefix(href, seq!['h', 't', 't', 'p']) {
            href
        } else {
            b + href
        },
        None => href,
    }
}

/// What follows a fetched page of the iterative flow: `Ok(None)` to stop, `Ok(Some(url))` to
/// fetch `url` next.
pub open spec fn iter_step(
    stop: Seq<char>,
    base: Option<Seq<char>>,
    current: Seq<char>,
    next: Option<Seq<char>>,
) -> Result<Option<Seq<char>>, EbookError> {
    if current == stop {
        Ok(None)
    } else {
        match next {
            None => Err(EbookError::MissingNextLink),
            Some(h) => Ok(Some(resolved_link(base, h))),
        }
    }
}

/// The pages the iterative flow visits from `current` when `link_of` gives the next link of each
/// page, for at most `fuel` pages.
pub open spec fn iter_visits(
    stop: Seq<char>,
    base: Option<Seq<char>>,
    current: Seq<char>,
    link_of: spec_fn(Seq<char>) -> Option<Seq<char>>,
    fuel: nat,
) -> Seq<Seq<char>>
    decreases fuel,
{
    if fuel == 0 {
        Seq::empty()
    } else {
        match iter_step(stop, base, current, link_of(current)) {
            Ok(Some(next)) => seq![current] + iter_visits(
                stop,
                base,
                next,
                link_of,
                (fuel - 1) as nat,
            ),
            _ => seq![current],
        }
    }
}

/// Iterative flow: where the stop page is the start page, the flow visits that one page, gives
/// one chapter, and follows no next link, whatever links the page holds.
pub proof fn lemma_stop_at_start(
    start: Seq<char>,
    base: Option<Seq<char>>,
    link_of: spec_fn(Seq<char>) -> Option<Seq<char>>,
    fuel: nat,
)
    requires
        fuel >= 1,
    ensures
        iter_step(start, base, start, link_of(start)) == Ok::<Option<Seq<char>>, EbookError>(None),
        iter_visits(start, base, start, link_of, fuel) == seq![start],
{
}

impl IterDownloader {
    pub fn build(config: IterationConfig) -> (r: Self)
        ensures
            r.config == config,
    {
        IterDownloader { config }
    }

    /// The first page to fetch.
    pub fn start_url(&self) -> (r: String)
        ensures
            r@ == self.config.base_url@,
    {
        self.config.base_url.clone()
    }

    /// Decides what follows the page at `current`, given the next link found on it: stop after
    /// the stop page, else go on to the next link; a missing link before the stop page is an
    /// error.
    pub fn next_url(&self, current: &str, next: Option<String>) -> (r: Result<
        Option<String>,
        EbookError,
    >)
        ensures
            match iter_step(
                self.config.stop_url@,
                match self.config.relative_base {
                    Some(b) => Some(b@),
                    None => None,
                },
                current@,
                match next {
                    Some(h) => Some(h@),
                    None => None,
                },
            ) {
                Ok(None) => r == Ok::<Option<String>, EbookError>(None),
                Ok(Some(u)) => r matches Ok(Some(s)) && s@ == u,
                Err(e) => r == Err::<Option<String>, EbookError>(e),
            },
    {
        if text_eq(current, self.config.stop_url.as_str()) {
            return Ok(None);
        }
        match next {
            None => Err(EbookError::MissingNextLink),
            Some(h) => match &self.config.relative_base {
                Some(b) => {
                    proof {
                        reveal_strlit("http");
                    }
                    assert("http"@ =~= seq!['h', 't', 't', 'p']);
                    if starts_with(h.as_str(), "http") {
                        Ok(Some(h))
                    } else {
                        let mut u = b.clone();
                        u.append(h.as_str());
                        Ok(Some(u))
                    }
                },
                None => Ok(Some(h)),
            },
        }
    }
}

impl NumDownloader {
    pub fn build(config: NumConfig) -> (r: Self)
        ensures
            r.config == config,
    {
        NumDownloader { config }
    }

    /// The address of every page, one for each number from `start` to `end` inclusive, in
    /// ascending order: the pattern with each placeholder replaced by the number.
    pub fn urls(&self) -> (r: Vec<String>)
        ensures
            r@.len() == if self.config.start <= self.config.end {
                self.config.end - self.config.start + 1
            } else {
                0
            },
            forall|i: int|
                0 <= i < r@.len() ==> (#[trigger] r@[i])@ == numbered_url(
                    self.config.pattern@,
                    (self.config.start + i) as nat,
                ),
    {
        let mut out: Vec<String> = Vec::new();
        if self.config.start > self.config.end {
            return out;
        }
        let mut n: u32 = self.config.start as u32;
        while n <= self.config.end as u32
            invariant
                self.config.start <= n <= self.config.end as u32 + 1,
                out@.len() == n - self.config.start,
                forall|i: int|
                    0 <= i < out@.len() ==> (#[trigger] out@[i])@ == numbered_url(
                        self.config.pattern@,
                        (self.config.start + i) as nat,
                    ),
            decreases self.config.end as u32 + 1 - n,
        {
            let digits = decimal_string(n as u64);
            let url = replace_all_char(self.config.pattern.as_str(), NUMBER_PLACEHOLDER, digits.as_str());
            out.push(url);
            n = n + 1;
        }
        out
    }
}

impl TocDownloader {
    pub fn build(config: TocConfig) -> (r: Self)
        ensures
            r.config == config,
    {
        TocDownloader { config }
    }

    /// The index page to fetch.
    pub fn index_url(&self) -> (r: String)
        ensures
            r@ == self.config.base_url@,
    {
        self.config.base_url.clone()
    }

    /// The pages listed by the fetched index page, in document order, with dead links replaced
    /// by the substitute: the links of every anchor where no table-of-contents selector is set,
    /// else those of the anchors inside the first element the selector matches.
    pub fn extract_links(&self, index_html: &str) -> (r: Result<Vec<String>, ExtractError>)
        ensures
            self.config.toc_selector@.len() == 0 ==> (r matches Ok(v) && v@.map_values(
                |s: String| s@,
            ) == substitute_dead(present_hrefs(anchor_href_attrs(index_html@)), self.config.void_sub@)),
            self.config.toc_selector@.len() > 0 ==> (r is Ok <==> css_selector_valid(
                self.config.toc_selector@,
            )),
            self.config.toc_selector@.len() > 0 ==> (r matches Ok(v) ==> match toc_href_attrs(
                index_html@,
                self.config.toc_selector@,
            ) {
                None => v@.len() == 0,
                Some(attrs) => v@.map_values(|s: String| s@) == substitute_dead(
                    present_hrefs(attrs),
                    self.config.void_sub@,
                ),
            }),
    {
        if self.config.toc_selector.as_str().unicode_len() == 0 {
            Ok(get_all_urls(index_html, self.config.void_sub.as_str()))
        } else {
            get_toc_urls(index_html, self.config.toc_selector.as_str(), self.config.void_sub.as_str())
        }
    }
}

/// The XHTML page of a chapter.
pub open spec fn xhtml_of(title: Seq<char>, content: Seq<char>) -> Seq<char> {
    "<?xml version=\"1.0\" encoding=\"UTF-8\"?>\n    <html xmlns=\"http://www.w3.org/1999/xhtml\" xmlns:epub=\"https://www.w3.org/ns/epub/2007/ops/\"><body>\n    <h1>"@
        + title + "</h1>"@ + content + "</body></html>"@
}

/// The XHTML page of a chapter: its title as a heading, then its content.
pub fn content_to_xhtml(title: &str, content: &str) -> (r: String)
    ensures
        r@ == xhtml_of(title@, content@),
{
    let mut page = String::from_str(
        "<?xml version=\"1.0\" encoding=\"UTF-8\"?>\n    <html xmlns=\"http://www.w3.org/1999/xhtml\" xmlns:epub=\"https://www.w3.org/ns/epub/2007/ops/\"><body>\n    <h1>",
    );
    page.append(title);
    page.append("</h1>");
    page.append(content);
    page.append("</body></html>");
    page
}

/// One page of the book as the packager takes it.
pub struct EpubEntry {
    pub file_name: String,
    pub title: String,
    pub xhtml: String,
}

/// The title shown for chapter `index` (counted from 0): numbered from 1 where asked.
pub open spec fn shown_title(title: Seq<char>, index: nat, numbered: bool) -> Seq<char> {
    if numbered {
        "Chapter "@ + decimal(index + 1) + ": "@ + title
    } else {
        title
    }
}

/// The file that holds chapter `index`.
pub open spec fn entry_file(index: nat) -> Seq<char> {
    decimal(index) + ".xhtml"@
}

/// The title shown for chapter `index` (counted from 0).
pub fn chapter_title(title: &str, index: usize, numbered: bool) -> (r: String)
    requires
        index < usize::MAX,
    ensures
        r@ == shown_title(title@, index as nat, numbered),
{
    if numbered {
        let mut t = String::from_str("Chapter ");
        let digits = decimal_string(index as u64 + 1);
        t.append(digits.as_str());
        t.append(": ");
        t.append(title);
        t
    } else {
        String::from_str(title)
    }
}

/// A book: its name and its chapters in reading order.
pub struct StandardEpub {
    pub book_name: String,
    pub content: Vec<Chapter>,
}

/// What builds a book from its name and its chapters.
pub trait WriteBook: Sized {
    fn build(book_name: String, content: Vec<Chapter>) -> Self;
}

impl WriteBook for StandardEpub {
    fn build(book_name: String, content: Vec<Chapter>) -> (r: Self)
        ensures
            r.book_name == book_name,
            r.content == content,
    {
        StandardEpub { book_name, content }
    }
}

impl StandardEpub {
    /// The pages of the book in chapter order: page `i` is file `i.xhtml`, with the shown title
    /// of chapter `i` and its XHTML.
    pub fn entries(&self, chapter_num: bool) -> (r: Vec<EpubEntry>)
        requires
            self.content@.len() < usize::MAX,
        ensures
            r@.len() == self.content@.len(),
            forall|i: int|
                0 <= i < r@.len() ==> {
                    let t = shown_title(self.content@[i].title@, i as nat, chapter_num);
                    &&& (#[trigger] r@[i]).file_name@ == entry_file(i as nat)
                    &&& r@[i].title@ == t
                    &&& r@[i].xhtml@ == xhtml_of(t, self.content@[i].content@)
                },
    {
        let mut out: Vec<EpubEntry> = Vec::new();
        let mut i: usize = 0;
        while i < self.content.len()
            invariant
                i <= self.content@.len() < usize::MAX,
                out@.len() == i,
                forall|k: int|
                    0 <= k < i ==> {
                        let t = shown_title(self.content@[k].title@, k as nat, chapter_num);
                        &&& (#[trigger] out@[k]).file_name@ == entry_file(k as nat)
                        &&& out@[k].title@ == t
                        &&& out@[k].xhtml@ == xhtml_of(t, self.content@[k].content@)
                    },
            decreases self.content@.len() - i,
        {
            let chapter = &self.content[i];
            let title = chapter_title(chapter.title.as_str(), i, chapter_num);
            let xhtml = content_to_xhtml(title.as_str(), chapter.content.as_str());
            let mut file_name = decimal_string(i as u64);
            file_name.append(".xhtml");
            out.push(EpubEntry { file_name, title, xhtml });
            i = i + 1;
        }
        out
    }
}

} // verus!
