//! Page extraction: text and links taken out of a fetched HTML document through CSS selectors,
//! and the anchors of a table of contents with dead links replaced.
use vstd::prelude::*;

use scraper::{Html, Selector};
use select::document::Document;
use select::predicate::Name;

use crate::text::{text_eq, trim, trimmed};

verus! {

/// Whether the CSS selector parses.
pub uninterp spec fn css_selector_valid(selector: Seq<char>) -> bool;

/// The concatenated text of the first element of `html` that `selector` matches; `None` where
/// no element matches.
pub uninterp spec fn first_match_text(html: Seq<char>, selector: Seq<char>) -> Option<Seq<char>>;

/// The `href` attribute of the first element of `html` that `selector` matches: `None` where
/// no element matches, `Some(None)` where it has no such attribute.
pub uninterp spec fn first_match_href(html: Seq<char>, selector: Seq<char>) -> Option<
    Option<Seq<char>>,
>;

/// The `href` attribute of each anchor of `html`, in document order; `None` for an anchor
/// without one.
pub uninterp spec fn anchor_href_attrs(html: Seq<char>) -> Seq<Option<Seq<char>>>;

/// The `href` attribute of each anchor inside the first element of `html` that `selector`
/// matches, in document order; `None` where no element matches.
pub uninterp spec fn toc_href_attrs(html: Seq<char>, selector: Seq<char>) -> Option<
    Seq<Option<Seq<char>>>,
>;

/// The text of an optional string.
pub open spec fn opt_view(o: Option<String>) -> Option<Seq<char>> {
    match o {
        Some(s) => Some(s@),
        None => None,
    }
}

/// Relies on scraper's `Selector::parse`: whether the selector parses.
#[verifier::external_body]
fn selector_parses(selector: &str) -> (r: bool)
    ensures
        r == css_selector_valid(selector@),
{
    Selector::parse(selector).is_ok()
}

/// Relies on scraper's `Html::parse_document`, `Html::select` and `ElementRef::text`: the text
/// nodes of the first match, concatenated.
#[verifier::external_body]
fn select_first_text(html: &str, selector: &str) -> (r: Option<String>)
    requires
        css_selector_valid(selector@),
    ensures
        match r {
            Some(s) => first_match_text(html@, selector@) == Some(s@),
            None => first_match_text(html@, selector@) is None,
        },
{
    let document = Html::parse_document(html);
    let parsed = Selector::parse(selector).unwrap();
    document.select(&parsed).next().map(|e| e.text().collect::<String>())
}

/// Relies on scraper's `Html::parse_document`, `Html::select` and `Element::attr`: the `href`
/// of the first match.
#[verifier::external_body]
fn select_first_href(html: &str, selector: &str) -> (r: Option<Option<String>>)
    requires
        css_selector_valid(selector@),
    ensures
        match r {
            None => first_match_href(html@, selector@) is None,
            Some(None) => first_match_href(html@, selector@) == Some(None::<Seq<char>>),
            Some(Some(s)) => first_match_href(html@, selector@) == Some(Some(s@)),
        },
{
    let document = Html::parse_document(html);
    let parsed = Selector::parse(selector).unwrap();
    document.select(&parsed).next().map(|e| e.value().attr("href").map(String::from))
}

/// Relies on select's `Document::from`, `Document::find(Name("a"))` and `Node::attr`: the
/// `href` of each anchor, in document order.
#[verifier::external_body]
fn select_anchor_href_attrs(html: &str) -> (r: Vec<Option<String>>)
    ensures
        r@.map_values(|o: Option<String>| opt_view(o)) == anchor_href_attrs(html@),
{
    Document::from(html).find(Name("a")).map(|n| n.attr("href").map(String::from)).collect()
}

/// Relies on scraper's `Html::parse_document`, `Html::select`, `ElementRef::select` and
/// `Element::attr`: the `href` of each anchor below the first match, in document order.
#[verifier::external_body]
fn select_toc_href_attrs(html: &str, selector: &str) -> (r: Option<Vec<Option<String>>>)
    requires
        css_selector_valid(selector@),
    ensures
        match r {
            None => toc_href_attrs(html@, selector@) is None,
            Some(v) => toc_href_attrs(html@, selector@) == Some(
                v@.map_values(|o: Option<String>| opt_view(o)),
            ),
        },
{
    let document = Html::parse_document(html);
    let parsed = Selector::parse(selector).unwrap();
    let anchor = Selector::parse("a").unwrap();
    document.select(&parsed).next().map(
        |toc| toc.select(&anchor).map(|a| a.value().attr("href").map(String::from)).collect(),
    )
}

/// Why a page could not be taken apart.
#[derive(Debug, Clone, Copy, PartialEq, Eq)]
pub enum ExtractError {
    /// A configured CSS selector does not parse.
    InvalidSelector,
}

/// A chapter of the book: a title and its content.
#[derive(Debug, Clone, PartialEq, Eq)]
pub struct Chapter {
    pub title: String,
    pub content: String,
}

/// The text a selector yields on a page: that of its first match, empty where none matches.
pub open spec fn selected_text(html: Seq<char>, selector: Seq<char>) -> Seq<char> {
    match first_match_text(html, selector) {
        Some(t) => t,
        None => Seq::empty(),
    }
}

/// The link a selector yields on a page: the `href` of its first match, where there is one.
pub open spec fn selected_link(html: Seq<char>, selector: Seq<char>) -> Option<Seq<char>> {
    match first_match_href(html, selector) {
        Some(Some(h)) => Some(h),
        _ => None,
    }
}

/// Whether a selector parses.
pub fn is_valid_selector(selector: &str) -> (r: bool)
    ensures
        r == css_selector_valid(selector@),
{
    selector_parses(selector)
}

/// The text of the first element that `selector` matches in `document`, empty where none does.
pub fn get_text_from_selector(document: &str, selector: &str) -> (r: String)
    requires
        css_selector_valid(selector@),
    ensures
        r@ == selected_text(document@, selector@),
{
    match select_first_text(document, selector) {
        Some(t) => t,
        None => String::new(),
    }
}

/// The `href` of the first element that `selector` matches in `document`.
pub fn get_url_from_selector(document: &str, selector: &str) -> (r: Option<String>)
    requires
        css_selector_valid(selector@),
    ensures
        match r {
            Some(s) => selected_link(document@, selector@) == Some(s@),
            None => selected_link(document@, selector@) is None,
        },
{
    match select_first_href(document, selector) {
        Some(Some(h)) => Some(h),
        _ => None,
    }
}

/// The chapter a page holds: the texts of the title and content selectors.
pub fn single_page_extract(document: &str, title_selector: &str, content_selector: &str) -> (r:
    Result<Chapter, ExtractError>)
    ensures
        r is Ok <==> css_selector_valid(title_selector@) && css_selector_valid(content_selector@),
        r matches Ok(c) ==> c.title@ == selected_text(document@, title_selector@) && c.content@
            == selected_text(document@, content_selector@),
{
    if !selector_parses(title_selector) || !selector_parses(content_selector) {
        return Err(ExtractError::InvalidSelector);
    }
    let title = get_text_from_selector(document, title_selector);
    let content = get_text_from_selector(document, content_selector);
    Ok(Chapter { title, content })
}

/// The chapter a page holds and the link to the next page.
pub fn single_page_extract_with_next_url(
    document: &str,
    title_selector: &str,
    content_selector: &str,
    next_url_selector: &str,
) -> (r: Result<(Chapter, Option<String>), ExtractError>)
    ensures
        r is Ok <==> css_selector_valid(title_selector@) && css_selector_valid(content_selector@)
            && css_selector_valid(next_url_selector@),
        r matches Ok(p) ==> p.0.title@ == selected_text(document@, title_selector@) && p.0.content@
            == selected_text(document@, content_selector@) && match p.1 {
            Some(s) => selected_link(document@, next_url_selector@) == Some(s@),
            None => selected_link(document@, next_url_selector@) is None,
        },
{
    if !selector_parses(next_url_selector) {
        return Err(ExtractError::InvalidSelector);
    }
    match single_page_extract(document, title_selector, content_selector) {
        Ok(chapter) => {
            let next = get_url_from_selector(document, next_url_selector);
            Ok((chapter, next))
        },
        Err(e) => Err(e),
    }
}

/// A link that leads nowhere: a bare fragment marker or a no-op script, once trimmed.
pub open spec fn is_dead_link(href: Seq<char>) -> bool {
    trimmed(href) == "#"@ || trimmed(href) == "javascript:void(0);"@
}

/// `hrefs` with each dead link replaced by `substitute`.
pub open spec fn substitute_dead(hrefs: Seq<Seq<char>>, substitute: Seq<char>) -> Seq<Seq<char>> {
    hrefs.map_values(|h: Seq<char>| if is_dead_link(h) { substitute } else { h })
}

/// Whether `href` leads nowhere.
pub fn dead_link(href: &str) -> (r: bool)
    ensures
        r == is_dead_link(href@),
{
    let t = trim(href);
    text_eq(t, "#") || text_eq(t, "javascript:void(0);")
}

/// Replaces each dead link by `substitute`, keeping every link in its place.
pub fn substitute_dead_links(hrefs: Vec<String>, substitute: &str) -> (r: Vec<String>)
    ensures
        r@.len() == hrefs@.len(),
        forall|i: int|
            0 <= i < hrefs@.len() ==> (#[trigger] r@[i])@ == if is_dead_link(hrefs@[i]@) {
                substitute@
            } else {
                hrefs@[i]@
            },
{
    let mut out: Vec<String> = Vec::new();
    let mut i: usize = 0;
    while i < hrefs.len()
        invariant
            i <= hrefs@.len(),
            out@.len() == i,
            forall|k: int|
                0 <= k < i ==> (#[trigger] out@[k])@ == if is_dead_link(hrefs@[k]@) {
                    substitute@
                } else {
                    hrefs@[k]@
                },
        decreases hrefs@.len() - i,
    {
        if dead_link(hrefs[i].as_str()) {
            out.push(String::from_str(substitute));
        } else {
            out.push(hrefs[i].clone());
        }
        i = i + 1;
    }
    out
}

/// The attributes that are present, in order.
pub open spec fn present_hrefs(attrs: Seq<Option<Seq<char>>>) -> Seq<Seq<char>>
    decreases attrs.len(),
{
    if attrs.len() == 0 {
        Seq::empty()
    } else {
        let head = present_hrefs(attrs.drop_last());
        match attrs.last() {
            Some(h) => head.push(h),
            None => head,
        }
    }
}

/// The links of anchors that have one, in their order.
pub fn present_links(attrs: Vec<Option<String>>) -> (r: Vec<String>)
    ensures
        r@.map_values(|s: String| s@) == present_hrefs(
            attrs@.map_values(|o: Option<String>| opt_view(o)),
        ),
{
    let ghost all = attrs@.map_values(|o: Option<String>| opt_view(o));
    let mut out: Vec<String> = Vec::new();
    let mut i: usize = 0;
    while i < attrs.len()
        invariant
            i <= attrs@.len(),
            all == attrs@.map_values(|o: Option<String>| opt_view(o)),
            out@.map_values(|s: String| s@) == present_hrefs(all.subrange(0, i as int)),
        decreases attrs@.len() - i,
    {
        let ghost prefix = all.subrange(0, i as int);
        assert(all.subrange(0, i + 1).drop_last() =~= prefix);
        assert(all.subrange(0, i + 1).last() == opt_view(attrs@[i as int]));
        match &attrs[i] {
            Some(h) => {
                out.push(h.clone());
                assert(out@.map_values(|s: String| s@) =~= present_hrefs(prefix).push(h@));
            },
            None => {},
        }
        i = i + 1;
    }
    assert(all.subrange(0, attrs@.len() as int) =~= all);
    out
}

/// `hrefs` with each dead link replaced by `void_sub`.
pub fn substitute_links(hrefs: Vec<String>, void_sub: &str) -> (r: Vec<String>)
    ensures
        r@.map_values(|s: String| s@) == substitute_dead(hrefs@.map_values(|s: String| s@), void_sub@),
{
    let ghost hv = hrefs@.map_values(|s: String| s@);
    let out = substitute_dead_links(hrefs, void_sub);
    let ghost ov = out@.map_values(|s: String| s@);
    assert forall|i: int| 0 <= i < ov.len() implies #[trigger] ov[i] == substitute_dead(
        hv,
        void_sub@,
    )[i] by {
        assert(hv[i] == hrefs@[i]@);
        assert(ov[i] == out@[i]@);
    }
    assert(ov =~= substitute_dead(hv, void_sub@));
    out
}

/// The links of every anchor of a page that has one, in document order, with each dead link
/// replaced by `void_sub`.
pub fn get_all_urls(raw_html: &str, void_sub: &str) -> (r: Vec<String>)
    ensures
        r@.map_values(|s: String| s@) == substitute_dead(
            present_hrefs(anchor_href_attrs(raw_html@)),
            void_sub@,
        ),
{
    let attrs = select_anchor_href_attrs(raw_html);
    let hrefs = present_links(attrs);
    substitute_links(hrefs, void_sub)
}

/// The links of the anchors inside the first element that `toc_selector` matches, in document
/// order, with each dead link replaced by `void_sub`; none where nothing matches.
pub fn get_toc_urls(raw_html: &str, toc_selector: &str, void_sub: &str) -> (r: Result<
    Vec<String>,
    ExtractError,
>)
    ensures
        r is Ok <==> css_selector_valid(toc_selector@),
        r matches Ok(v) ==> match toc_href_attrs(raw_html@, toc_selector@) {
            None => v@.len() == 0,
            Some(attrs) => v@.map_values(|s: String| s@) == substitute_dead(
                present_hrefs(attrs),
                void_sub@,
            ),
        },
{
    if !selector_parses(toc_selector) {
        return Err(ExtractError::InvalidSelector);
    }
    match select_toc_href_attrs(raw_html, toc_selector) {
        None => Ok(Vec::new()),
        Some(attrs) => {
            let hrefs = present_links(attrs);
            Ok(substitute_links(hrefs, void_sub))
        },
    }
}

/// Dead links of a table of contents: each dead link is replaced by the substitute, once per
/// occurrence, and every other link keeps its text and its place.
pub proof fn lemma_dead_links_replaced(hrefs: Seq<Seq<char>>, substitute: Seq<char>, i: int)
    requires
        0 <= i < hrefs.len(),
    ensures
        substitute_dead(hrefs, substitute).len() == hrefs.len(),
        is_dead_link(hrefs[i]) ==> substitute_dead(hrefs, substitute)[i] == substitute,
        !is_dead_link(hrefs[i]) ==> substitute_dead(hrefs, substitute)[i] == hrefs[i],
{
}

} // verus!
