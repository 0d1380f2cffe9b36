use saidl::extract::{
    dead_link, get_all_urls, get_toc_urls, present_links, get_text_from_selector, get_url_from_selector, is_valid_selector,
    single_page_extract, single_page_extract_with_next_url, substitute_dead_links, ExtractError,
};

const PAGE: &str = r#"<html><body>
    <h1 class="title">Chapter <b>One</b></h1>
    <div id="content"><p>First.</p><p>Second.</p></div>
    <a class="next" href="/ch2">next</a>
    <a class="plain">no href</a>
</body></html>"#;

#[test]
fn page_extract_concatenates_text() {
    let chapter = single_page_extract(PAGE, "h1.title", "#content").unwrap();
    assert_eq!(chapter.title, "Chapter One");
    assert_eq!(chapter.content, "First.Second.");
}

#[test]
fn no_match_gives_empty_text() {
    let chapter = single_page_extract(PAGE, "h2", "div.none").unwrap();
    assert_eq!(chapter.title, "");
    assert_eq!(chapter.content, "");
    assert_eq!(get_text_from_selector(PAGE, "span"), "");
}

#[test]
fn invalid_selector_is_an_error() {
    assert!(!is_valid_selector("[[["));
    assert!(is_valid_selector("a.next"));
    assert_eq!(single_page_extract(PAGE, "[[[", "p"), Err(ExtractError::InvalidSelector));
    assert_eq!(
        single_page_extract_with_next_url(PAGE, "h1", "p", "a[").map(|_| ()),
        Err(ExtractError::InvalidSelector)
    );
}

#[test]
fn next_link_is_first_match_href() {
    let (chapter, next) = single_page_extract_with_next_url(PAGE, "h1", "#content", "a.next").unwrap();
    assert_eq!(chapter.title, "Chapter One");
    assert_eq!(next, Some("/ch2".to_string()));
    assert_eq!(get_url_from_selector(PAGE, "a.plain"), None);
    assert_eq!(get_url_from_selector(PAGE, "a.missing"), None);
}

#[test]
fn dead_links() {
    assert!(dead_link("#"));
    assert!(dead_link("  #  "));
    assert!(dead_link("javascript:void(0);"));
    assert!(!dead_link("#top"));
    assert!(!dead_link("https://a/"));
}

#[test]
fn substitution_keeps_positions() {
    let hrefs: Vec<String> = vec!["a", "#", "b", "javascript:void(0);"].into_iter().map(String::from).collect();
    assert_eq!(substitute_dead_links(hrefs, "S"), vec!["a", "S", "b", "S"]);
}

#[test]
fn all_urls_of_page() {
    // the anchor without href is left out
    assert_eq!(get_all_urls(PAGE, "x"), vec!["/ch2"]);
    assert!(get_all_urls("<p>no anchors</p>", "x").is_empty());
}

#[test]
fn present_links_drop_missing_attributes() {
    let attrs = vec![Some("a".to_string()), None, Some("#".to_string()), None];
    assert_eq!(present_links(attrs), vec!["a", "#"]);
}

#[test]
fn toc_urls_come_from_first_match_only() {
    let html = r##"<body>
        <a href="https://a/outside">x</a>
        <div class="toc"><ul><li><a href="https://a/1">1</a></li><li><a href="#">-</a></li><li><a>none</a></li></ul></div>
        <div class="toc"><a href="https://a/other">o</a></div>
    </body>"##;
    assert_eq!(get_toc_urls(html, "div.toc", "S"), Ok(vec!["https://a/1".to_string(), "S".to_string()]));
    assert_eq!(get_toc_urls(html, "nav", "S"), Ok(vec![]));
    assert_eq!(get_toc_urls(html, "div[", "S"), Err(ExtractError::InvalidSelector));
}
