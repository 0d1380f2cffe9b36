use saidl::ebook::{
    chapter_title, content_to_xhtml, EbookError, IterDownloader, IterationConfig, NumConfig,
    NumDownloader, StandardEpub, TocConfig, TocDownloader, WriteBook,
};
use saidl::extract::Chapter;

fn iter_config(start: &str, stop: &str, base: Option<&str>) -> IterationConfig {
    IterationConfig {
        base_url: start.to_string(),
        next_selector: "a.next".to_string(),
        stop_url: stop.to_string(),
        relative_base: base.map(String::from),
    }
}

#[test]
fn numeric_pattern_gives_pages_in_order() {
    let d = NumDownloader::build(NumConfig { pattern: "page-$.html".to_string(), start: 1, end: 3 });
    assert_eq!(d.urls(), vec!["page-1.html", "page-2.html", "page-3.html"]);
}

#[test]
fn numeric_empty_and_single_ranges() {
    let empty = NumDownloader::build(NumConfig { pattern: "p$".to_string(), start: 5, end: 4 });
    assert!(empty.urls().is_empty());
    let one = NumDownloader::build(NumConfig { pattern: "x/$/$".to_string(), start: 65535, end: 65535 });
    assert_eq!(one.urls(), vec!["x/65535/65535"]);
}

#[test]
fn stop_equal_to_start_gives_one_chapter() {
    let d = IterDownloader::build(iter_config("https://a/1", "https://a/1", None));
    let start = d.start_url();
    assert_eq!(start, "https://a/1");
    // the first page holds a next link, which is not followed
    assert_eq!(d.next_url(&start, Some("https://a/2".to_string())), Ok(None));
    assert_eq!(d.next_url(&start, None), Ok(None));
}

#[test]
fn iteration_follows_links_until_stop_page() {
    let d = IterDownloader::build(iter_config("https://a/1", "https://a/3", None));
    let links = |u: &str| match u {
        "https://a/1" => Some("https://a/2".to_string()),
        "https://a/2" => Some("https://a/3".to_string()),
        _ => Some("https://a/4".to_string()),
    };
    let mut visited = vec![];
    let mut url = d.start_url();
    loop {
        visited.push(url.clone());
        match d.next_url(&url, links(&url)).unwrap() {
            Some(next) => url = next,
            None => break,
        }
    }
    assert_eq!(visited, vec!["https://a/1", "https://a/2", "https://a/3"]);
}

#[test]
fn missing_next_link_before_stop_is_an_error() {
    let d = IterDownloader::build(iter_config("https://a/1", "https://a/9", None));
    assert_eq!(d.next_url("https://a/1", None), Err(EbookError::MissingNextLink));
}

#[test]
fn relative_next_link_gets_the_base() {
    let d = IterDownloader::build(iter_config("https://a/1", "https://a/9", Some("https://a")));
    assert_eq!(d.next_url("https://a/1", Some("/2".to_string())), Ok(Some("https://a/2".to_string())));
    assert_eq!(
        d.next_url("https://a/1", Some("https://b/2".to_string())),
        Ok(Some("https://b/2".to_string()))
    );
}

#[test]
fn toc_replaces_dead_links_in_place() {
    let d = TocDownloader::build(TocConfig {
        base_url: "https://a/toc".to_string(),
        toc_selector: String::new(),
        void_sub: "https://a/skip".to_string(),
    });
    assert_eq!(d.index_url(), "https://a/toc");
    let html = r##"<html><body>
        <a href="https://a/1">one</a>
        <a href="#">dead</a>
        <a href=" javascript:void(0); ">script</a>
        <a>no link</a>
        <a href="https://a/2">two</a>
        <a href="#">dead again</a>
    </body></html>"##;
    assert_eq!(
        d.extract_links(html).unwrap(),
        vec!["https://a/1", "https://a/skip", "https://a/skip", "https://a/2", "https://a/skip"]
    );
}

#[test]
fn toc_with_selector_takes_anchors_inside_it() {
    let d = TocDownloader::build(TocConfig {
        base_url: "https://a/toc".to_string(),
        toc_selector: "ol#chapters".to_string(),
        void_sub: "https://a/skip".to_string(),
    });
    let html = r##"<a href="https://a/home">home</a>
        <ol id="chapters"><li><a href="https://a/1">1</a></li><li><a href="javascript:void(0);">x</a></li></ol>"##;
    assert_eq!(d.extract_links(html).unwrap(), vec!["https://a/1", "https://a/skip"]);
}

#[test]
fn toc_with_invalid_selector_is_an_error() {
    let d = TocDownloader::build(TocConfig {
        base_url: "https://a/toc".to_string(),
        toc_selector: "ol[".to_string(),
        void_sub: String::new(),
    });
    assert_eq!(d.extract_links("<ol></ol>"), Err(saidl::extract::ExtractError::InvalidSelector));
}

#[test]
fn xhtml_page_of_a_chapter() {
    assert_eq!(
        content_to_xhtml("T", "<p>c</p>"),
        "<?xml version=\"1.0\" encoding=\"UTF-8\"?>\n    <html xmlns=\"http://www.w3.org/1999/xhtml\" xmlns:epub=\"https://www.w3.org/ns/epub/2007/ops/\"><body>\n    <h1>T</h1><p>c</p></body></html>"
    );
}

#[test]
fn chapter_titles_numbered_from_one() {
    assert_eq!(chapter_title("Intro", 0, true), "Chapter 1: Intro");
    assert_eq!(chapter_title("Intro", 9, true), "Chapter 10: Intro");
    assert_eq!(chapter_title("Intro", 9, false), "Intro");
}

#[test]
fn book_entries_keep_chapter_order() {
    let content = vec![
        Chapter { title: "tt".to_string(), content: "ct".to_string() },
        Chapter { title: "tt2".to_string(), content: "ct2".to_string() },
        Chapter { title: "tt3".to_string(), content: "ct3".to_string() },
    ];
    let book = StandardEpub::build("TestBook".to_string(), content);
    assert_eq!(book.book_name, "TestBook");
    let entries = book.entries(true);
    assert_eq!(entries.len(), 3);
    assert_eq!(entries[0].file_name, "0.xhtml");
    assert_eq!(entries[2].file_name, "2.xhtml");
    assert_eq!(entries[1].title, "Chapter 2: tt2");
    assert_eq!(entries[1].xhtml, content_to_xhtml("Chapter 2: tt2", "ct2"));
    let plain = book.entries(false);
    assert_eq!(plain[2].title, "tt3");
}
