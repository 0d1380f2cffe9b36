use saidl::cli::{get_format_msg, get_lines, link_filter};
use saidl::text::{decimal_string, replace_all_char, starts_with, text_eq, trim};

#[test]
fn it_works() {
    let result = 2 + 2;
    assert_eq!(result, 4);
}

#[test]
fn lines_are_trimmed_and_blank_ones_dropped() {
    assert_eq!(get_lines("a\n\n  b  \r\n\t\nc"), vec!["a", "b", "c"]);
    assert!(get_lines("").is_empty());
    assert!(get_lines("\n \n").is_empty());
    assert_eq!(get_lines("only"), vec!["only"]);
}

#[test]
fn format_msg_puts_each_part_on_a_line() {
    assert_eq!(get_format_msg("Cannot create file", "3.html"), "\nCannot create file\n3.html");
}

#[test]
fn text_helpers() {
    assert_eq!(trim("  a b \u{3000}"), "a b");
    assert_eq!(trim(" \t "), "");
    assert_eq!(decimal_string(0), "0");
    assert_eq!(decimal_string(907), "907");
    assert_eq!(decimal_string(u64::MAX), u64::MAX.to_string());
    assert_eq!(replace_all_char("a$b$", '$', "12"), "a12b12");
    assert!(starts_with("https://x", "http"));
    assert!(!starts_with("htt", "http"));
    assert!(text_eq("é#", "é#"));
    assert!(!text_eq("a", "ab"));
}

#[test]
fn only_http_lines_are_links() {
    let input: Vec<String> = vec!["#EXTM3U", "https://a/1.ts", "#EXTINF:10", "http://a/2.ts", "ftp://x"]
        .into_iter()
        .map(String::from)
        .collect();
    assert_eq!(link_filter(input), vec!["https://a/1.ts", "http://a/2.ts"]);
}
