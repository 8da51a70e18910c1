use speed_reader::text::{sanitize, truncate_end, truncate_start};

#[test]
fn truncate_end_short_unchanged() {
    assert_eq!(truncate_end("hi", 10), "hi");
}

#[test]
fn truncate_end_exact_max_unchanged() {
    assert_eq!(truncate_end("hello", 5), "hello");
}

#[test]
fn truncate_end_longer_gets_ellipsis() {
    assert_eq!(truncate_end("hello world", 6), "hello…");
}

#[test]
fn truncate_end_max_zero_is_empty() {
    assert_eq!(truncate_end("whatever", 0), "");
}

#[test]
fn truncate_end_max_one_is_ellipsis_only() {
    assert_eq!(truncate_end("hello", 1), "…");
}

#[test]
fn truncate_end_counts_unicode_chars() {
    // six chars total, max 4 → first 3 + ellipsis
    assert_eq!(truncate_end("αβγδεζ", 4), "αβγ…");
}

#[test]
fn truncate_start_short_unchanged() {
    assert_eq!(truncate_start("hi", 10), "hi");
}

#[test]
fn truncate_start_exact_max_unchanged() {
    assert_eq!(truncate_start("hello", 5), "hello");
}

#[test]
fn truncate_start_longer_gets_leading_ellipsis() {
    assert_eq!(truncate_start("hello world", 6), "…world");
}

#[test]
fn truncate_start_max_zero_is_empty() {
    assert_eq!(truncate_start("whatever", 0), "");
}

#[test]
fn truncate_start_max_one_is_ellipsis_only() {
    assert_eq!(truncate_start("hello", 1), "…");
}

#[test]
fn truncate_start_counts_unicode_chars() {
    assert_eq!(truncate_start("αβγδεζ", 4), "…δεζ");
}

#[test]
fn sanitize_drops_invisible_characters() {
    assert_eq!(sanitize("a\u{200B}b\u{00AD}c\u{FEFF}d"), "abcd");
}

#[test]
fn sanitize_collapses_spaces_and_tabs_but_keeps_newlines() {
    assert_eq!(sanitize("a \t  b\n\nc"), "a b\n\nc");
}

#[test]
fn sanitize_turns_crlf_into_newline() {
    assert_eq!(sanitize("one\r\n\r\ntwo"), "one\n\ntwo");
}

#[test]
fn sanitizing_twice_changes_nothing() {
    let once = sanitize("a \u{200B} b\t\tc\r\n  d\u{00AD}e");
    assert_eq!(once, "a b c\n de");
    assert_eq!(sanitize(&once), once);
}
