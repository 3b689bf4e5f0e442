use octointel::matching::{content_matches, status_matches, ContentMatcher};
use octointel::probe::{classify_response, read_buffer_size, ProbeOutcome};

fn chars(s: &str) -> Vec<char> {
    s.chars().collect()
}

#[test]
fn status_202_matches_accepted_line() {
    let text = chars("HTTP/1.1 202 Accepted\r\nServer: x\r\n");
    assert!(status_matches(&text, 202));
}

#[test]
fn status_202_rejects_404_line() {
    let text = chars("HTTP/1.1 404 Not Found\r\n");
    assert!(!status_matches(&text, 202));
}

#[test]
fn status_needs_surrounding_spaces() {
    assert!(!status_matches(&chars("HTTP/1.1 2020 OK"), 202));
    assert!(!status_matches(&chars("X202 Accepted"), 202));
    assert!(status_matches(&chars("foo 202 bar"), 202));
}

#[test]
fn content_pattern_literal() {
    let m = ContentMatcher::compile(String::from("backend-id")).unwrap();
    assert!(m.is_match("<html>backend-id: 7</html>"));
    assert!(!m.is_match("<html>nothing here</html>"));
}

#[test]
fn content_pattern_regex_semantics() {
    let m = ContentMatcher::compile(String::from("^HTTP/1\\.[01] 2\\d\\d")).unwrap();
    assert!(m.is_match("HTTP/1.1 202 Accepted"));
    assert!(!m.is_match("HTTP/1.0 404 Not Found"));
}

#[test]
fn no_pattern_always_matches() {
    assert!(content_matches(&None, "anything at all"));
    assert!(content_matches(&None, ""));
}

#[test]
fn invalid_pattern_fails_to_compile() {
    assert!(ContentMatcher::compile(String::from("[")).is_none());
}

#[test]
fn classify_full_match_without_pattern() {
    let out = classify_response(7, b"HTTP/1.1 202 Accepted\r\n", 202, &None);
    assert_eq!(
        out,
        ProbeOutcome::Match { addr: 7, status: 202, content_checked: false }
    );
}

#[test]
fn classify_partial_match_on_content_miss() {
    let m = ContentMatcher::compile(String::from("backend-id"));
    let out = classify_response(7, b"HTTP/1.1 202 Accepted\r\nno marker", 202, &m);
    assert_eq!(out, ProbeOutcome::PartialMatch);
}

#[test]
fn classify_match_with_content() {
    let m = ContentMatcher::compile(String::from("backend-id"));
    let out = classify_response(9, b"HTTP/1.1 202 Accepted\r\nbackend-id", 202, &m);
    assert_eq!(
        out,
        ProbeOutcome::Match { addr: 9, status: 202, content_checked: true }
    );
}

#[test]
fn classify_no_response_on_status_miss() {
    let out = classify_response(7, b"HTTP/1.1 500 Oops", 202, &None);
    assert_eq!(out, ProbeOutcome::NoResponse);
}

#[test]
fn classify_empty_read_is_no_response() {
    let out = classify_response(7, b"", 202, &None);
    assert_eq!(out, ProbeOutcome::NoResponse);
}

#[test]
fn classify_decodes_invalid_bytes_leniently() {
    // 0xFF is not valid UTF-8: lossy decoding turns it into the
    // replacement character, which the pattern then finds.
    let m = ContentMatcher::compile(String::from("\u{FFFD}"));
    let out = classify_response(7, b"HTTP/1.1 202 A\xFFB", 202, &m);
    assert_eq!(
        out,
        ProbeOutcome::Match { addr: 7, status: 202, content_checked: true }
    );
}

#[test]
fn buffer_sizes() {
    assert_eq!(read_buffer_size(true), 8192);
    assert_eq!(read_buffer_size(false), 512);
}
