use rustywebserver::request::{
    parse_request, read_header, read_line, read_token, split_target, strip_leading_slashes,
};
use rustywebserver::table::Entry;

fn entry(key: &str, value: &str) -> Entry {
    Entry { key: key.as_bytes().to_vec(), value: value.as_bytes().to_vec() }
}

#[test]
fn parses_request_line_headers_and_body() {
    let req = parse_request(
        b"GET /index.html?x=1 HTTP/1.0\r\nHost: example\r\nAccept:  text/html \r\n\r\nrest",
    )
    .unwrap();
    assert_eq!(req.method, b"GET".to_vec());
    assert_eq!(req.target, b"/index.html?x=1".to_vec());
    assert_eq!(req.version, b"HTTP/1.0".to_vec());
    assert_eq!(req.headers.entries, vec![entry("Host", "example"), entry("Accept", "text/html")]);
    assert_eq!(req.body, b"rest".to_vec());
}

#[test]
fn request_line_with_fewer_than_three_tokens_is_no_request() {
    assert_eq!(parse_request(b"GET /index.html\r\n\r\n"), None);
    assert_eq!(parse_request(b"GET\r\n\r\n"), None);
    assert_eq!(parse_request(b""), None);
    assert_eq!(parse_request(b"   \r\n"), None);
    assert_eq!(parse_request(b"\r\nGET / HTTP/1.0\r\n"), None);
}

#[test]
fn tokens_beyond_the_third_are_ignored() {
    let req = parse_request(b"GET / HTTP/1.0 extra\r\n\r\n").unwrap();
    assert_eq!(req.method, b"GET".to_vec());
    assert_eq!(req.target, b"/".to_vec());
    assert_eq!(req.version, b"HTTP/1.0".to_vec());
}

#[test]
fn tokens_are_separated_by_any_whitespace() {
    let req = parse_request(b"  POST\t/x \t HTTP/1.1\n\n").unwrap();
    assert_eq!(req.method, b"POST".to_vec());
    assert_eq!(req.target, b"/x".to_vec());
    assert_eq!(req.version, b"HTTP/1.1".to_vec());
}

#[test]
fn header_lines_without_a_colon_are_ignored() {
    let req = parse_request(b"GET / HTTP/1.0\nnocolon\nA: b\n\n").unwrap();
    assert_eq!(req.headers.entries, vec![entry("A", "b")]);
}

#[test]
fn headers_end_at_the_first_blank_line() {
    let req = parse_request(b"GET / HTTP/1.0\r\nA: 1\r\n\r\nB: 2\r\n").unwrap();
    assert_eq!(req.headers.entries, vec![entry("A", "1")]);
    assert_eq!(req.body, b"B: 2\r\n".to_vec());
}

#[test]
fn request_without_blank_line_has_no_body() {
    let req = parse_request(b"GET / HTTP/1.0\r\nA: 1").unwrap();
    assert_eq!(req.headers.entries, vec![entry("A", "1")]);
    assert_eq!(req.body, Vec::<u8>::new());
}

#[test]
fn last_duplicate_header_wins_and_case_is_kept() {
    let req = parse_request(b"GET / HTTP/1.0\r\nX-Tag: one\r\nx-tag: low\r\nX-Tag: two\r\n\r\n")
        .unwrap();
    assert_eq!(req.headers.get(b"X-Tag"), Some(&b"two".to_vec()));
    assert_eq!(req.headers.get(b"x-tag"), Some(&b"low".to_vec()));
    assert_eq!(req.headers.get(b"X-TAG"), None);
}

#[test]
fn header_is_split_at_its_first_colon() {
    assert_eq!(
        read_header(b"Host: example.org:8080"),
        Some((b"Host".to_vec(), b"example.org:8080".to_vec()))
    );
    assert_eq!(read_header(b" Name :value "), Some((b"Name".to_vec(), b"value".to_vec())));
    assert_eq!(read_header(b":"), Some((Vec::new(), Vec::new())));
    assert_eq!(read_header(b"no colon here"), None);
}

#[test]
fn lines_end_with_lf_or_crlf() {
    assert_eq!(read_line(b"ab\r\ncd\nef", 0), (b"ab".to_vec(), 4));
    assert_eq!(read_line(b"ab\r\ncd\nef", 4), (b"cd".to_vec(), 7));
    assert_eq!(read_line(b"ab\r\ncd\nef", 7), (b"ef".to_vec(), 9));
    assert_eq!(read_line(b"ab\r", 0), (b"ab\r".to_vec(), 3));
    assert_eq!(read_line(b"\n", 0), (Vec::new(), 1));
}

#[test]
fn tokens_are_read_in_turn() {
    let line = b"  a  bc ";
    assert_eq!(read_token(line, 0), (b"a".to_vec(), 3));
    assert_eq!(read_token(line, 3), (b"bc".to_vec(), 7));
    assert_eq!(read_token(line, 7), (Vec::new(), 8));
}

#[test]
fn content_length_defaults_to_zero() {
    let req = parse_request(b"POST / HTTP/1.0\r\n\r\n").unwrap();
    assert_eq!(req.content_length(), 0);
    let req = parse_request(b"POST / HTTP/1.0\r\nContent-Length: abc\r\n\r\n").unwrap();
    assert_eq!(req.content_length(), 0);
    let req = parse_request(b"POST / HTTP/1.0\r\nContent-Length: -3\r\n\r\n").unwrap();
    assert_eq!(req.content_length(), 0);
    let req =
        parse_request(b"POST / HTTP/1.0\r\nContent-Length: 99999999999999999999999999\r\n\r\n")
            .unwrap();
    assert_eq!(req.content_length(), 0);
}

#[test]
fn content_length_is_read_from_the_last_header_of_that_name() {
    let req = parse_request(b"POST / HTTP/1.0\r\nContent-Length: 5\r\n\r\n").unwrap();
    assert_eq!(req.content_length(), 5);
    let req =
        parse_request(b"POST / HTTP/1.0\r\nContent-Length: 5\r\nContent-Length: 12\r\n\r\n")
            .unwrap();
    assert_eq!(req.content_length(), 12);
    let req = parse_request(b"POST / HTTP/1.0\r\nContent-Length: +7\r\n\r\n").unwrap();
    assert_eq!(req.content_length(), 7);
}

#[test]
fn remaining_body_counts_what_the_buffer_lacks() {
    let req = parse_request(b"POST /s HTTP/1.0\r\nContent-Length: 10\r\n\r\nabcd").unwrap();
    assert_eq!(req.remaining_body(), 6);
    let req = parse_request(b"POST /s HTTP/1.0\r\nContent-Length: 4\r\n\r\nabcd").unwrap();
    assert_eq!(req.remaining_body(), 0);
    let req = parse_request(b"POST /s HTTP/1.0\r\nContent-Length: 2\r\n\r\nabcd").unwrap();
    assert_eq!(req.remaining_body(), 0);
    let req = parse_request(b"GET /s HTTP/1.0\r\nContent-Length: 10\r\n\r\nabcd").unwrap();
    assert_eq!(req.remaining_body(), 0);
}

#[test]
fn full_body_holds_exactly_the_announced_bytes() {
    let req = parse_request(b"POST /s HTTP/1.0\r\nContent-Length: 3\r\n\r\nab").unwrap();
    assert_eq!(req.full_body(b"cdef"), Some(b"abc".to_vec()));
    let req = parse_request(b"POST /s HTTP/1.0\r\nContent-Length: 9\r\n\r\nab").unwrap();
    assert_eq!(req.full_body(b"cd"), Some(b"abcd".to_vec()));
    let req = parse_request(b"POST /s HTTP/1.0\r\n\r\nab").unwrap();
    assert_eq!(req.full_body(b""), Some(Vec::new()));
    let req = parse_request(b"GET /s HTTP/1.0\r\nContent-Length: 2\r\n\r\nab").unwrap();
    assert_eq!(req.full_body(b""), None);
}

#[test]
fn method_is_compared_exactly() {
    assert!(parse_request(b"GET / HTTP/1.0\r\n\r\n").unwrap().is_get());
    assert!(!parse_request(b"GET / HTTP/1.0\r\n\r\n").unwrap().is_post());
    assert!(parse_request(b"POST / HTTP/1.0\r\n\r\n").unwrap().is_post());
    assert!(!parse_request(b"get / HTTP/1.0\r\n\r\n").unwrap().is_get());
    assert!(!parse_request(b"GETS / HTTP/1.0\r\n\r\n").unwrap().is_get());
}

#[test]
fn target_is_split_at_its_first_question_mark() {
    assert_eq!(split_target(b"/a?b=1?c"), (b"/a".to_vec(), Some(b"b=1?c".to_vec())));
    assert_eq!(split_target(b"/a"), (b"/a".to_vec(), None));
    assert_eq!(split_target(b"/a?"), (b"/a".to_vec(), Some(Vec::new())));
    assert_eq!(split_target(b"?x"), (Vec::new(), Some(b"x".to_vec())));
}

#[test]
fn leading_slashes_are_stripped() {
    assert_eq!(strip_leading_slashes(b"///a/b/"), b"a/b/".to_vec());
    assert_eq!(strip_leading_slashes(b"a"), b"a".to_vec());
    assert_eq!(strip_leading_slashes(b"//"), Vec::<u8>::new());
    assert_eq!(strip_leading_slashes(b""), Vec::<u8>::new());
}
