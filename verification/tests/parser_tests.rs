//! The message reader and parser on their own: framing, error cases,
//! header lookup, and the numeric helpers.
use http_server::dec::{parse_usize, u64_to_dec};
use http_server::http::{content_length, get_header, HeaderField, RequestError};
use http_server::parse::{parse_http_request, parse_request, split_head_lines};

fn lines(raw: &[&[u8]]) -> Vec<Vec<u8>> {
    raw.iter().map(|l| l.to_vec()).collect()
}

#[test]
fn request_line_and_headers_parse() {
    let req = parse_http_request(b"GET /index HTTP/1.1\r\nHost: here\r\nX-One: two\r\n\r\n")
        .unwrap();
    assert_eq!(req.method, b"GET".to_vec());
    assert_eq!(req.path, b"/index".to_vec());
    assert_eq!(req.version, b"HTTP/1.1".to_vec());
    assert_eq!(req.headers.len(), 2);
    assert_eq!(req.headers[0].key, b"Host".to_vec());
    assert_eq!(req.headers[0].value, b"here".to_vec());
    assert_eq!(req.headers[1].key, b"X-One".to_vec());
    assert_eq!(req.headers[1].value, b"two".to_vec());
    assert!(req.body.is_empty());
}

#[test]
fn header_values_are_trimmed_on_the_left_only() {
    let req = parse_http_request(b"GET / HTTP/1.1\r\nA:   padded  \r\n\r\n").unwrap();
    assert_eq!(req.headers[0].value, b"padded  ".to_vec());
}

#[test]
fn extra_request_line_tokens_are_ignored() {
    let req = parse_http_request(b"GET /x HTTP/1.1 junk trailing\r\n\r\n").unwrap();
    assert_eq!(req.method, b"GET".to_vec());
    assert_eq!(req.path, b"/x".to_vec());
    assert_eq!(req.version, b"HTTP/1.1".to_vec());
}

#[test]
fn empty_input_is_a_clean_peer_close() {
    assert_eq!(parse_http_request(b"").unwrap_err(), RequestError::PeerClosed);
}

#[test]
fn head_without_blank_line_is_incomplete() {
    assert_eq!(
        parse_http_request(b"GET / HTTP/1.1\r\nHost: here\r\n").unwrap_err(),
        RequestError::IncompleteHead
    );
}

#[test]
fn too_few_request_line_tokens_are_malformed() {
    assert_eq!(
        parse_http_request(b"GET /\r\n\r\n").unwrap_err(),
        RequestError::MalformedRequestLine
    );
}

#[test]
fn header_without_colon_is_malformed() {
    assert_eq!(
        parse_http_request(b"GET / HTTP/1.1\r\nno-colon-here\r\n\r\n").unwrap_err(),
        RequestError::MalformedHeader
    );
}

#[test]
fn header_with_empty_key_is_malformed() {
    assert_eq!(
        parse_http_request(b"GET / HTTP/1.1\r\n: value\r\n\r\n").unwrap_err(),
        RequestError::MalformedHeader
    );
}

#[test]
fn short_body_is_incomplete() {
    assert_eq!(
        parse_http_request(b"POST /files/a HTTP/1.1\r\nContent-Length: 10\r\n\r\nabc")
            .unwrap_err(),
        RequestError::IncompleteBody
    );
}

#[test]
fn body_is_read_to_the_announced_length() {
    let req =
        parse_http_request(b"POST /files/a HTTP/1.1\r\nContent-Length: 3\r\n\r\nabcdef").unwrap();
    assert_eq!(req.body, b"abc".to_vec());
}

#[test]
fn missing_or_malformed_content_length_means_empty_body() {
    let req = parse_http_request(b"POST /files/a HTTP/1.1\r\n\r\nleftover").unwrap();
    assert!(req.body.is_empty());
    let req = parse_http_request(b"POST /files/a HTTP/1.1\r\nContent-Length: nope\r\n\r\nxyz")
        .unwrap();
    assert!(req.body.is_empty());
}

#[test]
fn split_head_separates_lines_from_rest() {
    let (ls, rest) = split_head_lines(b"one\r\ntwo\r\n\r\ntail").unwrap();
    assert_eq!(ls, lines(&[b"one", b"two", b""]));
    assert_eq!(rest, b"tail".to_vec());
    assert!(split_head_lines(b"no terminator").is_none());
}

#[test]
fn parse_request_works_on_lines_directly() {
    let req = parse_request(&lines(&[b"POST /files/f HTTP/1.1", b"K: v", b""])).unwrap();
    assert_eq!(req.method, b"POST".to_vec());
    assert_eq!(req.headers.len(), 1);
    assert!(parse_request(&lines(&[])).is_err());
}

#[test]
fn header_lookup_is_case_insensitive_and_first_wins() {
    let hs = vec![
        HeaderField { key: b"X-Dup".to_vec(), value: b"first".to_vec() },
        HeaderField { key: b"x-dup".to_vec(), value: b"second".to_vec() },
    ];
    assert_eq!(get_header(&hs, b"X-DUP"), Some(&b"first".to_vec()));
    assert_eq!(get_header(&hs, b"absent"), None);
}

#[test]
fn content_length_reads_the_first_parsable_value() {
    let hs = vec![HeaderField { key: b"content-LENGTH".to_vec(), value: b"42".to_vec() }];
    assert_eq!(content_length(&hs), 42);
    assert_eq!(content_length(&Vec::new()), 0);
    let bad = vec![HeaderField { key: b"Content-Length".to_vec(), value: b"4 2".to_vec() }];
    assert_eq!(content_length(&bad), 0);
}

#[test]
fn decimal_rendering_and_reading() {
    assert_eq!(u64_to_dec(0), b"0".to_vec());
    assert_eq!(u64_to_dec(200), b"200".to_vec());
    assert_eq!(u64_to_dec(987654321), b"987654321".to_vec());
    assert_eq!(parse_usize(b"123"), Some(123));
    assert_eq!(parse_usize(b"+7"), Some(7));
    assert_eq!(parse_usize(b"0"), Some(0));
    assert_eq!(parse_usize(b""), None);
    assert_eq!(parse_usize(b"+"), None);
    assert_eq!(parse_usize(b"12a"), None);
    assert_eq!(parse_usize(b"99999999999999999999999999"), None);
}
