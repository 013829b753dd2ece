//! The byte helpers, status table, serializer details, and the pool's
//! build decision.
use http_server::bytes::{bytes_eq, contains_sub, eq_ignore_ascii_case, starts_with, trim_start_vec};
use http_server::http::{get_status_message, status_code, HeaderField, HttpResponse, HttpStatus};
use http_server::pool::{validate_pool_size, PoolCreationError};
use http_server::response::parse_response;
use http_server::serialize::make_response_string;

#[test]
fn case_insensitive_comparison() {
    assert!(eq_ignore_ascii_case(b"Content-Length", b"content-length"));
    assert!(eq_ignore_ascii_case(b"GeT", b"gEt"));
    assert!(!eq_ignore_ascii_case(b"GET", b"GETX"));
    assert!(!eq_ignore_ascii_case(b"a", b"b"));
}

#[test]
fn substring_and_prefix_search() {
    assert!(contains_sub(b"deflate, gzip;q=1", b"gzip"));
    assert!(!contains_sub(b"deflate, br", b"gzip"));
    assert!(contains_sub(b"abc", b""));
    assert!(starts_with(b"/echo/abc", b"/echo/"));
    assert!(!starts_with(b"/echoabc", b"/echo/"));
    assert!(bytes_eq(b"/user-agent", b"/user-agent"));
    assert!(!bytes_eq(b"/user-agent", b"/user-agent/"));
}

#[test]
fn leading_whitespace_trimming() {
    assert_eq!(trim_start_vec(b"  \t v "), b"v ".to_vec());
    assert_eq!(trim_start_vec(b"v"), b"v".to_vec());
    assert_eq!(trim_start_vec(b"   "), Vec::<u8>::new());
}

#[test]
fn status_table() {
    assert_eq!(status_code(HttpStatus::OK), 200);
    assert_eq!(status_code(HttpStatus::Created), 201);
    assert_eq!(status_code(HttpStatus::NotFound), 404);
    assert_eq!(get_status_message(HttpStatus::OK), "OK");
    assert_eq!(get_status_message(HttpStatus::Created), "Created");
    assert_eq!(get_status_message(HttpStatus::NotFound), "Not Found");
}

#[test]
fn serializer_emits_headers_in_stored_order() {
    let resp = HttpResponse {
        version: b"HTTP/1.1".to_vec(),
        status: HttpStatus::OK,
        headers: vec![
            HeaderField { key: b"B-Second".to_vec(), value: b"2".to_vec() },
            HeaderField { key: b"A-First".to_vec(), value: b"1".to_vec() },
        ],
        body: b"payload".to_vec(),
    };
    let wire = make_response_string(resp);
    assert_eq!(
        wire,
        b"HTTP/1.1 200 OK\r\nB-Second: 2\r\nA-First: 1\r\n\r\npayload".to_vec()
    );
}

#[test]
fn binary_bodies_serialize_verbatim() {
    let body = vec![0u8, 13, 10, 255, 128, 13, 10, 13, 10, 7];
    let resp = HttpResponse {
        version: b"HTTP/1.1".to_vec(),
        status: HttpStatus::OK,
        headers: vec![HeaderField { key: b"Content-Length".to_vec(), value: b"10".to_vec() }],
        body: body.clone(),
    };
    let wire = make_response_string(resp);
    assert!(wire.ends_with(&body));
    let parsed = parse_response(&wire).unwrap();
    assert_eq!(parsed.body, body);
}

#[test]
fn response_parser_rejects_garbage() {
    assert!(parse_response(b"").is_none());
    assert!(parse_response(b"HTTP/1.1 200 OK").is_none());
    assert!(parse_response(b"nostatusline\r\n\r\n").is_none());
    assert!(parse_response(b"HTTP/1.1 abc OK\r\n\r\n").is_none());
    assert!(parse_response(b"HTTP/1.1 99999 OK\r\n\r\n").is_none());
}

#[test]
fn pool_size_zero_is_refused() {
    match validate_pool_size(0) {
        Err(PoolCreationError::ZeroSize) => {}
        _ => panic!("a zero-size pool must be refused"),
    }
    assert_eq!(
        PoolCreationError::ZeroSize.message(),
        "ThreadPool cannot be created with size 0"
    );
}

#[test]
fn pool_positive_sizes_are_accepted() {
    assert_eq!(validate_pool_size(1).unwrap(), 1);
    assert_eq!(validate_pool_size(8).unwrap(), 8);
}
