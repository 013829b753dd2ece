//! End-to-end scenarios over the request pipeline: parse, route, build,
//! serialize.
use http_server::http::{get_status_message, status_code, HttpStatus};
use http_server::parse::parse_http_request;
use http_server::response::parse_response;
use http_server::route::{file_created_response, file_read_response, route_request, RouteAction};
use http_server::serialize::make_response_string;

fn header_value(headers: &[http_server::http::HeaderField], key: &str) -> Option<Vec<u8>> {
    headers
        .iter()
        .find(|h| h.key.eq_ignore_ascii_case(key.as_bytes()))
        .map(|h| h.value.clone())
}

#[test]
fn root_returns_bare_200() {
    let req = parse_http_request(b"GET / HTTP/1.1\r\n\r\n").unwrap();
    let action = route_request(&req);
    match action {
        RouteAction::Respond(resp) => {
            let wire = make_response_string(resp);
            assert_eq!(wire, b"HTTP/1.1 200 OK\r\n\r\n".to_vec());
        }
        _ => panic!("expected a direct response"),
    }
}

#[test]
fn echo_reflects_the_path_value() {
    let req = parse_http_request(b"GET /echo/abc HTTP/1.1\r\n\r\n").unwrap();
    match route_request(&req) {
        RouteAction::Respond(resp) => {
            assert_eq!(status_code(resp.status), 200);
            assert_eq!(
                header_value(&resp.headers, "Content-Type"),
                Some(b"text/plain".to_vec())
            );
            assert_eq!(header_value(&resp.headers, "Content-Length"), Some(b"3".to_vec()));
            assert_eq!(resp.body, b"abc".to_vec());
            let wire = make_response_string(resp);
            assert_eq!(
                wire,
                b"HTTP/1.1 200 OK\r\nContent-Length: 3\r\nContent-Type: text/plain\r\n\r\nabc"
                    .to_vec()
            );
        }
        _ => panic!("expected a direct response"),
    }
}

#[test]
fn user_agent_is_reflected_every_time() {
    for _ in 0..3 {
        let req = parse_http_request(
            b"GET /user-agent HTTP/1.1\r\nUser-Agent: test-agent\r\n\r\n",
        )
        .unwrap();
        match route_request(&req) {
            RouteAction::Respond(resp) => {
                assert_eq!(status_code(resp.status), 200);
                assert_eq!(resp.body, b"test-agent".to_vec());
                assert_eq!(
                    header_value(&resp.headers, "Content-Length"),
                    Some(b"10".to_vec())
                );
            }
            _ => panic!("expected a direct response"),
        }
    }
}

#[test]
fn files_post_then_get_round_trip() {
    // POST writes the body under the name the router hands out
    let req = parse_http_request(b"POST /files/test.txt HTTP/1.1\r\nContent-Length: 5\r\n\r\nhello")
        .unwrap();
    let (name, contents) = match route_request(&req) {
        RouteAction::WriteFile(name, body) => (name, body),
        _ => panic!("expected a file write"),
    };
    assert_eq!(name, b"test.txt".to_vec());
    assert_eq!(contents, b"hello".to_vec());
    let created = file_created_response(&req.version);
    assert_eq!(status_code(created.status), 201);
    assert_eq!(get_status_message(created.status), "Created");
    assert!(created.body.is_empty());

    // a following GET serves those bytes back
    let req2 = parse_http_request(b"GET /files/test.txt HTTP/1.1\r\n\r\n").unwrap();
    let name2 = match route_request(&req2) {
        RouteAction::ReadFile(name) => name,
        _ => panic!("expected a file read"),
    };
    assert_eq!(name2, b"test.txt".to_vec());
    let resp = file_read_response(&req2.version, Some(contents));
    assert_eq!(status_code(resp.status), 200);
    assert_eq!(resp.body, b"hello".to_vec());
    assert_eq!(
        header_value(&resp.headers, "Content-Type"),
        Some(b"application/octet-stream".to_vec())
    );
    assert_eq!(header_value(&resp.headers, "Content-Length"), Some(b"5".to_vec()));
}

#[test]
fn missing_file_is_an_empty_404() {
    let req = parse_http_request(b"GET /files/missing.txt HTTP/1.1\r\n\r\n").unwrap();
    let name = match route_request(&req) {
        RouteAction::ReadFile(name) => name,
        _ => panic!("expected a file read"),
    };
    assert_eq!(name, b"missing.txt".to_vec());
    let resp = file_read_response(&req.version, None);
    assert_eq!(status_code(resp.status), 404);
    assert_eq!(get_status_message(resp.status), "Not Found");
    assert!(resp.headers.is_empty());
    assert!(resp.body.is_empty());
    let wire = make_response_string(resp);
    assert_eq!(wire, b"HTTP/1.1 404 Not Found\r\n\r\n".to_vec());
}

#[test]
fn unknown_route_and_method_get_404() {
    let req = parse_http_request(b"GET /nope HTTP/1.1\r\n\r\n").unwrap();
    match route_request(&req) {
        RouteAction::Respond(resp) => assert_eq!(status_code(resp.status), 404),
        _ => panic!("expected a direct response"),
    }
    let req = parse_http_request(b"PUT /echo/abc HTTP/1.1\r\n\r\n").unwrap();
    match route_request(&req) {
        RouteAction::Respond(resp) => assert_eq!(status_code(resp.status), 404),
        _ => panic!("expected a direct response"),
    }
}

#[test]
fn serialized_response_parses_back_identically() {
    let req = parse_http_request(b"GET /echo/round-trip HTTP/1.1\r\n\r\n").unwrap();
    let resp = match route_request(&req) {
        RouteAction::Respond(resp) => resp,
        _ => panic!("expected a direct response"),
    };
    let status = resp.status;
    let version = resp.version.clone();
    let fields: Vec<(Vec<u8>, Vec<u8>)> =
        resp.headers.iter().map(|h| (h.key.clone(), h.value.clone())).collect();
    let body = resp.body.clone();
    let wire = make_response_string(resp);
    let parsed = parse_response(&wire).expect("serialized response must parse");
    assert_eq!(parsed.version, version);
    assert_eq!(parsed.code, status_code(status));
    assert_eq!(parsed.reason, get_status_message(status).as_bytes().to_vec());
    let parsed_fields: Vec<(Vec<u8>, Vec<u8>)> =
        parsed.headers.iter().map(|h| (h.key.clone(), h.value.clone())).collect();
    assert_eq!(parsed_fields, fields);
    assert_eq!(parsed.body, body);
    assert_eq!(status, HttpStatus::OK);
}

#[test]
fn gzip_encoding_is_applied_and_reversible() {
    let req =
        parse_http_request(b"GET /echo/hello HTTP/1.1\r\nAccept-Encoding: gzip\r\n\r\n").unwrap();
    let resp = match route_request(&req) {
        RouteAction::Respond(resp) => resp,
        _ => panic!("expected a direct response"),
    };
    assert_eq!(status_code(resp.status), 200);
    assert_eq!(
        header_value(&resp.headers, "Content-Encoding"),
        Some(b"gzip".to_vec())
    );
    // Content-Length counts the compressed bytes, not the original five
    assert_eq!(
        header_value(&resp.headers, "Content-Length"),
        Some(resp.body.len().to_string().into_bytes())
    );
    assert_ne!(resp.body, b"hello".to_vec());
    let mut decoder = flate2::read::GzDecoder::new(resp.body.as_slice());
    let mut recovered = Vec::new();
    std::io::Read::read_to_end(&mut decoder, &mut recovered).expect("valid gzip stream");
    assert_eq!(recovered, b"hello".to_vec());
}

#[test]
fn accept_encoding_without_gzip_leaves_body_plain() {
    let req =
        parse_http_request(b"GET /echo/hi HTTP/1.1\r\nAccept-Encoding: br, deflate\r\n\r\n")
            .unwrap();
    match route_request(&req) {
        RouteAction::Respond(resp) => {
            assert_eq!(resp.body, b"hi".to_vec());
            assert_eq!(header_value(&resp.headers, "Content-Encoding"), None);
        }
        _ => panic!("expected a direct response"),
    }
}
