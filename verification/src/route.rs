//! The router: maps a request to a ready response or to the one file
//! operation the caller must perform, applying content-encoding
//! negotiation on the echo route.
use vstd::prelude::*;

verus! {

use vstd::string::StrSliceExecFns;
use vstd::string::StringSliceAdditionalSpecFns;
use crate::bytes::eq_ignore_case;
use crate::bytes::eq_ignore_ascii_case;
use crate::bytes::contains_seq;
use crate::bytes::contains_sub;
use crate::bytes::starts_with;
use crate::bytes::bytes_eq;
use crate::bytes::clone_bytes;
use crate::bytes::subrange_vec;
use crate::bytes::wf_token;
use crate::dec::dec_str;
use crate::dec::all_digits;
use crate::dec::is_digit;
use crate::dec::lemma_dec_str_digits;
use crate::dec::u64_to_dec;
use crate::http::HeaderField;
use crate::http::HttpRequest;
use crate::http::HttpResponse;
use crate::http::HttpStatus;
use crate::http::fields_view;
use crate::http::find_field;
use crate::http::wf_key;
use crate::http::wf_value;
use crate::http::wf_field;
use crate::http::wf_response;
use crate::gzip::gzip_of;
use crate::gzip::gunzip_of;
use crate::gzip::gzip_compress;

/// What handling a request asks of the caller: send a finished response,
/// or first read or write the named file under the content root.
pub enum RouteAction {
    Respond(HttpResponse),
    ReadFile(Vec<u8>),
    WriteFile(Vec<u8>, Vec<u8>),
}

pub open spec fn is_get(m: Seq<u8>) -> bool {
    eq_ignore_case(m, "GET".spec_bytes())
}

pub open spec fn is_post(m: Seq<u8>) -> bool {
    eq_ignore_case(m, "POST".spec_bytes())
}

/// What follows the echo prefix in the path.
pub open spec fn echo_value(p: Seq<u8>) -> Seq<u8> {
    p.skip("/echo/".spec_bytes().len() as int)
}

/// What follows the files prefix in the path.
pub open spec fn file_name_of(p: Seq<u8>) -> Seq<u8> {
    p.skip("/files/".spec_bytes().len() as int)
}

/// The client advertises gzip: its Accept-Encoding value contains "gzip".
pub open spec fn wants_gzip(hs: Seq<(Seq<u8>, Seq<u8>)>) -> bool {
    match find_field(hs, "Accept-Encoding".spec_bytes()) {
        Some(v) => contains_seq(v, "gzip".spec_bytes()),
        None => false,
    }
}

/// The User-Agent value, or empty when the header is absent.
pub open spec fn user_agent_of(hs: Seq<(Seq<u8>, Seq<u8>)>) -> Seq<u8> {
    match find_field(hs, "User-Agent".spec_bytes()) {
        Some(v) => v,
        None => Seq::empty(),
    }
}

/// The response's parts, exactly.
pub open spec fn resp_shape(
    r: HttpResponse,
    version: Seq<u8>,
    status: HttpStatus,
    headers: Seq<(Seq<u8>, Seq<u8>)>,
    body: Seq<u8>,
) -> bool {
    &&& r.version@ == version
    &&& r.status == status
    &&& fields_view(r.headers@) == headers
    &&& r.body@ == body
}

/// Headers of a plain text response, in serialization order.
pub open spec fn text_headers(body: Seq<u8>) -> Seq<(Seq<u8>, Seq<u8>)> {
    seq![
        ("Content-Length".spec_bytes(), dec_str(body.len())),
        ("Content-Type".spec_bytes(), "text/plain".spec_bytes()),
    ]
}

/// Headers of a gzip-encoded text response, in serialization order.
pub open spec fn gzip_headers(body: Seq<u8>) -> Seq<(Seq<u8>, Seq<u8>)> {
    seq![
        ("Content-Encoding".spec_bytes(), "gzip".spec_bytes()),
        ("Content-Length".spec_bytes(), dec_str(body.len())),
        ("Content-Type".spec_bytes(), "text/plain".spec_bytes()),
    ]
}

/// Headers of a file-content response, in serialization order.
pub open spec fn file_headers(body: Seq<u8>) -> Seq<(Seq<u8>, Seq<u8>)> {
    seq![
        ("Content-Type".spec_bytes(), "application/octet-stream".spec_bytes()),
        ("Content-Length".spec_bytes(), dec_str(body.len())),
    ]
}

/// The full dispatch table: method first, then the most specific path
/// shape; unmatched requests get an empty 404.
pub open spec fn route_spec(req: HttpRequest, action: RouteAction) -> bool {
    let m = req.method@;
    let p = req.path@;
    let hs = fields_view(req.headers@);
    let v = req.version@;
    if is_get(m) {
        if eq_ignore_case(p, "/".spec_bytes()) {
            action matches RouteAction::Respond(r) && resp_shape(
                r,
                v,
                HttpStatus::OK,
                Seq::empty(),
                Seq::empty(),
            )
        } else if "/echo/".spec_bytes().is_prefix_of(p) {
            if wants_gzip(hs) {
                action matches RouteAction::Respond(r) && r.body@ == gzip_of(echo_value(p))
                    && gunzip_of(r.body@) == echo_value(p) && resp_shape(
                    r,
                    v,
                    HttpStatus::OK,
                    gzip_headers(r.body@),
                    r.body@,
                )
            } else {
                action matches RouteAction::Respond(r) && resp_shape(
                    r,
                    v,
                    HttpStatus::OK,
                    text_headers(echo_value(p)),
                    echo_value(p),
                )
            }
        } else if p == "/user-agent".spec_bytes() {
            action matches RouteAction::Respond(r) && resp_shape(
                r,
                v,
                HttpStatus::OK,
                text_headers(user_agent_of(hs)),
                user_agent_of(hs),
            )
        } else if "/files/".spec_bytes().is_prefix_of(p) {
            action matches RouteAction::ReadFile(name) && name@ == file_name_of(p)
        } else {
            action matches RouteAction::Respond(r) && resp_shape(
                r,
                v,
                HttpStatus::NotFound,
                Seq::empty(),
                Seq::empty(),
            )
        }
    } else if is_post(m) {
        if "/files/".spec_bytes().is_prefix_of(p) {
            action matches RouteAction::WriteFile(name, body) && name@ == file_name_of(p)
                && body@ == req.body@
        } else {
            action matches RouteAction::Respond(r) && resp_shape(
                r,
                v,
                HttpStatus::NotFound,
                Seq::empty(),
                Seq::empty(),
            )
        }
    } else {
        action matches RouteAction::Respond(r) && resp_shape(
            r,
            v,
            HttpStatus::NotFound,
            Seq::empty(),
            Seq::empty(),
        )
    }
}

proof fn lemma_header_literals()
    ensures
        wf_key("Content-Encoding".spec_bytes()),
        wf_key("Content-Length".spec_bytes()),
        wf_key("Content-Type".spec_bytes()),
        wf_value("gzip".spec_bytes()),
        wf_value("text/plain".spec_bytes()),
        wf_value("application/octet-stream".spec_bytes()),
{
    broadcast use vstd::string::is_ascii_spec_bytes;

    reveal_strlit("Content-Encoding");
    assert(vstd::string::is_ascii("Content-Encoding"));
    assert forall|i: int| 0 <= i < "Content-Encoding".spec_bytes().len() implies "Content-Encoding".spec_bytes()[i] != 58 && "Content-Encoding".spec_bytes()[i] != 13 && "Content-Encoding".spec_bytes()[i] != 10 by {
        assert("Content-Encoding".spec_bytes()[i] == "Content-Encoding"@[i] as u8);
    }
    assert("Content-Encoding".spec_bytes().len() == 16);

    reveal_strlit("Content-Length");
    assert(vstd::string::is_ascii("Content-Length"));
    assert forall|i: int| 0 <= i < "Content-Length".spec_bytes().len() implies "Content-Length".spec_bytes()[i] != 58 && "Content-Length".spec_bytes()[i] != 13 && "Content-Length".spec_bytes()[i] != 10 by {
        assert("Content-Length".spec_bytes()[i] == "Content-Length"@[i] as u8);
    }
    assert("Content-Length".spec_bytes().len() == 14);

    reveal_strlit("Content-Type");
    assert(vstd::string::is_ascii("Content-Type"));
    assert forall|i: int| 0 <= i < "Content-Type".spec_bytes().len() implies "Content-Type".spec_bytes()[i] != 58 && "Content-Type".spec_bytes()[i] != 13 && "Content-Type".spec_bytes()[i] != 10 by {
        assert("Content-Type".spec_bytes()[i] == "Content-Type"@[i] as u8);
    }
    assert("Content-Type".spec_bytes().len() == 12);

    reveal_strlit("gzip");
    assert(vstd::string::is_ascii("gzip"));
    assert forall|i: int| 0 <= i < "gzip".spec_bytes().len() implies "gzip".spec_bytes()[i] != 13 && "gzip".spec_bytes()[i] != 10 by {
        assert("gzip".spec_bytes()[i] == "gzip"@[i] as u8);
    }
    assert("gzip".spec_bytes()[0] == 'g' as u8);

    reveal_strlit("text/plain");
    assert(vstd::string::is_ascii("text/plain"));
    assert forall|i: int| 0 <= i < "text/plain".spec_bytes().len() implies "text/plain".spec_bytes()[i] != 13 && "text/plain".spec_bytes()[i] != 10 by {
        assert("text/plain".spec_bytes()[i] == "text/plain"@[i] as u8);
    }
    assert("text/plain".spec_bytes()[0] == 't' as u8);

    reveal_strlit("application/octet-stream");
    assert(vstd::string::is_ascii("application/octet-stream"));
    assert forall|i: int| 0 <= i < "application/octet-stream".spec_bytes().len() implies "application/octet-stream".spec_bytes()[i] != 13 && "application/octet-stream".spec_bytes()[i] != 10 by {
        assert("application/octet-stream".spec_bytes()[i] == "application/octet-stream"@[i] as u8);
    }
    assert("application/octet-stream".spec_bytes()[0] == 'a' as u8);
}

proof fn lemma_digits_wf_value(v: Seq<u8>)
    requires
        all_digits(v),
    ensures
        wf_value(v),
{
    assert forall|i: int| 0 <= i < v.len() implies v[i] != 13 && v[i] != 10 by {
        assert(is_digit(v[i]));
    }
    if v.len() > 0 {
        assert(is_digit(v[0]));
    }
}

/// An empty-bodied, headerless response with the given status.
fn empty_response(version: &Vec<u8>, status: HttpStatus) -> (r: HttpResponse)
    ensures
        resp_shape(r, version@, status, Seq::empty(), Seq::empty()),
        wf_token(version@) ==> wf_response(r),
{
    let r = HttpResponse {
        version: clone_bytes(version),
        status,
        headers: Vec::new(),
        body: Vec::new(),
    };
    proof {
        assert(fields_view(r.headers@) =~~= Seq::<(Seq<u8>, Seq<u8>)>::empty());
    }
    r
}

/// A 200 text/plain response carrying `body`, with its byte length as
/// Content-Length.
fn plain_text_response(version: &Vec<u8>, body: Vec<u8>) -> (r: HttpResponse)
    ensures
        resp_shape(r, version@, HttpStatus::OK, text_headers(body@), body@),
        wf_token(version@) ==> wf_response(r),
{
    let mut headers: Vec<HeaderField> = Vec::new();
    headers.push(
        HeaderField { key: "Content-Length".as_bytes_vec(), value: u64_to_dec(body.len() as u64) },
    );
    headers.push(
        HeaderField { key: "Content-Type".as_bytes_vec(), value: "text/plain".as_bytes_vec() },
    );
    let r = HttpResponse { version: clone_bytes(version), status: HttpStatus::OK, headers, body };
    proof {
        assert(fields_view(r.headers@) =~~= text_headers(r.body@));
        lemma_header_literals();
        lemma_dec_str_digits(r.body@.len());
        lemma_digits_wf_value(dec_str(r.body@.len()));
    }
    r
}

/// A 200 text/plain response whose body is already gzip-encoded; the
/// Content-Length counts the encoded bytes.
fn gzip_text_response(version: &Vec<u8>, body: Vec<u8>) -> (r: HttpResponse)
    ensures
        resp_shape(r, version@, HttpStatus::OK, gzip_headers(body@), body@),
        wf_token(version@) ==> wf_response(r),
{
    let mut headers: Vec<HeaderField> = Vec::new();
    headers.push(
        HeaderField { key: "Content-Encoding".as_bytes_vec(), value: "gzip".as_bytes_vec() },
    );
    headers.push(
        HeaderField { key: "Content-Length".as_bytes_vec(), value: u64_to_dec(body.len() as u64) },
    );
    headers.push(
        HeaderField { key: "Content-Type".as_bytes_vec(), value: "text/plain".as_bytes_vec() },
    );
    let r = HttpResponse { version: clone_bytes(version), status: HttpStatus::OK, headers, body };
    proof {
        assert(fields_view(r.headers@) =~~= gzip_headers(r.body@));
        lemma_header_literals();
        lemma_dec_str_digits(r.body@.len());
        lemma_digits_wf_value(dec_str(r.body@.len()));
    }
    r
}

/// The outcome of the file read the router asked for: a 200 with the
/// bytes and their length, or an empty 404 when the file was not found.
pub fn file_read_response(version: &Vec<u8>, content: Option<Vec<u8>>) -> (r: HttpResponse)
    ensures
        match content {
            Some(bytes) => resp_shape(r, version@, HttpStatus::OK, file_headers(bytes@), bytes@),
            None => resp_shape(r, version@, HttpStatus::NotFound, Seq::empty(), Seq::empty()),
        },
        wf_token(version@) ==> wf_response(r),
{
    match content {
        Some(bytes) => {
            let mut headers: Vec<HeaderField> = Vec::new();
            headers.push(
                HeaderField {
                    key: "Content-Type".as_bytes_vec(),
                    value: "application/octet-stream".as_bytes_vec(),
                },
            );
            headers.push(
                HeaderField {
                    key: "Content-Length".as_bytes_vec(),
                    value: u64_to_dec(bytes.len() as u64),
                },
            );
            let r = HttpResponse {
                version: clone_bytes(version),
                status: HttpStatus::OK,
                headers,
                body: bytes,
            };
            proof {
                assert(fields_view(r.headers@) =~~= file_headers(r.body@));
                lemma_header_literals();
                lemma_dec_str_digits(r.body@.len());
                lemma_digits_wf_value(dec_str(r.body@.len()));
            }
            r
        },
        None => empty_response(version, HttpStatus::NotFound),
    }
}

/// The outcome of the file write the router asked for, when it succeeded:
/// an empty 201 Created. A failed write is the connection's error and
/// produces no response.
pub fn file_created_response(version: &Vec<u8>) -> (r: HttpResponse)
    ensures
        resp_shape(r, version@, HttpStatus::Created, Seq::empty(), Seq::empty()),
        wf_token(version@) ==> wf_response(r),
{
    empty_response(version, HttpStatus::Created)
}

/// Decide what a request gets: a finished response for the static, echo
/// and user-agent routes (compressing the echo body when the client
/// accepts gzip), or the file operation the caller must perform.
pub fn route_request(req: &HttpRequest) -> (action: RouteAction)
    ensures
        route_spec(*req, action),
        wf_token(req.version@) ==> (action matches RouteAction::Respond(r) ==> wf_response(r)),
{
    if eq_ignore_ascii_case(req.method.as_slice(), "GET".as_bytes()) {
        if eq_ignore_ascii_case(req.path.as_slice(), "/".as_bytes()) {
            RouteAction::Respond(empty_response(&req.version, HttpStatus::OK))
        } else {
            let echo_prefix = "/echo/".as_bytes();
            let files_prefix = "/files/".as_bytes();
            if starts_with(req.path.as_slice(), echo_prefix) {
                let value = subrange_vec(req.path.as_slice(), echo_prefix.len(), req.path.len());
                proof {
                    assert(req.path@.subrange(
                        "/echo/".spec_bytes().len() as int,
                        req.path@.len() as int,
                    ) =~= echo_value(req.path@));
                }
                let accept = crate::http::get_header(&req.headers, "Accept-Encoding".as_bytes());
                let wants = match accept {
                    Some(v) => contains_sub(v.as_slice(), "gzip".as_bytes()),
                    None => false,
                };
                if wants {
                    let compressed = gzip_compress(value.as_slice());
                    RouteAction::Respond(gzip_text_response(&req.version, compressed))
                } else {
                    RouteAction::Respond(plain_text_response(&req.version, value))
                }
            } else if bytes_eq(req.path.as_slice(), "/user-agent".as_bytes()) {
                let body = match crate::http::get_header(&req.headers, "User-Agent".as_bytes()) {
                    Some(v) => clone_bytes(v),
                    None => Vec::new(),
                };
                RouteAction::Respond(plain_text_response(&req.version, body))
            } else if starts_with(req.path.as_slice(), files_prefix) {
                let name = subrange_vec(req.path.as_slice(), files_prefix.len(), req.path.len());
                proof {
                    assert(req.path@.subrange(
                        "/files/".spec_bytes().len() as int,
                        req.path@.len() as int,
                    ) =~= file_name_of(req.path@));
                }
                RouteAction::ReadFile(name)
            } else {
                RouteAction::Respond(empty_response(&req.version, HttpStatus::NotFound))
            }
        }
    } else if eq_ignore_ascii_case(req.method.as_slice(), "POST".as_bytes()) {
        let files_prefix = "/files/".as_bytes();
        if starts_with(req.path.as_slice(), files_prefix) {
            let name = subrange_vec(req.path.as_slice(), files_prefix.len(), req.path.len());
            proof {
                assert(req.path@.subrange(
                    "/files/".spec_bytes().len() as int,
                    req.path@.len() as int,
                ) =~= file_name_of(req.path@));
            }
            RouteAction::WriteFile(name, clone_bytes(&req.body))
        } else {
            RouteAction::Respond(empty_response(&req.version, HttpStatus::NotFound))
        }
    } else {
        RouteAction::Respond(empty_response(&req.version, HttpStatus::NotFound))
    }
}

proof fn lemma_path_literals()
    ensures
        "/".spec_bytes().len() == 1,
        "/echo/".spec_bytes().len() == 6,
        "/user-agent".spec_bytes().len() == 11,
        "/user-agent".spec_bytes()[1] == 'u' as u8,
        "/echo/".spec_bytes()[1] == 'e' as u8,
{
    broadcast use vstd::string::is_ascii_spec_bytes;

    reveal_strlit("/");
    assert(vstd::string::is_ascii("/"));
    assert("/".spec_bytes().len() == 1);
    reveal_strlit("/echo/");
    assert(vstd::string::is_ascii("/echo/"));
    assert("/echo/".spec_bytes().len() == 6);
    assert("/echo/".spec_bytes()[1] == 'e' as u8);
    reveal_strlit("/user-agent");
    assert(vstd::string::is_ascii("/user-agent"));
    assert("/user-agent".spec_bytes().len() == 11);
    assert("/user-agent".spec_bytes()[1] == 'u' as u8);
}

/// Gzip round-trip law: on the echo route with gzip accepted, the
/// decoded response body is exactly the echoed value, and the
/// Content-Length header counts the compressed bytes, not the original.
pub proof fn lemma_gzip_echo_round_trip(req: HttpRequest, action: RouteAction)
    requires
        route_spec(req, action),
        is_get(req.method@),
        "/echo/".spec_bytes().is_prefix_of(req.path@),
        wants_gzip(fields_view(req.headers@)),
    ensures
        action matches RouteAction::Respond(r) && gunzip_of(r.body@) == echo_value(req.path@)
            && r.body@ == gzip_of(echo_value(req.path@)) && fields_view(r.headers@) == gzip_headers(
            r.body@,
        ) && gzip_headers(r.body@)[1].1 == crate::dec::dec_str(r.body@.len()),
{
    lemma_path_literals();
    let p = req.path@;
    assert(crate::bytes::lower(p).len() == p.len());
    assert(crate::bytes::lower("/".spec_bytes()).len() == 1);
    assert(p.len() >= 6);
    assert(!eq_ignore_case(p, "/".spec_bytes()));
}

/// Idempotence law for the user-agent route: the response is a pure
/// function of the request, so every dispatch of the same request
/// carries the same status, headers and body, the body being the
/// request's User-Agent value.
pub proof fn lemma_user_agent_deterministic(req: HttpRequest, a1: RouteAction, a2: RouteAction)
    requires
        route_spec(req, a1),
        route_spec(req, a2),
        is_get(req.method@),
        req.path@ == "/user-agent".spec_bytes(),
    ensures
        a1 matches RouteAction::Respond(r1) && a2 matches RouteAction::Respond(r2) && r1.status
            == r2.status && fields_view(r1.headers@) == fields_view(r2.headers@) && r1.body@
            == r2.body@ && r1.body@ == user_agent_of(fields_view(req.headers@)),
{
    lemma_path_literals();
    let p = req.path@;
    assert(crate::bytes::lower(p).len() == 11);
    assert(crate::bytes::lower("/".spec_bytes()).len() == 1);
    assert(!eq_ignore_case(p, "/".spec_bytes()));
    if "/echo/".spec_bytes().is_prefix_of(p) {
        assert("/echo/".spec_bytes() =~= p.subrange(0, 6));
        assert(p[1] == 'e' as u8);
        assert(p[1] == 'u' as u8);
    }
}

} // verus!
