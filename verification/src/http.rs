//! The HTTP message model: header fields, requests, responses, status
//! codes, and case-insensitive header lookup.
use vstd::prelude::*;

verus! {

use vstd::string::StrSliceExecFns;
use vstd::string::StringSliceAdditionalSpecFns;
use crate::bytes::eq_ignore_case;
use crate::bytes::eq_ignore_ascii_case;
use crate::dec::spec_parse_usize;
use crate::dec::parse_usize;

/// One header line: a key compared case-insensitively, and a value.
#[derive(Debug)]
pub struct HeaderField {
    pub key: Vec<u8>,
    pub value: Vec<u8>,
}

impl View for HeaderField {
    type V = (Seq<u8>, Seq<u8>);

    open spec fn view(&self) -> (Seq<u8>, Seq<u8>) {
        (self.key@, self.value@)
    }
}

/// The header list as a sequence of (key, value) byte pairs.
pub open spec fn fields_view(hs: Seq<HeaderField>) -> Seq<(Seq<u8>, Seq<u8>)> {
    hs.map_values(|h: HeaderField| (h.key@, h.value@))
}

/// A parsed request. The body starts empty and is filled in once the
/// Content-Length is known.
#[derive(Debug)]
pub struct HttpRequest {
    pub method: Vec<u8>,
    pub path: Vec<u8>,
    pub version: Vec<u8>,
    pub headers: Vec<HeaderField>,
    pub body: Vec<u8>,
}

#[derive(Clone, Copy, PartialEq, Eq, Structural, Debug)]
pub enum HttpStatus {
    OK,
    Created,
    NotFound,
}

/// A response to be serialized; the reason phrase is derived from the status.
#[derive(Debug)]
pub struct HttpResponse {
    pub version: Vec<u8>,
    pub status: HttpStatus,
    pub headers: Vec<HeaderField>,
    pub body: Vec<u8>,
}

/// Why a connection's request could not be turned into a request value.
#[derive(Clone, Copy, PartialEq, Eq, Structural, Debug)]
pub enum RequestError {
    /// The stream ended before any request bytes arrived: a clean close.
    PeerClosed,
    /// The stream ended in the middle of the head.
    IncompleteHead,
    /// The request line does not hold three whitespace-separated tokens.
    MalformedRequestLine,
    /// A header line before the blank line has no colon, or an empty key.
    MalformedHeader,
    /// Fewer body bytes than Content-Length announced.
    IncompleteBody,
}

pub open spec fn spec_status_code(s: HttpStatus) -> u16 {
    match s {
        HttpStatus::OK => 200,
        HttpStatus::Created => 201,
        HttpStatus::NotFound => 404,
    }
}

pub fn status_code(s: HttpStatus) -> (r: u16)
    ensures
        r == spec_status_code(s),
{
    match s {
        HttpStatus::OK => 200,
        HttpStatus::Created => 201,
        HttpStatus::NotFound => 404,
    }
}

pub open spec fn spec_status_message(s: HttpStatus) -> Seq<char> {
    match s {
        HttpStatus::OK => "OK"@,
        HttpStatus::Created => "Created"@,
        HttpStatus::NotFound => "Not Found"@,
    }
}

/// The reason phrase for a status, as the serializer writes it.
pub open spec fn reason_of(s: HttpStatus) -> Seq<u8> {
    match s {
        HttpStatus::OK => "OK".spec_bytes(),
        HttpStatus::Created => "Created".spec_bytes(),
        HttpStatus::NotFound => "Not Found".spec_bytes(),
    }
}

pub fn get_status_message(s: HttpStatus) -> (r: &'static str)
    ensures
        r@ == spec_status_message(s),
        r.spec_bytes() == reason_of(s),
{
    match s {
        HttpStatus::OK => "OK",
        HttpStatus::Created => "Created",
        HttpStatus::NotFound => "Not Found",
    }
}

pub fn status_reason(s: HttpStatus) -> (r: Vec<u8>)
    ensures
        r@ == reason_of(s),
{
    get_status_message(s).as_bytes_vec()
}

/// A header key that survives serialization: nonempty, and free of the
/// colon and line-break bytes the wire format reserves.
pub open spec fn wf_key(k: Seq<u8>) -> bool {
    k.len() > 0 && forall|i: int| 0 <= i < k.len() ==> k[i] != 58 && k[i] != 13 && k[i] != 10
}

/// A header value that survives serialization: free of line breaks, and
/// not starting with whitespace (which parsing would trim away).
pub open spec fn wf_value(v: Seq<u8>) -> bool {
    &&& forall|i: int| 0 <= i < v.len() ==> v[i] != 13 && v[i] != 10
    &&& (v.len() > 0 ==> !crate::bytes::is_ws(v[0]))
}

pub open spec fn wf_field(f: (Seq<u8>, Seq<u8>)) -> bool {
    wf_key(f.0) && wf_value(f.1)
}

/// A response whose serialized bytes parse back to the same parts.
pub open spec fn wf_response(r: HttpResponse) -> bool {
    &&& crate::bytes::wf_token(r.version@)
    &&& forall|i: int|
        0 <= i < fields_view(r.headers@).len() ==> wf_field(#[trigger] fields_view(r.headers@)[i])
}

/// The value of the first field whose key equals `key` up to ASCII case.
pub open spec fn find_field(hs: Seq<(Seq<u8>, Seq<u8>)>, key: Seq<u8>) -> Option<Seq<u8>>
    decreases hs.len(),
{
    if hs.len() == 0 {
        None
    } else if eq_ignore_case(hs[0].0, key) {
        Some(hs[0].1)
    } else {
        find_field(hs.drop_first(), key)
    }
}

pub fn get_header<'a>(hs: &'a Vec<HeaderField>, key: &[u8]) -> (r: Option<&'a Vec<u8>>)
    ensures
        match r {
            Some(v) => find_field(fields_view(hs@), key@) == Some(v@),
            None => find_field(fields_view(hs@), key@) is None,
        },
{
    let ghost fv = fields_view(hs@);
    let mut i: usize = 0;
    proof {
        assert(fv.skip(0) =~= fv);
    }
    while i < hs.len()
        invariant
            i <= hs@.len(),
            fv == fields_view(hs@),
            fv.len() == hs@.len(),
            find_field(fv, key@) == find_field(fv.skip(i as int), key@),
        decreases hs@.len() - i,
    {
        proof {
            assert(fv.skip(i as int)[0] == fv[i as int]);
        }
        if eq_ignore_ascii_case(hs[i].key.as_slice(), key) {
            return Some(&hs[i].value);
        }
        proof {
            assert(fv.skip(i as int).drop_first() =~= fv.skip(i as int + 1));
        }
        i += 1;
    }
    None
}

/// The body length a request announces: the first Content-Length field
/// that reads as a `usize`, and zero when the field is missing or does
/// not read as one.
pub open spec fn spec_content_length(hs: Seq<(Seq<u8>, Seq<u8>)>) -> nat {
    match find_field(hs, "Content-Length".spec_bytes()) {
        Some(v) => match spec_parse_usize(v) {
            Some(n) => n,
            None => 0,
        },
        None => 0,
    }
}

pub fn content_length(hs: &Vec<HeaderField>) -> (n: usize)
    ensures
        n as nat == spec_content_length(fields_view(hs@)),
{
    let key = "Content-Length".as_bytes();
    match get_header(hs, key) {
        Some(v) => match parse_usize(v.as_slice()) {
            Some(n) => n,
            None => 0,
        },
        None => 0,
    }
}

} // verus!
