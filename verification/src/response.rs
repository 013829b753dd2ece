//! Parsing a response back from its wire bytes, and the round-trip law:
//! serializing a well-formed response and parsing the bytes again yields
//! the same status, headers and body.
use vstd::prelude::*;

verus! {

use vstd::string::StrSliceExecFns;
use vstd::string::StringSliceAdditionalSpecFns;
use crate::bytes::find_from;
use crate::bytes::find_byte;
use crate::bytes::find_byte_from;
use crate::bytes::subrange_vec;
use crate::dec::all_digits;
use crate::dec::is_digit;
use crate::dec::dec_val;
use crate::dec::lemma_dec_val_step;
use crate::dec::lemma_dec_val_mono;
use crate::http::HeaderField;
use crate::http::fields_view;
use crate::parse::split_head;
use crate::parse::split_head_lines;
use crate::parse::lines_view;
use crate::parse::head_end;
use crate::parse::header_line_ok;
use crate::parse::spec_headers;
use crate::parse::parse_header_lines;
use crate::http::reason_of;

/// A response as read back from the wire. The status code and reason
/// phrase are kept as parsed, so a caller can check them against what
/// was serialized.
#[derive(Debug)]
pub struct ParsedResponse {
    pub version: Vec<u8>,
    pub code: u16,
    pub reason: Vec<u8>,
    pub headers: Vec<HeaderField>,
    pub body: Vec<u8>,
}

/// The parts a response's wire bytes denote.
pub ghost struct RespParts {
    pub version: Seq<u8>,
    pub code: nat,
    pub reason: Seq<u8>,
    pub headers: Seq<(Seq<u8>, Seq<u8>)>,
    pub body: Seq<u8>,
}

/// Index of the first space in the status line, or its length.
pub open spec fn first_space(l: Seq<u8>) -> int {
    match find_from(l, 32, 0) {
        Some(k) => k,
        None => l.len() as int,
    }
}

/// Index of the second space, or the line length.
pub open spec fn second_space(l: Seq<u8>) -> int {
    if first_space(l) < l.len() {
        match find_from(l, 32, first_space(l) + 1) {
            Some(k) => k,
            None => l.len() as int,
        }
    } else {
        l.len() as int
    }
}

/// The status line parses: two spaces, and a nonempty all-digit code
/// between them that fits a `u16`.
pub open spec fn status_line_ok(l: Seq<u8>) -> bool {
    let k1 = first_space(l);
    let k2 = second_space(l);
    &&& k1 < l.len()
    &&& k2 < l.len()
    &&& k1 + 1 < k2
    &&& all_digits(l.subrange(k1 + 1, k2))
    &&& dec_val(l.subrange(k1 + 1, k2)) <= u16::MAX as nat
}

pub open spec fn resp_version_of(l: Seq<u8>) -> Seq<u8> {
    l.subrange(0, first_space(l))
}

pub open spec fn resp_code_of(l: Seq<u8>) -> nat {
    dec_val(l.subrange(first_space(l) + 1, second_space(l)))
}

pub open spec fn resp_reason_of(l: Seq<u8>) -> Seq<u8> {
    l.skip(second_space(l) + 1)
}

/// What response bytes denote: head lines up to the blank line with a
/// status line and header lines, and everything after the blank line as
/// the body.
pub open spec fn parse_response_spec(s: Seq<u8>) -> Option<RespParts> {
    match split_head(s) {
        None => None,
        Some((lines, body)) => {
            if lines.len() > 0 && status_line_ok(lines[0]) && (forall|j: int|
                1 <= j < head_end(lines) ==> header_line_ok(lines[j])) {
                Some(
                    RespParts {
                        version: resp_version_of(lines[0]),
                        code: resp_code_of(lines[0]),
                        reason: resp_reason_of(lines[0]),
                        headers: spec_headers(lines),
                        body,
                    },
                )
            } else {
                None
            }
        },
    }
}

proof fn lemma_split_head_some_nonempty(s: Seq<u8>)
    requires
        split_head(s) is Some,
    ensures
        (split_head(s) matches Some(hl) ==> hl.0.len() >= 1),
{
}

fn parse_code(s: &[u8]) -> (r: Option<u16>)
    ensures
        match r {
            Some(c) => s@.len() > 0 && all_digits(s@) && dec_val(s@) == c as nat,
            None => !(s@.len() > 0 && all_digits(s@) && dec_val(s@) <= u16::MAX as nat),
        },
{
    let slen = s.len();
    if slen == 0 {
        return None;
    }
    let mut acc: u32 = 0;
    let mut i: usize = 0;
    while i < slen
        invariant
            0 <= i <= slen,
            slen == s@.len(),
            acc <= u16::MAX,
            all_digits(s@.take(i as int)),
            acc as nat == dec_val(s@.take(i as int)),
        decreases slen - i,
    {
        let b = s[i];
        if b < 48 || b > 57 {
            proof {
                assert(!is_digit(s@[i as int]));
            }
            return None;
        }
        let d = (b - 48) as u32;
        let next = acc * 10 + d;
        proof {
            lemma_dec_val_step(s@, i as int);
        }
        if next > 65535 {
            proof {
                if all_digits(s@) {
                    lemma_dec_val_mono(s@, i as int + 1);
                }
            }
            return None;
        }
        acc = next;
        i += 1;
    }
    proof {
        assert(s@.take(slen as int) =~= s@);
    }
    Some(acc as u16)
}

/// Read a response back from wire bytes: status line, header lines up to
/// the blank line, then the rest as the body.
pub fn parse_response(data: &[u8]) -> (r: Option<ParsedResponse>)
    ensures
        match r {
            Some(p) => parse_response_spec(data@) matches Some(m) && m.version == p.version@
                && m.code == p.code as nat && m.reason == p.reason@ && m.headers == fields_view(
                p.headers@,
            ) && m.body == p.body@,
            None => parse_response_spec(data@) is None,
        },
{
    let (lines, body) = match split_head_lines(data) {
        None => {
            return None;
        },
        Some(lr) => lr,
    };
    proof {
        lemma_split_head_some_nonempty(data@);
    }
    let line0 = &lines[0];
    let n0 = line0.len();
    proof {
        assert(lines_view(lines@)[0] == lines@[0]@);
    }
    let k1 = match find_byte(line0.as_slice(), 32) {
        None => {
            return None;
        },
        Some(k) => k,
    };
    proof {
        crate::bytes::lemma_find_from(line0@, 32, 0);
    }
    let k2 = match find_byte_from(line0.as_slice(), 32, k1 + 1) {
        None => {
            return None;
        },
        Some(k) => k,
    };
    let code_slice = vstd::slice::slice_subrange(line0.as_slice(), k1 + 1, k2);
    let code = match parse_code(code_slice) {
        None => {
            return None;
        },
        Some(c) => c,
    };
    let version = subrange_vec(line0.as_slice(), 0, k1);
    let reason = subrange_vec(line0.as_slice(), k2 + 1, n0);
    let headers = match parse_header_lines(&lines) {
        None => {
            return None;
        },
        Some(hs) => hs,
    };
    proof {
        assert(version@ == resp_version_of(line0@));
        assert(reason@ =~= resp_reason_of(line0@));
        assert(code as nat == resp_code_of(line0@));
    }
    Some(ParsedResponse { version, code, reason, headers, body })
}

proof fn lemma_colon_space_bytes()
    ensures
        ": ".spec_bytes() =~= seq![58u8, 32u8],
        " ".spec_bytes() =~= seq![32u8],
{
    broadcast use vstd::string::is_ascii_spec_bytes;

    reveal_strlit(": ");
    assert(vstd::string::is_ascii(": "));
    assert(": ".spec_bytes().len() == 2);
    assert(": ".spec_bytes()[0] == ':' as u8);
    assert(": ".spec_bytes()[1] == ' ' as u8);
    reveal_strlit(" ");
    assert(vstd::string::is_ascii(" "));
    assert(" ".spec_bytes().len() == 1);
    assert(" ".spec_bytes()[0] == ' ' as u8);
}

/// One head line followed by the rest: splitting finds the line first.
proof fn lemma_split_head_cons(line: Seq<u8>, rest: Seq<u8>, ls: Seq<Seq<u8>>, body: Seq<u8>)
    requires
        line.len() > 0,
        forall|i: int| 0 <= i < line.len() ==> line[i] != 13,
        split_head(rest) == Some((ls, body)),
    ensures
        split_head(line + crate::serialize::crlf() + rest) == Some((seq![line] + ls, body)),
{
    let s = line + crate::serialize::crlf() + rest;
    let k = line.len() as int;
    assert(s[k] == 13);
    assert(s[k + 1] == 10);
    assert forall|x: int| 0 <= x < k implies s[x] != 13 by {
        assert(s[x] == line[x]);
    }
    crate::bytes::lemma_find_crlf_at(s, 0, k);
    assert(s.skip(k + 2) =~= rest);
    assert(s.take(k) =~= line);
    assert(seq![s.take(k)] + ls =~~= seq![line] + ls);
}

/// The blank line alone ends the head; the rest is the body.
proof fn lemma_split_head_blank(body: Seq<u8>)
    ensures
        split_head(crate::serialize::crlf() + body) == Some((seq![Seq::<u8>::empty()], body)),
{
    let s = crate::serialize::crlf() + body;
    assert(s[0] == 13);
    assert(s[1] == 10);
    crate::bytes::lemma_find_crlf_at(s, 0, 0);
    assert(s.take(0) =~= Seq::<u8>::empty());
    assert(s.skip(2) =~= body);
    assert(seq![s.take(0)] =~~= seq![Seq::<u8>::empty()]);
}

/// One header field as a head line, colon and space but no CRLF.
pub open spec fn field_line(f: (Seq<u8>, Seq<u8>)) -> Seq<u8> {
    f.0 + ": ".spec_bytes() + f.1
}

pub open spec fn field_lines(hs: Seq<(Seq<u8>, Seq<u8>)>) -> Seq<Seq<u8>> {
    hs.map_values(|f: (Seq<u8>, Seq<u8>)| field_line(f))
}

/// Serialized header fields followed by the blank line split back into
/// one head line per field.
proof fn lemma_split_head_fields(hs: Seq<(Seq<u8>, Seq<u8>)>, body: Seq<u8>)
    requires
        forall|i: int| 0 <= i < hs.len() ==> crate::http::wf_field(#[trigger] hs[i]),
    ensures
        split_head(crate::serialize::fields_bytes(hs) + crate::serialize::crlf() + body) == Some(
            (field_lines(hs).push(Seq::<u8>::empty()), body),
        ),
    decreases hs.len(),
{
    lemma_colon_space_bytes();
    if hs.len() == 0 {
        lemma_split_head_blank(body);
        assert(crate::serialize::fields_bytes(hs) + crate::serialize::crlf() + body
            =~= crate::serialize::crlf() + body);
        assert(field_lines(hs).push(Seq::<u8>::empty()) =~~= seq![Seq::<u8>::empty()]);
    } else {
        let f = hs[0];
        let tail = hs.drop_first();
        assert(forall|i: int| 0 <= i < tail.len() ==> tail[i] == hs[i + 1]);
        lemma_split_head_fields(tail, body);
        let line = field_line(f);
        let rest = crate::serialize::fields_bytes(tail) + crate::serialize::crlf() + body;
        assert(line.len() > 0);
        assert forall|i: int| 0 <= i < line.len() implies line[i] != 13 by {
            assert(crate::http::wf_field(hs[0]));
            if i < f.0.len() {
                assert(line[i] == f.0[i]);
            } else if i < f.0.len() + 2 {
                assert(line[i] == ": ".spec_bytes()[i - f.0.len()]);
            } else {
                assert(line[i] == f.1[i - f.0.len() - 2]);
            }
        }
        lemma_split_head_cons(line, rest, field_lines(tail).push(Seq::<u8>::empty()), body);
        assert(crate::serialize::fields_bytes(hs) + crate::serialize::crlf() + body =~= line
            + crate::serialize::crlf() + rest);
        assert(seq![line] + field_lines(tail).push(Seq::<u8>::empty()) =~~= field_lines(hs).push(
            Seq::<u8>::empty(),
        ));
    }
}

proof fn lemma_reason_wf(st: crate::http::HttpStatus)
    ensures
        reason_of(st).len() > 0,
        forall|i: int| 0 <= i < reason_of(st).len() ==> reason_of(st)[i] != 13 && reason_of(st)[i]
            != 10,
{
    broadcast use vstd::string::is_ascii_spec_bytes;

    match st {
        crate::http::HttpStatus::OK => {
            reveal_strlit("OK");
            assert(vstd::string::is_ascii("OK"));
            assert forall|i: int| 0 <= i < "OK".spec_bytes().len() implies "OK".spec_bytes()[i]
                != 13 && "OK".spec_bytes()[i] != 10 by {
                assert("OK".spec_bytes()[i] == "OK"@[i] as u8);
            }
            assert("OK".spec_bytes().len() == 2);
        },
        crate::http::HttpStatus::Created => {
            reveal_strlit("Created");
            assert(vstd::string::is_ascii("Created"));
            assert forall|i: int| 0 <= i < "Created".spec_bytes().len() implies
                "Created".spec_bytes()[i] != 13 && "Created".spec_bytes()[i] != 10 by {
                assert("Created".spec_bytes()[i] == "Created"@[i] as u8);
            }
            assert("Created".spec_bytes().len() == 7);
        },
        crate::http::HttpStatus::NotFound => {
            reveal_strlit("Not Found");
            assert(vstd::string::is_ascii("Not Found"));
            assert forall|i: int| 0 <= i < "Not Found".spec_bytes().len() implies
                "Not Found".spec_bytes()[i] != 13 && "Not Found".spec_bytes()[i] != 10 by {
                assert("Not Found".spec_bytes()[i] == "Not Found"@[i] as u8);
            }
            assert("Not Found".spec_bytes().len() == 9);
        },
    }
}

proof fn lemma_trim_space(v: Seq<u8>)
    requires
        v.len() == 0 || !crate::bytes::is_ws(v[0]),
    ensures
        crate::bytes::trim_start_ws(seq![32u8] + v) == v,
{
    assert(crate::bytes::is_ws((seq![32u8] + v)[0]));
    assert((seq![32u8] + v).drop_first() =~= v);
    assert(crate::bytes::trim_start_ws(v) == v);
}

/// A well-formed field's head line parses back to the field itself.
proof fn lemma_header_line_round_trip(f: (Seq<u8>, Seq<u8>))
    requires
        crate::http::wf_field(f),
    ensures
        field_line(f).len() > 0,
        header_line_ok(field_line(f)),
        crate::parse::header_of_line(field_line(f)) == f,
{
    lemma_colon_space_bytes();
    let line = field_line(f);
    let k = f.0.len() as int;
    assert(line.len() == f.0.len() + 2 + f.1.len());
    assert(line[k] == 58);
    assert forall|x: int| 0 <= x < k implies line[x] != 58 by {
        assert(line[x] == f.0[x]);
    }
    crate::bytes::lemma_find_from_at(line, 58, 0, k);
    assert(crate::parse::first_colon(line) == k);
    assert(line.subrange(0, k) =~= f.0);
    assert(line.skip(k + 1) =~= seq![32u8] + f.1);
    lemma_trim_space(f.1);
}

/// The round-trip law for the framing format: serializing a well-formed
/// response and parsing the bytes back yields the same version, status
/// code, reason phrase, headers and body.
pub proof fn lemma_serialize_parse_round_trip(r: crate::http::HttpResponse)
    requires
        crate::http::wf_response(r),
    ensures
        parse_response_spec(crate::serialize::serialize_response(r)) matches Some(m) && m.version
            == r.version@ && m.code == crate::http::spec_status_code(r.status) as nat && m.reason
            == reason_of(r.status) && m.headers == fields_view(r.headers@) && m.body == r.body@,
{
    let fv = fields_view(r.headers@);
    let code = crate::http::spec_status_code(r.status) as nat;
    let cs = crate::dec::dec_str(code);
    let sl = r.version@ + " ".spec_bytes() + cs + " ".spec_bytes() + reason_of(r.status);
    let s = crate::serialize::serialize_response(r);
    lemma_colon_space_bytes();
    lemma_reason_wf(r.status);
    crate::dec::lemma_dec_str_digits(code);
    crate::dec::lemma_dec_val_of_dec_str(code);
    let a = r.version@.len() as int;
    let cl = cs.len() as int;

    // the serialized bytes split into the status line, one line per
    // header field, the blank line, and the body
    lemma_split_head_fields(fv, r.body@);
    assert forall|i: int| 0 <= i < sl.len() implies sl[i] != 13 by {
        if i < a {
            assert(sl[i] == r.version@[i]);
            assert(!crate::bytes::is_ws(r.version@[i]));
        } else if i < a + 1 {
            assert(sl[i] == 32);
        } else if i < a + 1 + cl {
            assert(sl[i] == cs[i - a - 1]);
            assert(is_digit(cs[i - a - 1]));
        } else if i < a + 2 + cl {
            assert(sl[i] == 32);
        } else {
            assert(sl[i] == reason_of(r.status)[i - (a + 2 + cl)]);
        }
    }
    assert(sl.len() > 0);
    let rest = crate::serialize::fields_bytes(fv) + crate::serialize::crlf() + r.body@;
    lemma_split_head_cons(sl, rest, field_lines(fv).push(Seq::<u8>::empty()), r.body@);
    assert(s =~= sl + crate::serialize::crlf() + rest);
    let lines = seq![sl] + field_lines(fv).push(Seq::<u8>::empty());
    assert(split_head(s) == Some((lines, r.body@)));

    // the head ends at the blank line after the field lines
    let n = fv.len() as int;
    assert(lines.len() == n + 2);
    assert forall|j: int| 1 <= j < n + 1 implies lines[j].len() != 0 && header_line_ok(
        lines[j],
    ) by {
        assert(crate::http::wf_field(fv[j - 1]));
        lemma_header_line_round_trip(fv[j - 1]);
        assert(lines[j] == field_lines(fv)[j - 1]);
        assert(field_lines(fv)[j - 1] == field_line(fv[j - 1]));
    }
    assert(lines[n + 1].len() == 0);
    crate::parse::lemma_first_empty_at(lines, 1, n + 1);
    assert(head_end(lines) == n + 1);

    // each field line parses back to its field
    assert(spec_headers(lines) =~= fv) by {
        assert forall|j: int| 0 <= j < n implies spec_headers(lines)[j] == fv[j] by {
            assert(crate::http::wf_field(fv[j]));
            lemma_header_line_round_trip(fv[j]);
            assert(lines[j + 1] == field_lines(fv)[j]);
            assert(field_lines(fv)[j] == field_line(fv[j]));
        }
    }

    // the status line parses back to version, code and reason
    assert(sl[a] == 32);
    assert forall|x: int| 0 <= x < a implies sl[x] != 32 by {
        assert(sl[x] == r.version@[x]);
        assert(!crate::bytes::is_ws(r.version@[x]));
    }
    crate::bytes::lemma_find_from_at(sl, 32, 0, a);
    assert(first_space(sl) == a);
    assert(sl[a + 1 + cl] == 32);
    assert forall|x: int| a + 1 <= x < a + 1 + cl implies sl[x] != 32 by {
        assert(sl[x] == cs[x - a - 1]);
        assert(is_digit(cs[x - a - 1]));
    }
    crate::bytes::lemma_find_from_at(sl, 32, a + 1, a + 1 + cl);
    assert(second_space(sl) == a + 1 + cl);
    assert(sl.subrange(a + 1, a + 1 + cl) =~= cs);
    assert(status_line_ok(sl));
    assert(resp_version_of(sl) =~= r.version@);
    assert(resp_reason_of(sl) =~= reason_of(r.status));
    assert(resp_code_of(sl) == code);
}

} // verus!
