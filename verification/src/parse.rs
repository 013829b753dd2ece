//! Turning raw head bytes into a structured request: CRLF line splitting,
//! request-line tokenization, and header-line parsing.
use vstd::prelude::*;

verus! {

use crate::bytes::is_ws;
use crate::bytes::wf_token;
use crate::bytes::find_from;
use crate::bytes::find_crlf_from;
use crate::bytes::find_byte;
use crate::bytes::find_crlf;
use crate::bytes::trim_start_ws;
use crate::bytes::trim_start_vec;
use crate::bytes::subrange_vec;
use crate::http::HeaderField;
use crate::http::HttpRequest;
use crate::http::RequestError;
use crate::http::fields_view;
use crate::http::spec_content_length;
use crate::http::content_length;

/// The views of a sequence of owned byte lines.
pub open spec fn lines_view(lines: Seq<Vec<u8>>) -> Seq<Seq<u8>> {
    lines.map_values(|l: Vec<u8>| l@)
}

/// First index at or after `i` holding a byte that is not ASCII whitespace.
pub open spec fn skip_ws_from(s: Seq<u8>, i: int) -> int
    decreases s.len() - i when 0 <= i <= s.len()
{
    if i >= s.len() {
        i
    } else if is_ws(s[i]) {
        skip_ws_from(s, i + 1)
    } else {
        i
    }
}

/// First index at or after `i` holding ASCII whitespace.
pub open spec fn skip_token_from(s: Seq<u8>, i: int) -> int
    decreases s.len() - i when 0 <= i <= s.len()
{
    if i >= s.len() {
        i
    } else if !is_ws(s[i]) {
        skip_token_from(s, i + 1)
    } else {
        i
    }
}

pub proof fn lemma_skip_ws_from(s: Seq<u8>, i: int)
    requires
        0 <= i <= s.len(),
    ensures
        i <= skip_ws_from(s, i) <= s.len(),
        forall|j: int| i <= j < skip_ws_from(s, i) ==> is_ws(s[j]),
        skip_ws_from(s, i) < s.len() ==> !is_ws(s[skip_ws_from(s, i)]),
    decreases s.len() - i,
{
    if i < s.len() && is_ws(s[i]) {
        lemma_skip_ws_from(s, i + 1);
    }
}

pub proof fn lemma_skip_token_from(s: Seq<u8>, i: int)
    requires
        0 <= i <= s.len(),
    ensures
        i <= skip_token_from(s, i) <= s.len(),
        forall|j: int| i <= j < skip_token_from(s, i) ==> !is_ws(s[j]),
        skip_token_from(s, i) < s.len() ==> is_ws(s[skip_token_from(s, i)]),
        i < s.len() && !is_ws(s[i]) ==> skip_token_from(s, i) > i,
    decreases s.len() - i,
{
    if i < s.len() && !is_ws(s[i]) {
        lemma_skip_token_from(s, i + 1);
    }
}

/// Start and end of the three request-line tokens, as splitting on runs
/// of whitespace finds them.
pub open spec fn tok0_start(s: Seq<u8>) -> int {
    skip_ws_from(s, 0)
}

pub open spec fn tok0_end(s: Seq<u8>) -> int {
    skip_token_from(s, tok0_start(s))
}

pub open spec fn tok1_start(s: Seq<u8>) -> int {
    skip_ws_from(s, tok0_end(s))
}

pub open spec fn tok1_end(s: Seq<u8>) -> int {
    skip_token_from(s, tok1_start(s))
}

pub open spec fn tok2_start(s: Seq<u8>) -> int {
    skip_ws_from(s, tok1_end(s))
}

pub open spec fn tok2_end(s: Seq<u8>) -> int {
    skip_token_from(s, tok2_start(s))
}

/// The request line splits into at least three tokens.
pub open spec fn has_three_tokens(s: Seq<u8>) -> bool {
    tok2_start(s) < s.len()
}

pub open spec fn spec_method(s: Seq<u8>) -> Seq<u8> {
    s.subrange(tok0_start(s), tok0_end(s))
}

pub open spec fn spec_path(s: Seq<u8>) -> Seq<u8> {
    s.subrange(tok1_start(s), tok1_end(s))
}

pub open spec fn spec_version(s: Seq<u8>) -> Seq<u8> {
    s.subrange(tok2_start(s), tok2_end(s))
}

/// Index of the first colon, or the line length when there is none.
pub open spec fn first_colon(line: Seq<u8>) -> int {
    match find_from(line, 58, 0) {
        Some(k) => k,
        None => line.len() as int,
    }
}

/// A header line carries a colon and a nonempty key before it.
pub open spec fn header_line_ok(line: Seq<u8>) -> bool {
    0 < first_colon(line) < line.len()
}

/// The (key, value) pair a header line denotes: the key before the first
/// colon, the value after it with leading whitespace removed.
pub open spec fn header_of_line(line: Seq<u8>) -> (Seq<u8>, Seq<u8>) {
    (line.subrange(0, first_colon(line)), trim_start_ws(line.skip(first_colon(line) + 1)))
}

/// First empty line at or after index `i`, or the number of lines.
pub open spec fn first_empty_from(lines: Seq<Seq<u8>>, i: int) -> int
    decreases lines.len() - i when 0 <= i <= lines.len()
{
    if i >= lines.len() {
        i
    } else if lines[i].len() == 0 {
        i
    } else {
        first_empty_from(lines, i + 1)
    }
}

/// The first empty line at or after `i` is exactly at `k` when the lines
/// before it are nonempty and line `k` is empty.
pub proof fn lemma_first_empty_at(lines: Seq<Seq<u8>>, i: int, k: int)
    requires
        0 <= i <= k < lines.len(),
        forall|j: int| i <= j < k ==> lines[j].len() != 0,
        lines[k].len() == 0,
    ensures
        first_empty_from(lines, i) == k,
    decreases k - i,
{
    if i < k {
        lemma_first_empty_at(lines, i + 1, k);
    }
}

pub proof fn lemma_first_empty_from(lines: Seq<Seq<u8>>, i: int)
    requires
        0 <= i <= lines.len(),
    ensures
        i <= first_empty_from(lines, i) <= lines.len(),
        forall|j: int| i <= j < first_empty_from(lines, i) ==> lines[j].len() != 0,
    decreases lines.len() - i,
{
    if i < lines.len() && lines[i].len() != 0 {
        lemma_first_empty_from(lines, i + 1);
    }
}

/// One past the last header line: the first empty line, or the end.
pub open spec fn head_end(lines: Seq<Seq<u8>>) -> int {
    first_empty_from(lines, 1)
}

/// The head parses: a request line with three tokens, and every line up
/// to the blank line a well-formed header line.
pub open spec fn head_ok(lines: Seq<Seq<u8>>) -> bool {
    &&& lines.len() > 0
    &&& has_three_tokens(lines[0])
    &&& forall|j: int| 1 <= j < head_end(lines) ==> header_line_ok(lines[j])
}

/// The (key, value) pairs of the head's header lines, in order.
pub open spec fn spec_headers(lines: Seq<Seq<u8>>) -> Seq<(Seq<u8>, Seq<u8>)> {
    Seq::new((head_end(lines) - 1) as nat, |j: int| header_of_line(lines[j + 1]))
}

fn skip_ws_exec(s: &[u8], from: usize) -> (r: usize)
    requires
        from <= s@.len(),
    ensures
        r as int == skip_ws_from(s@, from as int),
        from <= r <= s@.len(),
{
    let mut i = from;
    loop
        invariant
            from <= i <= s@.len(),
            skip_ws_from(s@, from as int) == skip_ws_from(s@, i as int),
        decreases s@.len() - i,
    {
        if i >= s.len() {
            return i;
        }
        let b = s[i];
        if !(b == 32 || b == 9 || b == 10 || b == 13 || b == 11 || b == 12) {
            return i;
        }
        i += 1;
    }
}

fn skip_token_exec(s: &[u8], from: usize) -> (r: usize)
    requires
        from <= s@.len(),
    ensures
        r as int == skip_token_from(s@, from as int),
        from <= r <= s@.len(),
{
    let mut i = from;
    loop
        invariant
            from <= i <= s@.len(),
            skip_token_from(s@, from as int) == skip_token_from(s@, i as int),
        decreases s@.len() - i,
    {
        if i >= s.len() {
            return i;
        }
        let b = s[i];
        if b == 32 || b == 9 || b == 10 || b == 13 || b == 11 || b == 12 {
            return i;
        }
        i += 1;
    }
}

/// Parse the lines after the first one, up to the blank line (or the
/// end), as header lines. `None` when some line before the blank line
/// has no colon or an empty key.
pub fn parse_header_lines(lines: &Vec<Vec<u8>>) -> (r: Option<Vec<HeaderField>>)
    requires
        lines@.len() >= 1,
    ensures
        ({
            let lv = lines_view(lines@);
            match r {
                Some(hs) => {
                    &&& forall|j: int| 1 <= j < head_end(lv) ==> header_line_ok(lv[j])
                    &&& fields_view(hs@) == spec_headers(lv)
                },
                None => !(forall|j: int| 1 <= j < head_end(lv) ==> header_line_ok(lv[j])),
            }
        }),
{
    let ghost lv = lines_view(lines@);
    let mut headers: Vec<HeaderField> = Vec::new();
    let mut j: usize = 1;
    loop
        invariant
            1 <= j <= lines@.len(),
            lv == lines_view(lines@),
            lv.len() == lines@.len(),
            head_end(lv) == first_empty_from(lv, j as int),
            forall|k: int| 1 <= k < j ==> lv[k].len() != 0 && header_line_ok(lv[k]),
            fields_view(headers@) =~= Seq::new((j - 1) as nat, |k: int| header_of_line(lv[k + 1])),
        ensures
            1 <= j <= lines@.len(),
            head_end(lv) == first_empty_from(lv, j as int),
            forall|k: int| 1 <= k < j ==> lv[k].len() != 0 && header_line_ok(lv[k]),
            fields_view(headers@) =~= Seq::new((j - 1) as nat, |k: int| header_of_line(lv[k + 1])),
            j == lines@.len() || lv[j as int].len() == 0,
        decreases lines@.len() - j,
    {
        if j >= lines.len() {
            break;
        }
        let line = &lines[j];
        proof {
            assert(lv[j as int] == lines@[j as int]@);
        }
        if line.len() == 0 {
            break;
        }
        match find_byte(line.as_slice(), 58) {
            None => {
                proof {
                    assert(first_colon(lv[j as int]) == lv[j as int].len() as int);
                    lemma_first_empty_from(lv, j as int + 1);
                    assert(head_end(lv) > j as int);
                    assert(!header_line_ok(lv[j as int]));
                }
                return None;
            },
            Some(k) => {
                if k == 0 {
                    proof {
                        assert(first_colon(lv[j as int]) == 0);
                        lemma_first_empty_from(lv, j as int + 1);
                        assert(head_end(lv) > j as int);
                        assert(!header_line_ok(lv[j as int]));
                    }
                    return None;
                }
                proof {
                    crate::bytes::lemma_find_from(lv[j as int], 58, 0);
                }
                let key = subrange_vec(line.as_slice(), 0, k);
                let raw = subrange_vec(line.as_slice(), k + 1, line.len());
                let value = trim_start_vec(raw.as_slice());
                proof {
                    assert(lv[j as int].subrange(k as int + 1, lv[j as int].len() as int) =~= lv[
                        j as int].skip(k as int + 1));
                }
                let ghost old_fields = fields_view(headers@);
                headers.push(HeaderField { key, value });
                proof {
                    assert(fields_view(headers@) =~= old_fields.push(
                        (lv[j as int].subrange(0, k as int), trim_start_ws(
                            lv[j as int].skip(k as int + 1),
                        )),
                    ));
                    assert(fields_view(headers@) =~= Seq::new((j as nat), |k: int| header_of_line(
                        lv[k + 1],
                    )));
                }
                j += 1;
            },
        }
    }
    proof {
        assert(head_end(lv) == j as int);
        assert(fields_view(headers@) =~= spec_headers(lv));
    }
    Some(headers)
}

/// Parse the head lines (already split on CRLF, final blank line optional)
/// into a request with an empty body. The request line must hold at least
/// three whitespace-separated tokens; extra tokens are ignored, as
/// splitting on whitespace and taking the first three does. Each line
/// before the blank line must hold a colon with a nonempty key before it.
pub fn parse_request(lines: &Vec<Vec<u8>>) -> (r: Result<HttpRequest, RequestError>)
    ensures
        ({
            let lv = lines_view(lines@);
            match r {
                Ok(req) => {
                    &&& head_ok(lv)
                    &&& req.method@ == spec_method(lv[0])
                    &&& req.path@ == spec_path(lv[0])
                    &&& req.version@ == spec_version(lv[0])
                    &&& wf_token(req.method@)
                    &&& wf_token(req.path@)
                    &&& wf_token(req.version@)
                    &&& fields_view(req.headers@) == spec_headers(lv)
                    &&& req.body@ == Seq::<u8>::empty()
                },
                Err(e) => {
                    &&& !head_ok(lv)
                    &&& (e is MalformedRequestLine <==> (lv.len() == 0 || !has_three_tokens(
                        lv[0],
                    )))
                    &&& (e is MalformedRequestLine || e is MalformedHeader)
                },
            }
        }),
{
    let ghost lv = lines_view(lines@);
    if lines.len() == 0 {
        return Err(RequestError::MalformedRequestLine);
    }
    let line0 = &lines[0];
    let n0 = line0.len();
    proof {
        assert(lv[0] == lines@[0]@);
    }
    let t0s = skip_ws_exec(line0.as_slice(), 0);
    let t0e = skip_token_exec(line0.as_slice(), t0s);
    let t1s = skip_ws_exec(line0.as_slice(), t0e);
    let t1e = skip_token_exec(line0.as_slice(), t1s);
    let t2s = skip_ws_exec(line0.as_slice(), t1e);
    let t2e = skip_token_exec(line0.as_slice(), t2s);
    if t2s >= n0 {
        return Err(RequestError::MalformedRequestLine);
    }
    proof {
        lemma_skip_ws_from(lv[0], 0);
        lemma_skip_token_from(lv[0], t0s as int);
        lemma_skip_ws_from(lv[0], t0e as int);
        lemma_skip_token_from(lv[0], t1s as int);
        lemma_skip_ws_from(lv[0], t1e as int);
        lemma_skip_token_from(lv[0], t2s as int);
    }
    let method = subrange_vec(line0.as_slice(), t0s, t0e);
    let path = subrange_vec(line0.as_slice(), t1s, t1e);
    let version = subrange_vec(line0.as_slice(), t2s, t2e);
    let headers = match parse_header_lines(lines) {
        None => {
            return Err(RequestError::MalformedHeader);
        },
        Some(hs) => hs,
    };
    Ok(HttpRequest { method, path, version, headers, body: Vec::new() })
}

/// Split raw bytes into head lines and what follows the blank line.
/// The returned lines are the lines before the blank line, then one
/// empty line standing for the blank line itself.
pub open spec fn split_head(s: Seq<u8>) -> Option<(Seq<Seq<u8>>, Seq<u8>)>
    decreases s.len(),
{
    match find_crlf_from(s, 0) {
        None => None,
        Some(k) => if !(0 <= k && k + 2 <= s.len()) {
            // never reached: a found CRLF lies within the bytes
            None
        } else if k == 0 {
            Some((seq![s.take(0)], s.skip(2)))
        } else {
            match split_head(s.skip(k + 2)) {
                None => None,
                Some((ls, body)) => Some((seq![s.take(k)] + ls, body)),
            }
        },
    }
}

pub fn split_head_lines(s: &[u8]) -> (r: Option<(Vec<Vec<u8>>, Vec<u8>)>)
    ensures
        match r {
            Some(lr) => split_head(s@) == Some((lines_view(lr.0@), lr.1@)),
            None => split_head(s@) is None,
        },
    decreases s@.len(),
{
    match find_crlf(s) {
        None => None,
        Some(k) => {
            if k == 0 {
                let mut lines: Vec<Vec<u8>> = Vec::new();
                lines.push(Vec::new());
                let rest = subrange_vec(s, 2, s.len());
                proof {
                    assert(lines_view(lines@) =~~= seq![s@.take(0)]);
                    assert(s@.subrange(2, s@.len() as int) =~= s@.skip(2));
                }
                Some((lines, rest))
            } else {
                let n = s.len();
                let line = subrange_vec(s, 0, k);
                let tail = vstd::slice::slice_subrange(s, k + 2, n);
                proof {
                    assert(tail@ =~= s@.skip(k as int + 2));
                }
                match split_head_lines(tail) {
                    None => None,
                    Some(lr) => {
                        let (mut lines, rest) = lr;
                        let ghost sub_lines = lines_view(lines@);
                        lines.insert(0, line);
                        proof {
                            assert(lines_view(lines@) =~~= seq![s@.take(k as int)] + sub_lines);
                            assert(s@.subrange(0, k as int) =~= s@.take(k as int));
                        }
                        Some((lines, rest))
                    },
                }
            }
        },
    }
}

/// Read one full request from raw bytes: head lines up to the blank line,
/// then as many body bytes as the head's Content-Length announces. Bytes
/// beyond the body are ignored, as a stream read would leave them unread.
pub fn parse_http_request(data: &[u8]) -> (r: Result<HttpRequest, RequestError>)
    ensures
        ({
            let sh = split_head(data@);
            match r {
                Ok(req) => {
                    &&& data@.len() > 0
                    &&& sh matches Some(hl)
                    &&& head_ok(hl.0)
                    &&& req.method@ == spec_method(hl.0[0])
                    &&& req.path@ == spec_path(hl.0[0])
                    &&& req.version@ == spec_version(hl.0[0])
                    &&& wf_token(req.method@)
                    &&& wf_token(req.path@)
                    &&& wf_token(req.version@)
                    &&& fields_view(req.headers@) == spec_headers(hl.0)
                    &&& spec_content_length(spec_headers(hl.0)) <= hl.1.len()
                    &&& req.body@ == hl.1.take(spec_content_length(spec_headers(hl.0)) as int)
                },
                Err(e) => match e {
                    RequestError::PeerClosed => data@.len() == 0,
                    RequestError::IncompleteHead => data@.len() > 0 && sh is None,
                    RequestError::MalformedRequestLine => sh matches Some(hl) && (hl.0.len() == 0
                        || !has_three_tokens(hl.0[0])),
                    RequestError::MalformedHeader => sh matches Some(hl) && !head_ok(hl.0),
                    RequestError::IncompleteBody => sh matches Some(hl) && head_ok(hl.0)
                        && spec_content_length(spec_headers(hl.0)) > hl.1.len(),
                },
            }
        }),
{
    if data.len() == 0 {
        return Err(RequestError::PeerClosed);
    }
    let (lines, rest) = match split_head_lines(data) {
        None => {
            return Err(RequestError::IncompleteHead);
        },
        Some(lr) => lr,
    };
    let mut req = match parse_request(&lines) {
        Err(e) => {
            return Err(e);
        },
        Ok(req) => req,
    };
    let n = content_length(&req.headers);
    if n > rest.len() {
        return Err(RequestError::IncompleteBody);
    }
    req.body = subrange_vec(rest.as_slice(), 0, n);
    proof {
        assert(rest@.subrange(0, n as int) =~= rest@.take(n as int));
    }
    Ok(req)
}

} // verus!
