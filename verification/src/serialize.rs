//! Rendering a response into its exact wire bytes: status line, header
//! lines in stored order, a blank line, then the body verbatim.
use vstd::prelude::*;

verus! {

use vstd::string::StrSliceExecFns;
use vstd::string::StringSliceAdditionalSpecFns;
use crate::bytes::extend_bytes;
use crate::dec::dec_str;
use crate::dec::u64_to_dec;
use crate::http::HttpResponse;
use crate::http::HttpStatus;
use crate::http::fields_view;
use crate::http::spec_status_code;
use crate::http::status_code;
use crate::http::reason_of;
use crate::http::status_reason;

pub open spec fn crlf() -> Seq<u8> {
    seq![13u8, 10u8]
}

/// One header line as serialized, CRLF included.
pub open spec fn field_bytes(f: (Seq<u8>, Seq<u8>)) -> Seq<u8> {
    f.0 + ": ".spec_bytes() + f.1 + crlf()
}

pub open spec fn fields_bytes(hs: Seq<(Seq<u8>, Seq<u8>)>) -> Seq<u8>
    decreases hs.len(),
{
    if hs.len() == 0 {
        Seq::empty()
    } else {
        field_bytes(hs[0]) + fields_bytes(hs.drop_first())
    }
}

/// The status line as serialized, CRLF included.
pub open spec fn status_line_bytes(version: Seq<u8>, status: HttpStatus) -> Seq<u8> {
    version + " ".spec_bytes() + dec_str(spec_status_code(status) as nat) + " ".spec_bytes()
        + reason_of(status) + crlf()
}

/// The exact wire bytes of a response.
pub open spec fn serialize_response(r: HttpResponse) -> Seq<u8> {
    status_line_bytes(r.version@, r.status) + fields_bytes(fields_view(r.headers@)) + crlf()
        + r.body@
}

fn push_crlf(out: &mut Vec<u8>)
    ensures
        final(out)@ == old(out)@ + crlf(),
{
    out.push(13);
    out.push(10);
    proof {
        assert(old(out)@ + crlf() =~= old(out)@.push(13u8).push(10u8));
    }
}

/// Render the response: `version SP code SP reason CRLF`, each header as
/// `key: value CRLF` in stored order, a blank line, then the raw body.
pub fn make_response_string(response: HttpResponse) -> (out: Vec<u8>)
    ensures
        out@ == serialize_response(response),
{
    let ghost fv = fields_view(response.headers@);
    let mut out: Vec<u8> = Vec::new();
    extend_bytes(&mut out, response.version.as_slice());
    extend_bytes(&mut out, " ".as_bytes());
    let code = u64_to_dec(status_code(response.status) as u64);
    extend_bytes(&mut out, code.as_slice());
    extend_bytes(&mut out, " ".as_bytes());
    let reason = status_reason(response.status);
    extend_bytes(&mut out, reason.as_slice());
    push_crlf(&mut out);
    proof {
        assert(out@ =~= status_line_bytes(response.version@, response.status));
        assert(fv.skip(0) =~= fv);
    }
    let mut i: usize = 0;
    while i < response.headers.len()
        invariant
            i <= response.headers@.len(),
            fv == fields_view(response.headers@),
            fv.len() == response.headers@.len(),
            out@ + fields_bytes(fv.skip(i as int)) + crlf() + response.body@ =~= serialize_response(
                response,
            ),
        decreases response.headers@.len() - i,
    {
        let ghost out_pre = out@;
        extend_bytes(&mut out, response.headers[i].key.as_slice());
        extend_bytes(&mut out, ": ".as_bytes());
        extend_bytes(&mut out, response.headers[i].value.as_slice());
        push_crlf(&mut out);
        proof {
            assert(fv.skip(i as int)[0] == fv[i as int]);
            assert(fv.skip(i as int).drop_first() =~= fv.skip(i as int + 1));
            assert(out@ =~= out_pre + field_bytes(fv[i as int]));
            assert(out@ + fields_bytes(fv.skip(i as int + 1)) + crlf() + response.body@
                =~= out_pre + fields_bytes(fv.skip(i as int)) + crlf() + response.body@);
        }
        i += 1;
    }
    push_crlf(&mut out);
    extend_bytes(&mut out, response.body.as_slice());
    proof {
        assert(fields_bytes(fv.skip(fv.len() as int)) =~= Seq::<u8>::empty());
        assert(out@ =~= serialize_response(response));
    }
    out
}

} // verus!
