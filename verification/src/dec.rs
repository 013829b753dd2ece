//! Decimal notation on the wire: rendering a number as digits for
//! Content-Length and status codes, and reading a Content-Length value.
use vstd::prelude::*;

verus! {

pub open spec fn is_digit(b: u8) -> bool {
    48 <= b && b <= 57
}

pub open spec fn all_digits(s: Seq<u8>) -> bool {
    forall|i: int| 0 <= i < s.len() ==> is_digit(s[i])
}

/// Numeric value of a digit string, most significant digit first.
pub open spec fn dec_val(s: Seq<u8>) -> nat
    decreases s.len(),
{
    if s.len() == 0 {
        0
    } else {
        dec_val(s.drop_last()) * 10 + (s.last() - 48) as nat
    }
}

/// The canonical digits of `n`: no sign, no leading zero except for `n == 0`.
pub open spec fn dec_str(n: nat) -> Seq<u8>
    decreases n,
{
    if n < 10 {
        seq![(n + 48) as u8]
    } else {
        dec_str(n / 10).push((n % 10 + 48) as u8)
    }
}

pub proof fn lemma_dec_str_digits(n: nat)
    ensures
        dec_str(n).len() > 0,
        all_digits(dec_str(n)),
    decreases n,
{
    if n >= 10 {
        lemma_dec_str_digits(n / 10);
        assert forall|i: int| 0 <= i < dec_str(n).len() implies is_digit(dec_str(n)[i]) by {
            if i < dec_str(n).len() - 1 {
                assert(dec_str(n)[i] == dec_str(n / 10)[i]);
            }
        }
    }
}

/// Reading back the canonical digits gives the number itself.
pub proof fn lemma_dec_val_of_dec_str(n: nat)
    ensures
        dec_val(dec_str(n)) == n,
    decreases n,
{
    if n < 10 {
        assert(dec_val(Seq::<u8>::empty()) == 0);
        assert(dec_str(n).drop_last() =~= Seq::<u8>::empty());
        assert(dec_str(n).last() == (n + 48) as u8);
    } else {
        lemma_dec_val_of_dec_str(n / 10);
        assert(dec_str(n).drop_last() =~= dec_str(n / 10));
        assert(dec_str(n).last() == (n % 10 + 48) as u8);
    }
}

fn push_dec_digits(n: u64, out: &mut Vec<u8>)
    ensures
        final(out)@ == old(out)@ + dec_str(n as nat),
    decreases n,
{
    if n < 10 {
        out.push((n as u8) + 48);
        proof {
            assert(old(out)@ + dec_str(n as nat) =~= old(out)@.push(((n as nat) + 48) as u8));
        }
    } else {
        push_dec_digits(n / 10, out);
        out.push((n % 10) as u8 + 48);
        proof {
            assert(old(out)@ + dec_str(n as nat) =~= (old(out)@ + dec_str((n as nat) / 10)).push(
                ((n as nat) % 10 + 48) as u8));
        }
    }
}

pub fn u64_to_dec(n: u64) -> (r: Vec<u8>)
    ensures
        r@ == dec_str(n as nat),
{
    let mut out: Vec<u8> = Vec::new();
    push_dec_digits(n, &mut out);
    proof {
        assert(Seq::<u8>::empty() + dec_str(n as nat) =~= dec_str(n as nat));
    }
    out
}

pub proof fn lemma_dec_val_step(t: Seq<u8>, j: int)
    requires
        0 <= j < t.len(),
    ensures
        dec_val(t.take(j + 1)) == dec_val(t.take(j)) * 10 + (t[j] - 48) as nat,
{
    assert(t.take(j + 1).drop_last() =~= t.take(j));
    assert(t.take(j + 1).last() == t[j]);
}

pub proof fn lemma_dec_val_mono(t: Seq<u8>, j: int)
    requires
        0 <= j <= t.len(),
        all_digits(t),
    ensures
        dec_val(t) >= dec_val(t.take(j)),
    decreases t.len() - j,
{
    if j < t.len() {
        lemma_dec_val_step(t, j);
        lemma_dec_val_mono(t, j + 1);
    } else {
        assert(t.take(j) =~= t);
    }
}

/// How a Content-Length value is read, matching how `usize` is parsed from
/// text: an optional leading `+`, then one or more digits, and the value
/// must fit in a `usize`.
pub open spec fn spec_parse_usize(s: Seq<u8>) -> Option<nat> {
    let digits = if s.len() > 0 && s[0] == 43 {
        s.drop_first()
    } else {
        s
    };
    if digits.len() > 0 && all_digits(digits) && dec_val(digits) <= usize::MAX as nat {
        Some(dec_val(digits))
    } else {
        None
    }
}

pub fn parse_usize(s: &[u8]) -> (r: Option<usize>)
    ensures
        match r {
            Some(n) => spec_parse_usize(s@) == Some(n as nat),
            None => spec_parse_usize(s@) is None,
        },
{
    let slen = s.len();
    let start: usize = if slen > 0 && s[0] == 43 {
        1
    } else {
        0
    };
    let ghost digits = if s@.len() > 0 && s@[0] == 43 {
        s@.drop_first()
    } else {
        s@
    };
    proof {
        assert(digits =~= s@.skip(start as int));
    }
    if slen == start {
        return None;
    }
    let mut acc: usize = 0;
    let mut i: usize = start;
    while i < slen
        invariant
            start <= i <= slen,
            slen == s@.len(),
            start <= 1,
            digits == s@.skip(start as int),
            digits == (if s@.len() > 0 && s@[0] == 43 { s@.drop_first() } else { s@ }),
            all_digits(digits.take(i - start)),
            acc as nat == dec_val(digits.take(i - start)),
        decreases slen - i,
    {
        let b = s[i];
        proof {
            assert(digits[i - start] == s@[i as int]);
        }
        if b < 48 || b > 57 {
            proof {
                assert(!is_digit(digits[i - start]));
            }
            return None;
        }
        let d = (b - 48) as usize;
        proof {
            lemma_dec_val_step(digits, i - start);
        }
        if acc > (usize::MAX - d) / 10 {
            proof {
                if all_digits(digits) {
                    lemma_dec_val_mono(digits, i - start + 1);
                }
            }
            return None;
        }
        acc = acc * 10 + d;
        i += 1;
    }
    proof {
        assert(digits.take(slen - start) =~= digits);
    }
    Some(acc)
}

} // verus!
