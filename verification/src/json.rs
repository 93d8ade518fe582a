//! JSON text primitives: decimal rendering of integers and string escaping,
//! matching the conventions of common JSON emitters (`"` and `\` escaped, the
//! named control escapes, `\u00XX` for the remaining control bytes, all other
//! bytes passed through).
use vstd::prelude::*;
use crate::duration::AudioDuration;

verus! {

/// The decimal digits of `n`, most significant first.
pub open spec fn dec_seq(n: nat) -> Seq<u8>
    decreases n,
{
    if n < 10 {
        seq![(48 + n) as u8]
    } else {
        dec_seq(n / 10) + seq![(48 + n % 10) as u8]
    }
}

/// Appends the decimal digits of `n` to `out`.
pub fn push_u64_dec(out: &mut Vec<u8>, n: u64)
    ensures
        final(out)@ == old(out)@ + dec_seq(n as nat),
    decreases n,
{
    if n < 10 {
        out.push(48 + n as u8);
        proof {
            assert(out@ =~= old(out)@ + dec_seq(n as nat));
        }
    } else {
        push_u64_dec(out, n / 10);
        out.push(48 + (n % 10) as u8);
        proof {
            assert(out@ =~= old(out)@ + dec_seq(n as nat));
        }
    }
}

/// The lower-case hexadecimal digit for `n < 16`.
pub open spec fn hex_digit(n: u8) -> u8 {
    if n < 10 {
        (48 + n) as u8
    } else {
        (87 + n) as u8
    }
}

/// The JSON escape of one byte: `\"`, `\\`, a named control escape, `\u00XX`
/// for the other control bytes, and the byte itself for everything else.
pub open spec fn esc_byte(b: u8) -> Seq<u8> {
    if b == 34 {
        seq![92u8, 34u8]
    } else if b == 92 {
        seq![92u8, 92u8]
    } else if b == 8 {
        seq![92u8, 98u8]
    } else if b == 9 {
        seq![92u8, 116u8]
    } else if b == 10 {
        seq![92u8, 110u8]
    } else if b == 12 {
        seq![92u8, 102u8]
    } else if b == 13 {
        seq![92u8, 114u8]
    } else if b < 32 {
        seq![92u8, 117u8, 48u8, 48u8, hex_digit(b / 16), hex_digit(b % 16)]
    } else {
        seq![b]
    }
}

/// The JSON escape of a whole byte string.
pub open spec fn json_escaped(s: Seq<u8>) -> Seq<u8>
    decreases s.len(),
{
    if s.len() == 0 {
        Seq::empty()
    } else {
        json_escaped(s.drop_last()) + esc_byte(s.last())
    }
}

/// Appends the JSON escape of one byte to `out`.
fn push_esc_byte(out: &mut Vec<u8>, b: u8)
    ensures
        final(out)@ == old(out)@ + esc_byte(b),
{
    if b == 34 {
        out.push(92);
        out.push(34);
    } else if b == 92 {
        out.push(92);
        out.push(92);
    } else if b == 8 {
        out.push(92);
        out.push(98);
    } else if b == 9 {
        out.push(92);
        out.push(116);
    } else if b == 10 {
        out.push(92);
        out.push(110);
    } else if b == 12 {
        out.push(92);
        out.push(102);
    } else if b == 13 {
        out.push(92);
        out.push(114);
    } else if b < 32 {
        out.push(92);
        out.push(117);
        out.push(48);
        out.push(48);
        let hi = b / 16;
        let lo = b % 16;
        out.push(if hi < 10 { 48 + hi } else { 87 + hi });
        out.push(if lo < 10 { 48 + lo } else { 87 + lo });
    } else {
        out.push(b);
    }
    proof {
        assert(out@ =~= old(out)@ + esc_byte(b));
    }
}

/// Appends the JSON escape of `s` to `out`.
pub fn push_escaped(out: &mut Vec<u8>, s: &Vec<u8>)
    ensures
        final(out)@ == old(out)@ + json_escaped(s@),
{
    let mut i: usize = 0;
    while i < s.len()
        invariant
            i <= s@.len(),
            out@ == old(out)@ + json_escaped(s@.subrange(0, i as int)),
        decreases s.len() - i,
    {
        push_esc_byte(out, s[i]);
        i += 1;
        proof {
            assert(s@.subrange(0, i as int).drop_last() =~= s@.subrange(0, i - 1));
            assert(out@ =~= old(out)@ + json_escaped(s@.subrange(0, i as int)));
        }
    }
    proof {
        assert(s@.subrange(0, s@.len() as int) =~= s@);
    }
}

/// The first `k` digits after the point of `r / den`, by long division.
pub open spec fn frac_digits(r: nat, den: nat, k: nat) -> Seq<u8>
    decreases k,
{
    if k == 0 || den == 0 {
        Seq::empty()
    } else {
        seq![(48 + (10 * r / den) % 10) as u8] + frac_digits((10 * r) % den, den, (k - 1) as nat)
    }
}

/// Trailing zeros removed, one digit always kept.
pub open spec fn trim_zeros(s: Seq<u8>) -> Seq<u8>
    decreases s.len(),
{
    if s.len() <= 1 {
        s
    } else if s.last() == 48 {
        trim_zeros(s.drop_last())
    } else {
        s
    }
}

/// The decimal text of the rational `num / den`: the whole part, a point,
/// then up to nine fraction digits with trailing zeros trimmed.  This is the
/// exact value cut at nine digits, not a binary float's shortest form: on a
/// non-terminating fraction the two renderings differ past the float's
/// precision, and terminating values such as `2.0` or `0.5` agree.
pub open spec fn dur_text(num: nat, den: nat) -> Seq<u8> {
    dec_seq(num / den) + seq![46u8] + trim_zeros(frac_digits(num % den, den, 9))
}

/// Appends the decimal text of a duration to `out`.
pub fn push_duration_text(out: &mut Vec<u8>, d: &AudioDuration)
    requires
        d.wf(),
    ensures
        final(out)@ == old(out)@ + dur_text(d.num as nat, d.den as nat),
{
    let whole = d.num / d.den;
    push_u64_dec(out, whole);
    out.push(46);
    let mut fd: Vec<u8> = Vec::new();
    let mut r: u64 = d.num % d.den;
    let ghost r0 = r as nat;
    let mut i: usize = 0;
    proof {
        assert(fd@ + frac_digits(r0, d.den as nat, 9) =~= frac_digits(r0, d.den as nat, 9));
    }
    while i < 9
        invariant
            i <= 9,
            d.wf(),
            r < d.den,
            frac_digits(r0, d.den as nat, 9) == fd@ + frac_digits(r as nat, d.den as nat, (9 - i) as nat),
        decreases 9 - i,
    {
        let digit = (10 * r / d.den) as u8;
        proof {
            assert(10 * (r as int) / (d.den as int) < 10) by (nonlinear_arith)
                requires
                    0 < d.den as int,
                    (r as int) < (d.den as int),
            ;
            assert((10 * (r as int) / (d.den as int)) % 10 == 10 * (r as int) / (d.den as int));
        }
        fd.push(48 + digit);
        r = (10 * r) % d.den;
        i += 1;
        proof {
            assert(fd@ + frac_digits(r as nat, d.den as nat, (9 - i) as nat) =~= frac_digits(
                r0,
                d.den as nat,
                9,
            ));
        }
    }
    proof {
        assert(frac_digits(r as nat, d.den as nat, 0) =~= Seq::<u8>::empty());
        assert(fd@ =~= frac_digits(r0, d.den as nat, 9));
    }
    while fd.len() > 1 && fd[fd.len() - 1] == 48
        invariant
            fd@.len() >= 1,
            trim_zeros(frac_digits(r0, d.den as nat, 9)) == trim_zeros(fd@),
        decreases fd.len(),
    {
        fd.pop();
    }
    proof {
        assert(trim_zeros(fd@) == fd@);
    }
    crate::bytes::push_all(out, &fd);
    proof {
        assert(out@ =~= old(out)@ + dur_text(d.num as nat, d.den as nat));
    }
}

} // verus!
