//! The duration ceiling of a listing request.
//!
//! A `maxduration` value is read as a plain signed decimal number — an
//! optional sign, digits, an optional point and fraction — and held exactly as
//! a rational.  The integer part is clamped at fifteen digits and the
//! fraction is cut at twelve, both beyond any representable audio duration,
//! so that the ceiling comparison fits comfortably in 128-bit arithmetic.
//!
//! This is narrower than a general floating-point reading: exponent forms
//! such as `1e1`, and the words `inf` and `nan`, are not decimals and apply
//! no ceiling here (floating point itself is outside this library).  In
//! return the accepted values are compared exactly, with no rounding.
use vstd::prelude::*;
use crate::duration::AudioDuration;
use crate::query::is_digit;
use crate::route::{first_match_from, lemma_byte_first_match, lemma_byte_first_none};

verus! {

/// Ten to the `k`.
pub open spec fn pow10(k: nat) -> int
    decreases k,
{
    if k == 0 {
        1
    } else {
        10 * pow10((k - 1) as nat)
    }
}

/// Every byte a decimal digit.
pub open spec fn all_digits(s: Seq<u8>) -> bool {
    forall|i: int| 0 <= i < s.len() ==> is_digit(#[trigger] s[i])
}

/// The number a digit string stands for.
pub open spec fn digits_val(s: Seq<u8>) -> int
    decreases s.len(),
{
    if s.len() == 0 {
        0
    } else {
        10 * digits_val(s.drop_last()) + (s.last() - 48)
    }
}

pub proof fn lemma_pow10_pos(k: nat)
    ensures
        pow10(k) >= 1,
    decreases k,
{
    if k > 0 {
        lemma_pow10_pos((k - 1) as nat);
    }
}

pub proof fn lemma_pow10_mono(a: nat, b: nat)
    requires
        a <= b,
    ensures
        pow10(a) <= pow10(b),
    decreases b,
{
    if a < b {
        lemma_pow10_mono(a, (b - 1) as nat);
        lemma_pow10_pos((b - 1) as nat);
    }
}

/// The concrete small powers of ten that the parser leans on.
pub proof fn lemma_pow10_tab()
    ensures
        pow10(0) == 1,
        pow10(1) == 10,
        pow10(2) == 100,
        pow10(3) == 1_000,
        pow10(4) == 10_000,
        pow10(5) == 100_000,
        pow10(6) == 1_000_000,
        pow10(7) == 10_000_000,
        pow10(8) == 100_000_000,
        pow10(9) == 1_000_000_000,
        pow10(10) == 10_000_000_000,
        pow10(11) == 100_000_000_000,
        pow10(12) == 1_000_000_000_000,
        pow10(13) == 10_000_000_000_000,
        pow10(14) == 100_000_000_000_000,
        pow10(15) == 1_000_000_000_000_000,
{
    reveal_with_fuel(pow10, 17);
}

/// A digit string of length `n` stands for a number below ten to the `n`.
pub proof fn lemma_digits_val_bound(s: Seq<u8>)
    requires
        all_digits(s),
    ensures
        0 <= digits_val(s) < pow10(s.len()),
    decreases s.len(),
{
    if s.len() > 0 {
        assert(all_digits(s.drop_last())) by {
            assert(forall|i: int|
                0 <= i < s.len() - 1 ==> s.drop_last()[i] == #[trigger] s[i]);
        }
        lemma_digits_val_bound(s.drop_last());
        assert(48 <= s.last() <= 57);
    }
}

/// The ceiling a well-formed decimal stands for, after clamping and cutting.
pub open spec fn ceiling_value(neg: bool, ip: Seq<u8>, fp: Seq<u8>) -> (bool, int, int) {
    if ip.len() > 15 {
        (neg, pow10(15), 1)
    } else {
        let k = if fp.len() > 12 {
            12nat
        } else {
            fp.len()
        };
        let num = digits_val(ip) * pow10(k) + digits_val(fp.take(k as int));
        ((if num == 0 {
            false
        } else {
            neg
        }), num, pow10(k))
    }
}

/// The parse of a `maxduration` value: sign, integer digits, optional point
/// and fraction digits, at least one digit in all; anything else fails.
pub open spec fn parse_ceiling_spec(v: Seq<u8>) -> Option<(bool, int, int)> {
    let neg = v.len() > 0 && v[0] == 45;
    let body = if v.len() > 0 && (v[0] == 45 || v[0] == 43) {
        v.drop_first()
    } else {
        v
    };
    match first_match_from(body, seq![46u8], 0) {
        Some(p) => if 0 <= p < body.len() {
            let ip = body.subrange(0, p);
            let fp = body.subrange(p + 1, body.len() as int);
            if all_digits(ip) && all_digits(fp) && ip.len() + fp.len() >= 1 {
                Some(ceiling_value(neg, ip, fp))
            } else {
                None
            }
        } else {
            None
        },
        None => if all_digits(body) && body.len() >= 1 {
            Some(ceiling_value(neg, body, Seq::empty()))
        } else {
            None
        },
    }
}

/// An exact rational duration ceiling, negative when `neg` is set.
pub struct DurationCeiling {
    pub neg: bool,
    pub num: u128,
    pub den: u128,
}

impl DurationCeiling {
    pub open spec fn wf(self) -> bool {
        1 <= self.den <= 1_000_000_000_000u128 && self.num
            <= 1_000_000_000_000_000_000_000_000_000u128 && (self.num == 0 ==> !self.neg)
    }

    pub open spec fn model(self) -> (bool, int, int) {
        (self.neg, self.num as int, self.den as int)
    }
}

/// Whether a duration lies at or under the ceiling: `num/den <= ±cnum/cden`,
/// decided by cross-multiplication.
pub open spec fn le_ceiling_spec(dnum: int, dden: int, c: (bool, int, int)) -> bool {
    if c.0 {
        false
    } else {
        dnum * c.2 <= c.1 * dden
    }
}

/// Ten to the `k`, for the denominators a fraction can produce.
fn pow10_u128(k: usize) -> (r: u128)
    requires
        k <= 12,
    ensures
        r as int == pow10(k as nat),
{
    proof {
        lemma_pow10_tab();
    }
    if k == 0 {
        1
    } else if k == 1 {
        10
    } else if k == 2 {
        100
    } else if k == 3 {
        1_000
    } else if k == 4 {
        10_000
    } else if k == 5 {
        100_000
    } else if k == 6 {
        1_000_000
    } else if k == 7 {
        10_000_000
    } else if k == 8 {
        100_000_000
    } else if k == 9 {
        1_000_000_000
    } else if k == 10 {
        10_000_000_000
    } else if k == 11 {
        100_000_000_000
    } else {
        1_000_000_000_000
    }
}

/// Accumulates the value of the digit string `s[lo..hi]`, capped at fifteen
/// digits by the caller.
fn digits_value_u64(s: &Vec<u8>, lo: usize, hi: usize) -> (r: u64)
    requires
        lo <= hi <= s@.len(),
        all_digits(s@.subrange(lo as int, hi as int)),
        hi - lo <= 15,
    ensures
        r as int == digits_val(s@.subrange(lo as int, hi as int)),
{
    let mut val: u64 = 0;
    let mut j: usize = lo;
    proof {
        assert(s@.subrange(lo as int, lo as int) =~= Seq::<u8>::empty());
    }
    while j < hi
        invariant
            lo <= j <= hi <= s@.len(),
            hi - lo <= 15,
            all_digits(s@.subrange(lo as int, hi as int)),
            val as int == digits_val(s@.subrange(lo as int, j as int)),
        decreases hi - j,
    {
        let ghost pre = s@.subrange(lo as int, j as int);
        let ghost ext = s@.subrange(lo as int, j + 1);
        proof {
            assert(all_digits(pre)) by {
                assert(forall|i: int|
                    0 <= i < pre.len() ==> pre[i] == #[trigger] s@.subrange(
                        lo as int,
                        hi as int,
                    )[i]);
            }
            lemma_digits_val_bound(pre);
            lemma_pow10_mono(pre.len() as nat, 14nat);
            lemma_pow10_tab();
            assert(digits_val(pre) < 100_000_000_000_000int);
            assert(ext.drop_last() =~= pre);
            assert(ext.last() == s@[j as int]);
            assert(s@[j as int] == s@.subrange(lo as int, hi as int)[j - lo]);
            assert(is_digit(s@[j as int]));
        }
        let d = s[j];
        val = val * 10 + (d - 48) as u64;
        j += 1;
    }
    val
}

/// Parses a `maxduration` value.
#[verifier::rlimit(60)]
pub fn parse_ceiling(v: &Vec<u8>) -> (r: Option<DurationCeiling>)
    ensures
        match r {
            Some(c) => c.wf() && parse_ceiling_spec(v@) == Some(c.model()),
            None => parse_ceiling_spec(v@) is None,
        },
{
    let n = v.len();
    let mut start: usize = 0;
    let mut neg = false;
    if n > 0 && (v[0] == 45 || v[0] == 43) {
        neg = v[0] == 45;
        start = 1;
    }
    let ghost body = if start == 1 {
        v@.drop_first()
    } else {
        v@
    };
    proof {
        assert(body =~= v@.subrange(start as int, n as int));
    }
    let dot = crate::bytes::find_byte_from(v, 46, start);
    let (ip_end, fp_start): (usize, usize) = match dot {
        Some(p) => {
            proof {
                assert forall|k: int| 0 <= k < p - start implies body[k] != 46u8 by {
                    assert(body[k] == v@[start + k]);
                }
                assert(body[p - start] == v@[p as int]);
                lemma_byte_first_match(body, 46u8, p - start);
            }
            (p, p + 1)
        },
        None => {
            proof {
                assert forall|k: int| 0 <= k < body.len() implies body[k] != 46u8 by {
                    assert(body[k] == v@[start + k]);
                }
                lemma_byte_first_none(body, 46u8);
            }
            (n, n)
        },
    };
    let ghost ip = v@.subrange(start as int, ip_end as int);
    let ghost fp = v@.subrange(fp_start as int, n as int);
    proof {
        if dot is Some {
            let p = dot.unwrap();
            assert(body.subrange(0, p - start) =~= ip);
            assert(body.subrange(p - start + 1, body.len() as int) =~= fp);
        } else {
            assert(body =~= ip);
            assert(fp =~= Seq::<u8>::empty());
        }
    }
    // Validate that both digit runs hold digits only.
    if !digits_only(v, start, ip_end) {
        proof {
            assert(!all_digits(ip));
        }
        return None;
    }
    if !digits_only(v, fp_start, n) {
        proof {
            assert(!all_digits(fp));
        }
        return None;
    }
    if ip_end - start == 0 && n - fp_start == 0 {
        return None;
    }
    // Clamp an overlong integer part.
    if ip_end - start > 15 {
        proof {
            lemma_pow10_tab();
        }
        return Some(DurationCeiling { neg, num: 1_000_000_000_000_000u128, den: 1 });
    }
    let frac_len = n - fp_start;
    let k: usize = if frac_len > 12 {
        12
    } else {
        frac_len
    };
    let int_val = digits_value_u64(v, start, ip_end);
    let frac_val = digits_value_u64(v, fp_start, fp_start + k);
    let den = pow10_u128(k);
    proof {
        assert(v@.subrange(fp_start as int, fp_start + k) =~= fp.take(k as int));
        lemma_digits_val_bound(ip);
        assert(all_digits(fp.take(k as int))) by {
            assert(forall|i: int|
                0 <= i < k ==> fp.take(k as int)[i] == #[trigger] fp[i]);
        }
        lemma_digits_val_bound(fp.take(k as int));
        lemma_pow10_mono(ip.len() as nat, 15nat);
        lemma_pow10_mono(fp.take(k as int).len() as nat, 12nat);
        lemma_pow10_mono(k as nat, 12nat);
        lemma_pow10_pos(k as nat);
        lemma_pow10_tab();
        assert(int_val < 1_000_000_000_000_000u64);
        assert(frac_val < 1_000_000_000_000u64);
        assert((int_val as int) * (den as int) <= 999_999_999_999_999int * 1_000_000_000_000int)
            by (nonlinear_arith)
            requires
                0 <= int_val as int <= 999_999_999_999_999int,
                0 <= den as int <= 1_000_000_000_000int,
        ;
    }
    let num: u128 = (int_val as u128) * den + (frac_val as u128);
    let cneg = if num == 0 {
        false
    } else {
        neg
    };
    Some(DurationCeiling { neg: cneg, num, den })
}

/// Whether `s[lo..hi]` holds decimal digits only.
fn digits_only(s: &Vec<u8>, lo: usize, hi: usize) -> (r: bool)
    requires
        lo <= hi <= s@.len(),
    ensures
        r == all_digits(s@.subrange(lo as int, hi as int)),
{
    let mut j: usize = lo;
    while j < hi
        invariant
            lo <= j <= hi <= s@.len(),
            forall|i: int| 0 <= i < j - lo ==> is_digit(#[trigger] s@.subrange(lo as int, hi as int)[i]),
        decreases hi - j,
    {
        let d = s[j];
        if d < 48 || d > 57 {
            proof {
                assert(s@.subrange(lo as int, hi as int)[j - lo] == s@[j as int]);
            }
            return false;
        }
        proof {
            assert(s@.subrange(lo as int, hi as int)[j - lo] == s@[j as int]);
        }
        j += 1;
    }
    true
}

/// Decides `duration <= ceiling` by cross-multiplication.
pub fn le_ceiling(d: &AudioDuration, c: &DurationCeiling) -> (r: bool)
    requires
        d.wf(),
        c.wf(),
    ensures
        r == le_ceiling_spec(d.num as int, d.den as int, c.model()),
{
    if c.neg {
        return false;
    }
    proof {
        assert((d.num as int) * (c.den as int) <= 10_000_000_001_000_000_000int
            * 1_000_000_000_000int) by (nonlinear_arith)
            requires
                0 <= d.num as int <= 10_000_000_001_000_000_000int,
                0 <= c.den as int <= 1_000_000_000_000int,
        ;
        assert((c.num as int) * (d.den as int) <= 1_000_000_000_000_000_000_000_000_000int
            * 5_000_000_000int) by (nonlinear_arith)
            requires
                0 <= c.num as int <= 1_000_000_000_000_000_000_000_000_000int,
                0 <= d.den as int <= 5_000_000_000int,
        ;
    }
    let lhs: u128 = (d.num as u128) * c.den;
    let rhs: u128 = c.num * (d.den as u128);
    lhs <= rhs
}

} // verus!
