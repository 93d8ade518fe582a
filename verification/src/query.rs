//! Listing query parsing.
//!
//! The query string is everything after the first `?` of the routed path.  It
//! is read as `&`-separated `key=value` pairs, each side percent-decoded with
//! `+` standing for a space; empty segments are skipped.  A `filter` key gives
//! the name filter; without one, a non-empty query string itself is the
//! filter, verbatim.  A `maxduration` key parsed as a plain decimal number
//! gives the duration ceiling; an unparsable value gives none.
use vstd::prelude::*;
use crate::bytes::{sub_bytes, find_byte, find_byte_from};
use crate::route::{first_match_from, lemma_byte_first_match, lemma_byte_first_none};

verus! {

/// Decimal digit.
pub open spec fn is_digit(b: u8) -> bool {
    48 <= b <= 57
}

/// Hexadecimal digit, either case.
pub open spec fn is_hex(b: u8) -> bool {
    is_digit(b) || (65 <= b <= 70) || (97 <= b <= 102)
}

/// The value of a hexadecimal digit.
pub open spec fn hex_val(b: u8) -> u8 {
    if is_digit(b) {
        (b - 48) as u8
    } else if 65 <= b <= 70 {
        (b - 55) as u8
    } else if 97 <= b <= 102 {
        (b - 87) as u8
    } else {
        0
    }
}

/// Percent-decoding with `+` as space: `%XX` with two hexadecimal digits
/// becomes one byte, `+` becomes a space, anything else stands as it is.
pub open spec fn pct_decode(s: Seq<u8>) -> Seq<u8>
    decreases s.len(),
{
    if s.len() == 0 {
        Seq::empty()
    } else if s[0] == 37 && s.len() >= 3 && is_hex(s[1]) && is_hex(s[2]) {
        seq![(16 * hex_val(s[1]) + hex_val(s[2])) as u8] + pct_decode(s.subrange(3, s.len() as int))
    } else if s[0] == 43 {
        seq![32u8] + pct_decode(s.subrange(1, s.len() as int))
    } else {
        seq![s[0]] + pct_decode(s.subrange(1, s.len() as int))
    }
}

/// One `key=value` pair: split at the first `=`, both sides decoded; without
/// an `=`, the whole segment is the key and the value is empty.
pub open spec fn pair_of(piece: Seq<u8>) -> (Seq<u8>, Seq<u8>) {
    match first_match_from(piece, seq![61u8], 0) {
        Some(e) => (
            pct_decode(piece.subrange(0, e)),
            pct_decode(piece.subrange(e + 1, piece.len() as int)),
        ),
        None => (pct_decode(piece), Seq::empty()),
    }
}

/// A non-empty segment yields one pair; an empty one yields none.
pub open spec fn maybe_pair(piece: Seq<u8>) -> Seq<(Seq<u8>, Seq<u8>)> {
    if piece.len() == 0 {
        Seq::empty()
    } else {
        seq![pair_of(piece)]
    }
}

/// All pairs of a query string, in order.
pub open spec fn pairs_of(q: Seq<u8>) -> Seq<(Seq<u8>, Seq<u8>)>
    decreases q.len(),
{
    if q.len() == 0 {
        Seq::empty()
    } else {
        match first_match_from(q, seq![38u8], 0) {
            Some(a) => if 0 <= a < q.len() {
                maybe_pair(q.subrange(0, a)) + pairs_of(q.subrange(a + 1, q.len() as int))
            } else {
                maybe_pair(q)
            },
            None => maybe_pair(q),
        }
    }
}

/// The value of the first pair whose key is `key`.
pub open spec fn find_value(ps: Seq<(Seq<u8>, Seq<u8>)>, key: Seq<u8>) -> Option<Seq<u8>>
    decreases ps.len(),
{
    if ps.len() == 0 {
        None
    } else if ps[0].0 == key {
        Some(ps[0].1)
    } else {
        find_value(ps.drop_first(), key)
    }
}

/// The query string of a routed path: everything after the first `?`.
pub open spec fn query_of(raw: Seq<u8>) -> Seq<u8> {
    match first_match_from(raw, seq![63u8], 0) {
        Some(p) => raw.subrange(p + 1, raw.len() as int),
        None => Seq::empty(),
    }
}

/// Decodes `s` per `pct_decode`.
pub fn percent_decode(s: &Vec<u8>) -> (r: Vec<u8>)
    ensures
        r@ == pct_decode(s@),
{
    let mut out: Vec<u8> = Vec::new();
    let mut i: usize = 0;
    proof {
        assert(s@.subrange(0, s@.len() as int) =~= s@);
        assert(out@ + pct_decode(s@) =~= pct_decode(s@));
    }
    while i < s.len()
        invariant
            i <= s@.len(),
            pct_decode(s@) == out@ + pct_decode(s@.subrange(i as int, s@.len() as int)),
        decreases s.len() - i,
    {
        let ghost rem = s@.subrange(i as int, s@.len() as int);
        proof {
            assert(rem[0] == s@[i as int]);
            if i + 3 <= s@.len() {
                assert(rem[1] == s@[i + 1]);
                assert(rem[2] == s@[i + 2]);
                assert(rem.subrange(3, rem.len() as int) =~= s@.subrange(
                    i + 3,
                    s@.len() as int,
                ));
            }
            assert(rem.subrange(1, rem.len() as int) =~= s@.subrange(i + 1, s@.len() as int));
        }
        let b = s[i];
        if b == 37 && s.len() - i > 2 && hex_digit_val(s[i + 1]).is_some() && hex_digit_val(
            s[i + 2],
        ).is_some() {
            let hi = hex_digit_val(s[i + 1]).unwrap();
            let lo = hex_digit_val(s[i + 2]).unwrap();
            out.push(16 * hi + lo);
            i += 3;
        } else if b == 43 {
            out.push(32);
            i += 1;
        } else {
            out.push(b);
            i += 1;
        }
        proof {
            assert(pct_decode(s@) == out@ + pct_decode(s@.subrange(i as int, s@.len() as int)));
        }
    }
    proof {
        assert(s@.subrange(s@.len() as int, s@.len() as int) =~= Seq::<u8>::empty());
        assert(out@ =~= pct_decode(s@));
    }
    out
}

/// The value of a hexadecimal digit byte, `None` for any other byte.
fn hex_digit_val(b: u8) -> (r: Option<u8>)
    ensures
        r is Some <==> is_hex(b),
        r matches Some(v) ==> v == hex_val(b) && v < 16,
{
    if 48 <= b && b <= 57 {
        Some(b - 48)
    } else if 65 <= b && b <= 70 {
        Some(b - 55)
    } else if 97 <= b && b <= 102 {
        Some(b - 87)
    } else {
        None
    }
}

/// Splits a query string into its decoded pairs.
pub fn parse_pairs(q: &Vec<u8>) -> (r: Vec<(Vec<u8>, Vec<u8>)>)
    ensures
        pairs_view(r@) == pairs_of(q@),
{
    let n = q.len();
    let mut out: Vec<(Vec<u8>, Vec<u8>)> = Vec::new();
    let mut i: usize = 0;
    proof {
        assert(q@.subrange(0, q@.len() as int) =~= q@);
        assert(pairs_view(out@) + pairs_of(q@) =~= pairs_of(q@));
    }
    loop
        invariant
            n == q@.len(),
            i <= q@.len(),
            pairs_of(q@) == pairs_view(out@) + pairs_of(q@.subrange(i as int, q@.len() as int)),
        decreases q@.len() - i,
    {
        let ghost rem = q@.subrange(i as int, q@.len() as int);
        match find_byte_from(q, 38, i) {
            Some(a) => {
                proof {
                    assert forall|k: int| 0 <= k < a - i implies rem[k] != 38u8 by {
                        assert(rem[k] == q@[i + k]);
                    }
                    assert(rem[a - i] == q@[a as int]);
                    lemma_byte_first_match(rem, 38u8, a - i);
                    assert(rem.subrange(0, a - i) =~= q@.subrange(i as int, a as int));
                    assert(rem.subrange(a - i + 1, rem.len() as int) =~= q@.subrange(
                        a + 1,
                        q@.len() as int,
                    ));
                }
                if a > i {
                    let piece = sub_bytes(q, i, a);
                    let p = split_pair(&piece);
                    out.push(p);
                    proof {
                        assert(pairs_view(out@) =~= pairs_view(out@.drop_last()) + maybe_pair(
                            rem.subrange(0, a - i),
                        ));
                    }
                }
                proof {
                    if a == i {
                        assert(maybe_pair(rem.subrange(0, 0)) =~= Seq::<(Seq<u8>, Seq<u8>)>::empty());
                    }
                    assert(pairs_of(q@) == pairs_view(out@) + pairs_of(
                        q@.subrange(a + 1, q@.len() as int),
                    ));
                }
                i = a + 1;
            },
            None => {
                proof {
                    assert forall|k: int| 0 <= k < rem.len() implies rem[k] != 38u8 by {
                        assert(rem[k] == q@[i + k]);
                    }
                    lemma_byte_first_none(rem, 38u8);
                }
                if i < q.len() {
                    let piece = sub_bytes(q, i, q.len());
                    let p = split_pair(&piece);
                    out.push(p);
                    proof {
                        assert(pairs_view(out@) =~= pairs_view(out@.drop_last()) + maybe_pair(rem));
                    }
                } else {
                    proof {
                        assert(rem.len() == 0);
                        assert(pairs_view(out@) + pairs_of(rem) =~= pairs_view(out@));
                    }
                }
                proof {
                    assert(pairs_view(out@) =~= pairs_of(q@));
                }
                return out;
            },
        }
    }
}

/// The views of decoded pairs.
pub open spec fn pairs_view(v: Seq<(Vec<u8>, Vec<u8>)>) -> Seq<(Seq<u8>, Seq<u8>)> {
    Seq::new(v.len(), |i: int| (v[i].0@, v[i].1@))
}

/// Splits one segment at its first `=` and decodes both sides.
fn split_pair(piece: &Vec<u8>) -> (r: (Vec<u8>, Vec<u8>))
    ensures
        (r.0@, r.1@) == pair_of(piece@),
{
    let n = piece.len();
    match find_byte(piece, 61) {
        Some(e) => {
            proof {
                lemma_byte_first_match(piece@, 61u8, e as int);
            }
            let k = sub_bytes(piece, 0, e);
            let v = sub_bytes(piece, e + 1, n);
            (percent_decode(&k), percent_decode(&v))
        },
        None => {
            proof {
                lemma_byte_first_none(piece@, 61u8);
            }
            (percent_decode(piece), Vec::new())
        },
    }
}

/// Looks up the first value under `key`.
pub fn lookup(ps: &Vec<(Vec<u8>, Vec<u8>)>, key: &Vec<u8>) -> (r: Option<Vec<u8>>)
    ensures
        crate::route::opt_bytes(r) == find_value(pairs_view(ps@), key@),
{
    let mut i: usize = 0;
    proof {
        assert(pairs_view(ps@).subrange(0, ps@.len() as int) =~= pairs_view(ps@));
    }
    while i < ps.len()
        invariant
            i <= ps@.len(),
            find_value(pairs_view(ps@), key@) == find_value(
                pairs_view(ps@).subrange(i as int, ps@.len() as int),
                key@,
            ),
        decreases ps.len() - i,
    {
        let ghost rem = pairs_view(ps@).subrange(i as int, ps@.len() as int);
        proof {
            assert(rem[0] == pairs_view(ps@)[i as int]);
            assert(rem.drop_first() =~= pairs_view(ps@).subrange(i + 1, ps@.len() as int));
        }
        if crate::bytes::eq_bytes(&ps[i].0, key) {
            let mut v: Vec<u8> = Vec::new();
            crate::bytes::push_all(&mut v, &ps[i].1);
            proof {
                assert(v@ =~= ps@[i as int].1@);
            }
            return Some(v);
        }
        i += 1;
    }
    proof {
        assert(pairs_view(ps@).subrange(ps@.len() as int, ps@.len() as int)
            =~= Seq::<(Seq<u8>, Seq<u8>)>::empty());
    }
    None
}

/// Extracts the query string of a routed path.
pub fn query_string(raw: &Vec<u8>) -> (r: Vec<u8>)
    ensures
        r@ == query_of(raw@),
{
    let n = raw.len();
    match find_byte(raw, 63) {
        Some(p) => {
            proof {
                lemma_byte_first_match(raw@, 63u8, p as int);
            }
            sub_bytes(raw, p + 1, n)
        },
        None => {
            proof {
                lemma_byte_first_none(raw@, 63u8);
            }
            Vec::new()
        },
    }
}

} // verus!
