//! Byte-sequence utilities: ASCII literal bytes, prefix tests and substring
//! search, shared by the router, the query parser and the response builders.
use vstd::prelude::*;

verus! {

/// The bytes of an ASCII character sequence, one byte per character.
pub open spec fn ascii_seq(s: Seq<char>) -> Seq<u8> {
    Seq::new(s.len(), |i: int| s[i] as u8)
}

/// `pat` occurs in `s` starting at position `j`.
pub open spec fn match_at(s: Seq<u8>, pat: Seq<u8>, j: int) -> bool {
    0 <= j && j + pat.len() <= s.len() && s.subrange(j, j + pat.len() as int) == pat
}

/// `pre` is a prefix of `s`.
pub open spec fn is_prefix(pre: Seq<u8>, s: Seq<u8>) -> bool {
    pre.len() <= s.len() && s.subrange(0, pre.len() as int) == pre
}

/// `pat` occurs somewhere in `s`.
pub open spec fn contains_seq(s: Seq<u8>, pat: Seq<u8>) -> bool {
    exists|j: int| match_at(s, pat, j)
}

/// The bytes of an ASCII string slice, as an owned vector.
pub fn lit_vec(s: &str) -> (r: Vec<u8>)
    requires
        vstd::string::is_ascii(s),
    ensures
        r@ == ascii_seq(s@),
{
    proof {
        vstd::string::is_ascii_spec_bytes(s);
    }
    let r = vstd::slice::slice_to_vec(s.as_bytes());
    proof {
        assert(r@ =~= ascii_seq(s@));
    }
    r
}

/// A one-byte vector.
pub fn byte_vec(b: u8) -> (r: Vec<u8>)
    ensures
        r@ == seq![b],
{
    let mut v: Vec<u8> = Vec::new();
    v.push(b);
    proof {
        assert(v@ =~= seq![b]);
    }
    v
}

/// Appends all of `src` to `dst`.
pub fn push_all(dst: &mut Vec<u8>, src: &Vec<u8>)
    ensures
        final(dst)@ == old(dst)@ + src@,
{
    let mut i: usize = 0;
    while i < src.len()
        invariant
            i <= src.len(),
            dst@ == old(dst)@ + src@.subrange(0, i as int),
        decreases src.len() - i,
    {
        dst.push(src[i]);
        i += 1;
        proof {
            assert(dst@ =~= old(dst)@ + src@.subrange(0, i as int));
        }
    }
    proof {
        assert(dst@ =~= old(dst)@ + src@);
    }
}

/// Appends the bytes of an ASCII literal to `dst`.
pub fn push_lit(dst: &mut Vec<u8>, s: &str)
    requires
        vstd::string::is_ascii(s),
    ensures
        final(dst)@ == old(dst)@ + ascii_seq(s@),
{
    let v = lit_vec(s);
    push_all(dst, &v);
}

/// The subrange `s[i..j]` as an owned vector.
pub fn sub_bytes(s: &Vec<u8>, i: usize, j: usize) -> (r: Vec<u8>)
    requires
        i <= j <= s@.len(),
    ensures
        r@ == s@.subrange(i as int, j as int),
{
    let mut r: Vec<u8> = Vec::new();
    let mut k: usize = i;
    while k < j
        invariant
            i <= k <= j <= s@.len(),
            r@ == s@.subrange(i as int, k as int),
        decreases j - k,
    {
        r.push(s[k]);
        k += 1;
        proof {
            assert(r@ =~= s@.subrange(i as int, k as int));
        }
    }
    r
}

/// Whether `s` begins with `pre`.
pub fn starts_with_bytes(s: &Vec<u8>, pre: &Vec<u8>) -> (r: bool)
    ensures
        r == is_prefix(pre@, s@),
{
    if pre.len() > s.len() {
        return false;
    }
    let mut i: usize = 0;
    while i < pre.len()
        invariant
            i <= pre@.len() <= s@.len(),
            forall|k: int| 0 <= k < i ==> s@[k] == pre@[k],
        decreases pre.len() - i,
    {
        if s[i] != pre[i] {
            proof {
                assert(!is_prefix(pre@, s@)) by {
                    assert(s@.subrange(0, pre@.len() as int)[i as int] != pre@[i as int]);
                }
            }
            return false;
        }
        i += 1;
    }
    proof {
        assert(s@.subrange(0, pre@.len() as int) =~= pre@);
    }
    true
}

/// Whether `s` and `t` hold the same bytes.
pub fn eq_bytes(s: &Vec<u8>, t: &Vec<u8>) -> (r: bool)
    ensures
        r == (s@ == t@),
{
    if s.len() != t.len() {
        return false;
    }
    let mut i: usize = 0;
    while i < s.len()
        invariant
            i <= s@.len() == t@.len(),
            forall|k: int| 0 <= k < i ==> s@[k] == t@[k],
        decreases s.len() - i,
    {
        if s[i] != t[i] {
            return false;
        }
        i += 1;
    }
    proof {
        assert(s@ =~= t@);
    }
    true
}

/// Whether `pat` matches `s` at position `j`.
fn matches_at(s: &Vec<u8>, pat: &Vec<u8>, j: usize) -> (r: bool)
    requires
        j + pat@.len() <= s@.len(),
    ensures
        r == match_at(s@, pat@, j as int),
{
    let n = s.len();
    let mut i: usize = 0;
    while i < pat.len()
        invariant
            i <= pat@.len(),
            j + pat@.len() <= s@.len(),
            n == s@.len(),
            forall|k: int| 0 <= k < i ==> s@[j + k] == pat@[k],
        decreases pat.len() - i,
    {
        if s[j + i] != pat[i] {
            proof {
                assert(s@.subrange(j as int, j + pat@.len() as int)[i as int] != pat@[i as int]);
            }
            return false;
        }
        i += 1;
    }
    proof {
        assert(s@.subrange(j as int, j + pat@.len() as int) =~= pat@);
    }
    true
}

/// The first position at which `pat` occurs in `s`, if any.
pub fn find_first(s: &Vec<u8>, pat: &Vec<u8>) -> (r: Option<usize>)
    ensures
        match r {
            Some(j) => match_at(s@, pat@, j as int) && forall|k: int|
                0 <= k < j ==> !match_at(s@, pat@, k),
            None => forall|k: int| !match_at(s@, pat@, k),
        },
{
    if pat.len() > s.len() {
        return None;
    }
    let last: usize = s.len() - pat.len();
    let mut j: usize = 0;
    loop
        invariant
            pat@.len() <= s@.len(),
            last == s@.len() - pat@.len(),
            j <= last,
            forall|k: int| 0 <= k < j ==> !match_at(s@, pat@, k),
        decreases last - j,
    {
        if matches_at(s, pat, j) {
            return Some(j);
        }
        if j == last {
            return None;
        }
        j += 1;
    }
}

/// The last position `j >= lo` at which `pat` occurs in `s`, if any.
pub fn find_last_from(s: &Vec<u8>, pat: &Vec<u8>, lo: usize) -> (r: Option<usize>)
    ensures
        match r {
            Some(j) => j >= lo && match_at(s@, pat@, j as int) && forall|k: int|
                j < k ==> !match_at(s@, pat@, k),
            None => forall|k: int| lo <= k ==> !match_at(s@, pat@, k),
        },
{
    if pat.len() > s.len() {
        return None;
    }
    let last: usize = s.len() - pat.len();
    if lo > last {
        return None;
    }
    let mut j: usize = last;
    loop
        invariant
            pat@.len() <= s@.len(),
            last == s@.len() - pat@.len(),
            lo <= j <= last,
            forall|k: int| j < k ==> !match_at(s@, pat@, k),
        decreases j,
    {
        if matches_at(s, pat, j) {
            return Some(j);
        }
        if j == lo {
            return None;
        }
        j -= 1;
    }
}

/// Whether `pat` occurs anywhere in `s`.
pub fn contains_bytes(s: &Vec<u8>, pat: &Vec<u8>) -> (r: bool)
    ensures
        r == contains_seq(s@, pat@),
{
    let r = find_first(s, pat);
    match r {
        Some(j) => {
            proof {
                assert(match_at(s@, pat@, j as int));
            }
            true
        },
        None => false,
    }
}

/// The first position of byte `b` in `s` at or after `lo`, if any.
pub fn find_byte_from(s: &Vec<u8>, b: u8, lo: usize) -> (r: Option<usize>)
    ensures
        match r {
            Some(j) => lo <= j < s@.len() && s@[j as int] == b && forall|k: int|
                lo <= k < j ==> s@[k] != b,
            None => forall|k: int| lo <= k < s@.len() ==> s@[k] != b,
        },
{
    let mut j: usize = lo;
    while j < s.len()
        invariant
            lo <= j,
            forall|k: int| lo <= k < j ==> s@[k] != b,
        decreases s.len() - j,
    {
        if s[j] == b {
            return Some(j);
        }
        j += 1;
    }
    None
}

/// The first position of byte `b` in `s`, if any.
pub fn find_byte(s: &Vec<u8>, b: u8) -> (r: Option<usize>)
    ensures
        match r {
            Some(j) => j < s@.len() && s@[j as int] == b && forall|k: int|
                0 <= k < j ==> s@[k] != b,
            None => forall|k: int| 0 <= k < s@.len() ==> s@[k] != b,
        },
{
    let mut j: usize = 0;
    while j < s.len()
        invariant
            j <= s@.len(),
            forall|k: int| 0 <= k < j ==> s@[k] != b,
        decreases s.len() - j,
    {
        if s[j] == b {
            return Some(j);
        }
        j += 1;
    }
    None
}

} // verus!
