//! Text transformations taken from the standard library: lossy UTF-8 reading
//! of untrusted names and Unicode lower-casing for the case-insensitive name
//! filter.  Both are pure functions of their input bytes.
use vstd::prelude::*;

verus! {

/// The UTF-8 bytes of `String::from_utf8_lossy` applied to `b`: invalid
/// sequences replaced with the replacement character.  A function of the
/// bytes alone.
pub uninterp spec fn lossy_of(b: Seq<u8>) -> Seq<u8>;

/// The UTF-8 bytes of `str::to_lowercase` applied to the text read from `b`;
/// bytes that are not UTF-8 stay as they are.  A function of the bytes alone.
pub uninterp spec fn lower_of(b: Seq<u8>) -> Seq<u8>;

/// Relies on `String::from_utf8_lossy`: the result depends on the bytes
/// alone, and reading valid UTF-8 returns it unchanged.
#[verifier::external_body]
pub fn lossy_utf8(b: &Vec<u8>) -> (r: Vec<u8>)
    ensures
        r@ == lossy_of(b@),
        b@.len() == 0 ==> r@.len() == 0,
{
    String::from_utf8_lossy(b.as_slice()).into_owned().into_bytes()
}

/// Relies on `str::from_utf8` and `str::to_lowercase`: lower-casing depends
/// on the characters alone; input that is not UTF-8 comes back unchanged.
#[verifier::external_body]
pub fn lower_utf8(b: &Vec<u8>) -> (r: Vec<u8>)
    ensures
        r@ == lower_of(b@),
        b@.len() == 0 ==> r@.len() == 0,
{
    match core::str::from_utf8(b.as_slice()) {
        Ok(s) => s.to_lowercase().into_bytes(),
        Err(_) => b.clone(),
    }
}

} // verus!
