//! Wrappers around outside crates and unspecified std functions.
//!
//! Each wrapper's contract names exactly what the callee's documentation
//! promises; results that no short statement can pin down are given an
//! uninterpreted name instead, so caller contracts can still be exact.

use std::collections::hash_map::DefaultHasher;
use std::hash::{Hash, Hasher};
use vstd::prelude::*;

verus! {

/// The Unicode lowercase form of a character sequence, as
/// `str::to_lowercase` computes it.
pub uninterp spec fn lower_of(s: Seq<char>) -> Seq<char>;

/// Relies on `str::to_lowercase`: the result is a function of the
/// characters alone, and an empty string stays empty.
#[verifier::external_body]
pub fn to_lowercase(s: &str) -> (r: String)
    ensures
        r@ == lower_of(s@),
        s@.len() == 0 ==> r@.len() == 0,
{
    s.to_lowercase()
}

/// Whether `pattern`, compiled as a regular expression, matches
/// somewhere in `text`; false when the pattern does not compile.
pub uninterp spec fn regex_match_of(pattern: Seq<char>, text: Seq<char>) -> bool;

/// Relies on `regex::Regex::new` and `regex::Regex::is_match`: whether a
/// pattern compiles, and whether it matches a text, depend on the two
/// strings alone.
#[verifier::external_body]
pub fn regex_is_match(pattern: &str, text: &str) -> (r: bool)
    ensures
        r == regex_match_of(pattern@, text@),
{
    match regex::Regex::new(pattern) {
        Ok(re) => re.is_match(text),
        Err(_) => false,
    }
}

/// The SHA-256 digest of a character sequence's UTF-8 bytes.
pub uninterp spec fn sha256_of(s: Seq<char>) -> Seq<u8>;

/// Relies on `sha2::Sha256` through the `Digest` trait: the digest is a
/// function of the input bytes alone and is always 32 bytes long.
#[verifier::external_body]
pub fn sha256_digest(s: &str) -> (r: Vec<u8>)
    ensures
        r@ == sha256_of(s@),
        r@.len() == 32,
{
    let d = <sha2::Sha256 as sha2::Digest>::digest(s.as_bytes());
    d.as_slice().to_vec()
}

/// The 64-bit hash that `DefaultHasher` assigns to a string.
pub uninterp spec fn hash64_of(s: Seq<char>) -> u64;

/// Relies on `std::collections::hash_map::DefaultHasher`: hashers made
/// by `new` all use the same fixed keys, so the hash is a function of
/// the string alone.
#[verifier::external_body]
pub fn hash64(s: &str) -> (r: u64)
    ensures
        r == hash64_of(s@),
{
    let mut hasher = DefaultHasher::new();
    s.hash(&mut hasher);
    hasher.finish()
}

} // verus!
