//! Character-level utilities shared by the rule engine, templates and paths.
//!
//! All reasoning happens over `Seq<char>` views; executable code works on
//! `Vec<char>` so that every step is verified.

use vstd::prelude::*;
use vstd::string::StrSliceExecFns;

verus! {

/// ASCII lowering of one character; anything outside `A..Z` is unchanged.
pub open spec fn lower_char(c: char) -> char {
    if 'A' <= c && c <= 'Z' {
        ((c as u8) + 32) as char
    } else {
        c
    }
}

/// ASCII lowering of a whole sequence.
pub open spec fn lower_seq(s: Seq<char>) -> Seq<char> {
    s.map_values(|c: char| lower_char(c))
}

/// The characters of `s`, as a vector.
pub fn str_to_chars(s: &str) -> (r: Vec<char>)
    ensures
        r@ == s@,
{
    let n = s.unicode_len();
    let mut r: Vec<char> = Vec::new();
    let mut i: usize = 0;
    while i < n
        invariant
            n == s@.len(),
            i <= n,
            r@ == s@.take(i as int),
        decreases n - i,
    {
        r.push(s.get_char(i));
        i = i + 1;
        proof {
            assert(r@ =~= s@.take(i as int));
        }
    }
    proof {
        assert(r@ =~= s@);
    }
    r
}

/// Builds a `String` out of a vector of characters.
///
/// Relies on `core::iter::Iterator::collect` for `String`: the collected
/// string holds exactly the characters of the iterator, in order.
#[verifier::external_body]
pub fn chars_to_string(v: &Vec<char>) -> (r: String)
    ensures
        r@ == v@,
{
    v.iter().collect()
}

/// ASCII-lowers one character.
pub fn lower_char_exec(c: char) -> (r: char)
    ensures
        r == lower_char(c),
{
    if 'A' <= c && c <= 'Z' {
        ((c as u8) + 32) as char
    } else {
        c
    }
}

/// ASCII-lowers a whole vector of characters.
pub fn lower_chars(v: &Vec<char>) -> (r: Vec<char>)
    ensures
        r@ == lower_seq(v@),
{
    let mut r: Vec<char> = Vec::new();
    let mut i: usize = 0;
    while i < v.len()
        invariant
            i <= v@.len(),
            r@ == lower_seq(v@.take(i as int)),
        decreases v@.len() - i,
    {
        r.push(lower_char_exec(v[i]));
        i = i + 1;
        proof {
            assert(r@ =~= lower_seq(v@.take(i as int)));
        }
    }
    proof {
        assert(v@.take(v@.len() as int) =~= v@);
    }
    r
}

/// ASCII case-insensitive equality of two sequences.
pub open spec fn eq_ignore_case(a: Seq<char>, b: Seq<char>) -> bool {
    lower_seq(a) == lower_seq(b)
}

/// ASCII case-insensitive equality, as the rule engine's `equals` uses it.
pub fn eq_ignore_ascii_case(a: &Vec<char>, b: &Vec<char>) -> (r: bool)
    ensures
        r == eq_ignore_case(a@, b@),
{
    if a.len() != b.len() {
        proof {
            assert(lower_seq(a@).len() != lower_seq(b@).len());
        }
        return false;
    }
    let mut i: usize = 0;
    while i < a.len()
        invariant
            a@.len() == b@.len(),
            i <= a@.len(),
            forall|j: int| 0 <= j < i ==> lower_char(a@[j]) == lower_char(b@[j]),
        decreases a@.len() - i,
    {
        if lower_char_exec(a[i]) != lower_char_exec(b[i]) {
            proof {
                assert(lower_seq(a@)[i as int] != lower_seq(b@)[i as int]);
            }
            return false;
        }
        i = i + 1;
    }
    proof {
        assert(lower_seq(a@) =~= lower_seq(b@));
    }
    true
}

/// `sub` occurs in `s` starting at position `i`.
pub open spec fn matches_at(s: Seq<char>, sub: Seq<char>, i: int) -> bool {
    0 <= i && i + sub.len() <= s.len() && s.subrange(i, i + sub.len() as int) == sub
}

/// `sub` occurs somewhere in `s`.
pub open spec fn contains_seq(s: Seq<char>, sub: Seq<char>) -> bool {
    exists|i: int| matches_at(s, sub, i)
}

/// Whether `sub` occurs in `s` at position `i` (executable).
pub fn matches_at_exec(s: &Vec<char>, sub: &Vec<char>, i: usize) -> (r: bool)
    requires
        i + sub@.len() <= s@.len(),
    ensures
        r == matches_at(s@, sub@, i as int),
{
    let n: usize = s.len();
    let m: usize = sub.len();
    let mut j: usize = 0;
    while j < m
        invariant
            n == s@.len(),
            m == sub@.len(),
            i + m <= n,
            j <= m,
            forall|k: int| 0 <= k < j ==> s@[i + k] == sub@[k],
        decreases m - j,
    {
        if s[i + j] != sub[j] {
            proof {
                assert(s@.subrange(i as int, i + sub@.len() as int)[j as int] != sub@[j as int]);
            }
            return false;
        }
        j = j + 1;
    }
    proof {
        assert(s@.subrange(i as int, i + sub@.len() as int) =~= sub@);
    }
    true
}

/// Substring check (executable).
pub fn contains_chars(s: &Vec<char>, sub: &Vec<char>) -> (r: bool)
    ensures
        r == contains_seq(s@, sub@),
{
    let n: usize = s.len();
    let m: usize = sub.len();
    if m > n {
        return false;
    }
    if m == 0 {
        proof {
            assert(matches_at(s@, sub@, 0)) by {
                assert(s@.subrange(0, 0) =~= sub@);
            }
        }
        return true;
    }
    let mut i: usize = 0;
    while i <= n - m
        invariant
            n == s@.len(),
            m == sub@.len(),
            0 < m <= n,
            i <= n - m + 1,
            forall|k: int| 0 <= k < i ==> !matches_at(s@, sub@, k),
        decreases n + 1 - i,
    {
        if matches_at_exec(s, sub, i) {
            return true;
        }
        i = i + 1;
    }
    proof {
        assert(forall|k: int| matches_at(s@, sub@, k) ==> 0 <= k <= n - m);
    }
    false
}

/// Element-wise equality of two character vectors.
pub fn chars_eq(a: &Vec<char>, b: &Vec<char>) -> (r: bool)
    ensures
        r == (a@ == b@),
{
    if a.len() != b.len() {
        return false;
    }
    let mut i: usize = 0;
    while i < a.len()
        invariant
            a@.len() == b@.len(),
            i <= a@.len(),
            forall|j: int| 0 <= j < i ==> a@[j] == b@[j],
        decreases a@.len() - i,
    {
        if a[i] != b[i] {
            return false;
        }
        i = i + 1;
    }
    proof {
        assert(a@ =~= b@);
    }
    true
}

/// Whether the characters of `v` spell the string `lit`.
pub fn chars_is(v: &Vec<char>, lit: &str) -> (r: bool)
    ensures
        r == (v@ == lit@),
{
    let l = str_to_chars(lit);
    chars_eq(v, &l)
}

/// String equality by characters.
pub fn str_eq(a: &str, b: &str) -> (r: bool)
    ensures
        r == (a@ == b@),
{
    let va = str_to_chars(a);
    chars_is(&va, b)
}

/// Copies `v[from..to]` into a fresh vector.
pub fn copy_range(v: &Vec<char>, from: usize, to: usize) -> (r: Vec<char>)
    requires
        from <= to <= v@.len(),
    ensures
        r@ == v@.subrange(from as int, to as int),
{
    let mut r: Vec<char> = Vec::new();
    let mut k: usize = from;
    while k < to
        invariant
            from <= k <= to <= v@.len(),
            r@ == v@.subrange(from as int, k as int),
        decreases to - k,
    {
        r.push(v[k]);
        k = k + 1;
        proof {
            assert(r@ =~= v@.subrange(from as int, k as int));
        }
    }
    r
}

/// Prefix check.
pub open spec fn starts_with_seq(s: Seq<char>, pre: Seq<char>) -> bool {
    matches_at(s, pre, 0)
}

pub fn starts_with_chars(s: &Vec<char>, pre: &Vec<char>) -> (r: bool)
    ensures
        r == starts_with_seq(s@, pre@),
{
    if pre.len() > s.len() {
        return false;
    }
    matches_at_exec(s, pre, 0)
}

/// Suffix check.
pub open spec fn ends_with_seq(s: Seq<char>, suf: Seq<char>) -> bool {
    matches_at(s, suf, s.len() - suf.len())
}

pub fn ends_with_chars(s: &Vec<char>, suf: &Vec<char>) -> (r: bool)
    ensures
        r == ends_with_seq(s@, suf@),
{
    if suf.len() > s.len() {
        return false;
    }
    matches_at_exec(s, suf, s.len() - suf.len())
}

} // verus!
