//! Offline license keys and the trial clock.
//!
//! A key has the form `DKCRFT-XXXXX-XXXXX-XXXXX-CHECK`, where the last
//! part is a five-character base-36 digest of the first four parts and
//! a fixed salt.  The trial runs fourteen days from its start
//! timestamp.

use vstd::prelude::*;
use crate::datetime::{dt_key, spec_parse_datetime, valid, DateTime};
use crate::numeric::first_pos;
use crate::text::{chars_to_string, copy_range, starts_with_chars, starts_with_seq, str_to_chars};
use crate::trusted::{hash64, hash64_of};

verus! {

/// One base-36 digit, `A`–`Z` then `0`–`9`.
pub open spec fn b36_char(d: int) -> char {
    if d < 26 {
        (65 + d) as char
    } else {
        (48 + d - 26) as char
    }
}

fn b36_char_exec(d: u64) -> (c: char)
    requires
        d < 36,
    ensures
        c == b36_char(d as int),
{
    if d < 26 {
        ((65 + d) as u8) as char
    } else {
        ((48 + d - 26) as u8) as char
    }
}

/// The five-character check a 64-bit hash yields: five base-36 digits,
/// least significant first.
pub open spec fn hash_check_of(h: u64) -> Seq<char> {
    seq![
        b36_char(h as int % 36),
        b36_char((h as int / 36) % 36),
        b36_char((h as int / 36 / 36) % 36),
        b36_char((h as int / 36 / 36 / 36) % 36),
        b36_char((h as int / 36 / 36 / 36 / 36) % 36),
    ]
}

/// Computes the five-character check for license validation from the
/// named hash of the payload.
pub fn compute_hash_check(payload: &str) -> (r: String)
    ensures
        r@ == hash_check_of(hash64_of(payload@)),
{
    let h = hash64(payload);
    let mut out: Vec<char> = Vec::new();
    let mut remaining: u64 = h;
    out.push(b36_char_exec(remaining % 36));
    remaining = remaining / 36;
    out.push(b36_char_exec(remaining % 36));
    remaining = remaining / 36;
    out.push(b36_char_exec(remaining % 36));
    remaining = remaining / 36;
    out.push(b36_char_exec(remaining % 36));
    remaining = remaining / 36;
    out.push(b36_char_exec(remaining % 36));
    proof {
        assert(out@ =~= hash_check_of(hash64_of(payload@)));
    }
    chars_to_string(&out)
}

// ── Key validation ────────────────────────────────────────────────────

/// ASCII whitespace.  Key trimming strips only these four characters;
/// exotic Unicode whitespace around a key is not stripped.
pub open spec fn is_space(c: char) -> bool {
    c == ' ' || c == '\t' || c == '\n' || c == '\r'
}

/// The string without leading and trailing ASCII whitespace.
pub open spec fn trimmed(s: Seq<char>) -> Seq<char>
    decreases s.len(),
{
    if s.len() == 0 {
        s
    } else if is_space(s[0]) {
        trimmed(s.skip(1))
    } else if is_space(s.last()) {
        trimmed(s.drop_last())
    } else {
        s
    }
}

pub fn trim_chars(v: &Vec<char>) -> (r: Vec<char>)
    ensures
        r@ == trimmed(v@),
{
    let n: usize = v.len();
    proof {
        assert(v@.subrange(0, n as int) =~= v@);
    }
    let mut lo: usize = 0;
    let mut hi: usize = n;
    while lo < hi && is_space_exec(v[lo])
        invariant
            0 <= lo <= hi <= n,
            n == v@.len(),
            trimmed(v@.subrange(lo as int, hi as int)) == trimmed(v@),
        decreases hi - lo,
    {
        proof {
            let cur = v@.subrange(lo as int, hi as int);
            assert(cur.skip(1) =~= v@.subrange(lo + 1, hi as int));
        }
        lo = lo + 1;
    }
    while lo < hi && is_space_exec(v[hi - 1])
        invariant
            0 <= lo <= hi <= n,
            n == v@.len(),
            trimmed(v@.subrange(lo as int, hi as int)) == trimmed(v@),
            lo < hi ==> !is_space(v@[lo as int]),
        decreases hi - lo,
    {
        proof {
            let cur = v@.subrange(lo as int, hi as int);
            assert(cur.drop_last() =~= v@.subrange(lo as int, hi - 1));
        }
        hi = hi - 1;
    }
    let r = copy_range(v, lo, hi);
    proof {
        let cur = v@.subrange(lo as int, hi as int);
        if lo == hi {
            assert(cur =~= Seq::<char>::empty());
        } else {
            assert(cur[0] == v@[lo as int]);
            assert(cur.last() == v@[hi - 1]);
        }
    }
    r
}

fn is_space_exec(c: char) -> (r: bool)
    ensures
        r == is_space(c),
{
    c == ' ' || c == '\t' || c == '\n' || c == '\r'
}

/// The salt mixed into every check computation.
pub open spec fn license_salt() -> Seq<char> {
    "DeskCraft-2025-License-Salt"@
}

/// The dash-separated parts of a trimmed key, when there are exactly
/// five of them.
pub open spec fn key_parts(k: Seq<char>) -> Option<(Seq<char>, Seq<char>, Seq<char>, Seq<char>, Seq<char>)> {
    let a = first_pos(k, '-');
    if a < 0 {
        None
    } else {
        let r1 = k.skip(a + 1);
        let b = first_pos(r1, '-');
        if b < 0 {
            None
        } else {
            let r2 = r1.skip(b + 1);
            let c = first_pos(r2, '-');
            if c < 0 {
                None
            } else {
                let r3 = r2.skip(c + 1);
                let d = first_pos(r3, '-');
                if d < 0 {
                    None
                } else {
                    let r4 = r3.skip(d + 1);
                    if first_pos(r4, '-') >= 0 {
                        None
                    } else {
                        Some((k.take(a), r1.take(b), r2.take(c), r3.take(d), r4))
                    }
                }
            }
        }
    }
}

/// A key is valid when it is `DKCRFT-` plus three parts plus the check
/// the salted hash of the first four parts prescribes.
pub open spec fn spec_validate_key(key: Seq<char>) -> bool {
    let k = trimmed(key);
    &&& starts_with_seq(k, "DKCRFT-"@)
    &&& match key_parts(k) {
        Some(p) => {
            let payload = p.0 + seq!['-'] + p.1 + seq!['-'] + p.2 + seq!['-'] + p.3 + seq!['-']
                + license_salt();
            p.4 == hash_check_of(hash64_of(payload))
        },
        None => false,
    }
}

/// Validates a license key using the salted hash check.
#[verifier::rlimit(80)]
pub fn validate_key(key: &str) -> (r: bool)
    ensures
        r == spec_validate_key(key@),
{
    let kv = str_to_chars(key);
    let k = trim_chars(&kv);
    let prefix = str_to_chars("DKCRFT-");
    if !starts_with_chars(&k, &prefix) {
        return false;
    }
    proof {
        crate::numeric::lemma_first_pos(k@, '-');
        assert(k@.skip(0) =~= k@);
    }
    let n: usize = k.len();
    let a = match crate::numeric::find_first_pos(&k, 0, '-') {
        Some(x) => x,
        None => {
            return false;
        },
    };
    let p0 = copy_range(&k, 0, a);
    let r1 = copy_range(&k, a + 1, n);
    proof {
        assert(p0@ =~= k@.take(a as int));
        assert(r1@ =~= k@.skip(a + 1));
        crate::numeric::lemma_first_pos(r1@, '-');
        assert(r1@.skip(0) =~= r1@);
    }
    let r1n: usize = r1.len();
    let b = match crate::numeric::find_first_pos(&r1, 0, '-') {
        Some(x) => x,
        None => {
            return false;
        },
    };
    let p1 = copy_range(&r1, 0, b);
    let r2 = copy_range(&r1, b + 1, r1n);
    proof {
        assert(p1@ =~= r1@.take(b as int));
        assert(r2@ =~= r1@.skip(b + 1));
        crate::numeric::lemma_first_pos(r2@, '-');
        assert(r2@.skip(0) =~= r2@);
    }
    let r2n: usize = r2.len();
    let c = match crate::numeric::find_first_pos(&r2, 0, '-') {
        Some(x) => x,
        None => {
            return false;
        },
    };
    let p2 = copy_range(&r2, 0, c);
    let r3 = copy_range(&r2, c + 1, r2n);
    proof {
        assert(p2@ =~= r2@.take(c as int));
        assert(r3@ =~= r2@.skip(c + 1));
        crate::numeric::lemma_first_pos(r3@, '-');
        assert(r3@.skip(0) =~= r3@);
    }
    let r3n: usize = r3.len();
    let d = match crate::numeric::find_first_pos(&r3, 0, '-') {
        Some(x) => x,
        None => {
            return false;
        },
    };
    let p3 = copy_range(&r3, 0, d);
    let p4 = copy_range(&r3, d + 1, r3n);
    proof {
        assert(p3@ =~= r3@.take(d as int));
        assert(p4@ =~= r3@.skip(d + 1));
        crate::numeric::lemma_first_pos(p4@, '-');
        assert(p4@.skip(0) =~= p4@);
    }
    if let Some(_) = crate::numeric::find_first_pos(&p4, 0, '-') {
        return false;
    }
    let mut payload: Vec<char> = Vec::new();
    crate::pathutil::append_chars(&mut payload, &p0);
    payload.push('-');
    crate::pathutil::append_chars(&mut payload, &p1);
    payload.push('-');
    crate::pathutil::append_chars(&mut payload, &p2);
    payload.push('-');
    crate::pathutil::append_chars(&mut payload, &p3);
    payload.push('-');
    crate::pathutil::append_chars(&mut payload, &str_to_chars("DeskCraft-2025-License-Salt"));
    let payload_str = chars_to_string(&payload);
    let expected = compute_hash_check(payload_str.as_str());
    let expected_chars = str_to_chars(expected.as_str());
    proof {
        assert(payload@ =~= p0@ + seq!['-'] + p1@ + seq!['-'] + p2@ + seq!['-'] + p3@ + seq![
            '-',
        ] + license_salt());
    }
    crate::text::chars_eq(&p4, &expected_chars)
}

/// Generates a well-formed key from three middle parts, for testing
/// and development.
pub fn generate_test_key(part1: &str, part2: &str, part3: &str) -> (r: String)
    ensures
        ({
            let payload = "DKCRFT-"@ + part1@ + seq!['-'] + part2@ + seq!['-'] + part3@ + seq![
                '-',
            ] + license_salt();
            r@ == "DKCRFT-"@ + part1@ + seq!['-'] + part2@ + seq!['-'] + part3@ + seq!['-']
                + hash_check_of(hash64_of(payload))
        }),
{
    let mut payload: Vec<char> = Vec::new();
    crate::pathutil::append_chars(&mut payload, &str_to_chars("DKCRFT-"));
    crate::pathutil::append_chars(&mut payload, &str_to_chars(part1));
    payload.push('-');
    crate::pathutil::append_chars(&mut payload, &str_to_chars(part2));
    payload.push('-');
    crate::pathutil::append_chars(&mut payload, &str_to_chars(part3));
    payload.push('-');
    crate::pathutil::append_chars(&mut payload, &str_to_chars("DeskCraft-2025-License-Salt"));
    let payload_str = chars_to_string(&payload);
    let check = compute_hash_check(payload_str.as_str());
    let mut key: Vec<char> = Vec::new();
    crate::pathutil::append_chars(&mut key, &str_to_chars("DKCRFT-"));
    crate::pathutil::append_chars(&mut key, &str_to_chars(part1));
    key.push('-');
    crate::pathutil::append_chars(&mut key, &str_to_chars(part2));
    key.push('-');
    crate::pathutil::append_chars(&mut key, &str_to_chars(part3));
    key.push('-');
    crate::pathutil::append_chars(&mut key, &str_to_chars(check.as_str()));
    proof {
        assert(payload@ =~= "DKCRFT-"@ + part1@ + seq!['-'] + part2@ + seq!['-'] + part3@ + seq![
            '-',
        ] + license_salt());
        assert(key@ =~= "DKCRFT-"@ + part1@ + seq!['-'] + part2@ + seq!['-'] + part3@ + seq![
            '-',
        ] + hash_check_of(hash64_of(payload@)));
    }
    chars_to_string(&key)
}

// ── The trial clock ───────────────────────────────────────────────────

/// Whether the trial that started at this timestamp is still active at
/// `now`: less than fourteen full days have elapsed, and a start in the
/// future counts as active.  An empty or unreadable start is inactive.
pub open spec fn spec_trial_active(started: Seq<char>, now: DateTime) -> bool {
    match spec_parse_datetime(started) {
        Some(st) => {
            if dt_key(now) >= dt_key(st) {
                (dt_key(now) - dt_key(st)) / 86400 < 14
            } else {
                true
            }
        },
        None => false,
    }
}

/// Checks if the trial period is still active.
pub fn is_trial_active(trial_started: &str, now: &DateTime) -> (r: bool)
    requires
        valid(*now),
    ensures
        r == spec_trial_active(trial_started@, *now),
{
    match crate::datetime::parse_datetime(trial_started) {
        Some(st) => {
            let kn = crate::datetime::dt_key_exec(now);
            let ks = crate::datetime::dt_key_exec(&st);
            if kn >= ks {
                (kn - ks) / 86400 < 14
            } else {
                true
            }
        },
        None => false,
    }
}

/// Days remaining in the trial, or 0 once it has expired; an empty or
/// unreadable start has no days left.
pub open spec fn spec_trial_days_remaining(started: Seq<char>, now: DateTime) -> int {
    match spec_parse_datetime(started) {
        Some(st) => {
            if dt_key(now) >= dt_key(st) {
                let d = (dt_key(now) - dt_key(st)) / 86400;
                if d >= 14 {
                    0
                } else {
                    14 - d
                }
            } else {
                14 + (dt_key(st) - dt_key(now)) / 86400
            }
        },
        None => 0,
    }
}

/// Returns the number of days remaining in the trial, or 0 if expired.
pub fn trial_days_remaining(trial_started: &str, now: &DateTime) -> (r: i64)
    requires
        valid(*now),
    ensures
        r == spec_trial_days_remaining(trial_started@, *now),
{
    match crate::datetime::parse_datetime(trial_started) {
        Some(st) => {
            let kn = crate::datetime::dt_key_exec(now);
            let ks = crate::datetime::dt_key_exec(&st);
            if kn >= ks {
                let d = (kn - ks) / 86400;
                if d >= 14 {
                    0
                } else {
                    14 - (d as i64)
                }
            } else {
                14 + (((ks - kn) / 86400) as i64)
            }
        },
        None => 0,
    }
}

} // verus!
