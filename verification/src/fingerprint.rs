//! The machine fingerprint: SHA-256 over a composite of the processor
//! id and motherboard serial, rendered as uppercase hex.  Reading those
//! identifiers from the machine stays with the caller.

use vstd::prelude::*;
use crate::text::{chars_to_string, str_to_chars};
use crate::trusted::{sha256_digest, sha256_of};

verus! {

/// One uppercase hex digit.
pub open spec fn hex_char(d: int) -> char {
    if d < 10 {
        (48 + d) as char
    } else {
        (65 + d - 10) as char
    }
}

fn hex_char_exec(d: u8) -> (c: char)
    requires
        d < 16,
    ensures
        c == hex_char(d as int),
{
    if d < 10 {
        (48 + d) as char
    } else {
        (65 + d - 10) as char
    }
}

/// The uppercase hex rendering of a byte sequence, two digits a byte.
pub open spec fn hex_of(bytes: Seq<u8>) -> Seq<char>
    decreases bytes.len(),
{
    if bytes.len() == 0 {
        Seq::<char>::empty()
    } else {
        hex_of(bytes.drop_last()) + seq![
            hex_char(bytes.last() as int / 16),
            hex_char(bytes.last() as int % 16),
        ]
    }
}

/// Renders bytes as uppercase hex.
pub fn to_hex_upper(bytes: &Vec<u8>) -> (r: Vec<char>)
    ensures
        r@ == hex_of(bytes@),
        r@.len() == 2 * bytes@.len(),
{
    let n: usize = bytes.len();
    let mut out: Vec<char> = Vec::new();
    proof {
        assert(bytes@.take(0) =~= Seq::<u8>::empty());
    }
    let mut i: usize = 0;
    while i < n
        invariant
            n == bytes@.len(),
            i <= n,
            out@ == hex_of(bytes@.take(i as int)),
            out@.len() == 2 * i,
        decreases n - i,
    {
        let b = bytes[i];
        proof {
            assert(bytes@.take(i + 1).drop_last() =~= bytes@.take(i as int));
            assert(bytes@.take(i + 1).last() == bytes@[i as int]);
        }
        out.push(hex_char_exec(b / 16));
        out.push(hex_char_exec(b % 16));
        proof {
            assert(out@ =~= hex_of(bytes@.take(i + 1)));
        }
        i = i + 1;
    }
    proof {
        assert(bytes@.take(n as int) =~= bytes@);
    }
    out
}

/// The SHA-256 digest of a string, as 64 uppercase hex characters.
pub fn compute_sha256(input: &str) -> (r: String)
    ensures
        r@ == hex_of(sha256_of(input@)),
        r@.len() == 64,
{
    let digest = sha256_digest(input);
    let hex = to_hex_upper(&digest);
    chars_to_string(&hex)
}

/// The identifier composite the fingerprint hashes: processor and
/// board when either is known, otherwise the hostname fallback.
pub open spec fn composite_of(proc_id: Seq<char>, board: Seq<char>, host: Seq<char>) -> Seq<
    char,
> {
    if proc_id.len() == 0 && board.len() == 0 {
        "PROC=;MB=;HOST="@ + host
    } else {
        "PROC="@ + proc_id + ";MB="@ + board
    }
}

/// Computes the machine fingerprint from the identifiers the caller
/// read: SHA-256 of the composite, in uppercase hex.
pub fn hardware_fingerprint(processor_id: &str, motherboard_serial: &str, hostname: &str) -> (r:
    String)
    ensures
        r@ == hex_of(sha256_of(composite_of(processor_id@, motherboard_serial@, hostname@))),
        r@.len() == 64,
{
    let mut composite: Vec<char> = Vec::new();
    if processor_id.is_empty() && motherboard_serial.is_empty() {
        crate::pathutil::append_chars(&mut composite, &str_to_chars("PROC=;MB=;HOST="));
        crate::pathutil::append_chars(&mut composite, &str_to_chars(hostname));
        proof {
            assert(composite@ =~= composite_of(processor_id@, motherboard_serial@, hostname@));
        }
    } else {
        crate::pathutil::append_chars(&mut composite, &str_to_chars("PROC="));
        crate::pathutil::append_chars(&mut composite, &str_to_chars(processor_id));
        crate::pathutil::append_chars(&mut composite, &str_to_chars(";MB="));
        crate::pathutil::append_chars(&mut composite, &str_to_chars(motherboard_serial));
        proof {
            assert(composite@ =~= composite_of(processor_id@, motherboard_serial@, hostname@));
        }
    }
    compute_sha256(chars_to_string(&composite).as_str())
}

} // verus!
