//! The installation record's on-disk coding: plain base64, used to
//! lightly obfuscate the license file.  Reading and writing the file
//! itself stays with the caller.

use vstd::prelude::*;
use crate::text::{chars_to_string, str_to_chars};

verus! {

/// The base64 alphabet character for a 6-bit value.
pub open spec fn b64_char(v: u32) -> char {
    if v < 26 {
        (65 + v) as char
    } else if v < 52 {
        (97 + v - 26) as char
    } else if v < 62 {
        (48 + v - 52) as char
    } else if v == 62 {
        '+'
    } else {
        '/'
    }
}

fn b64_char_exec(v: u32) -> (c: char)
    requires
        v < 64,
    ensures
        c == b64_char(v),
{
    if v < 26 {
        ((65 + v) as u8) as char
    } else if v < 52 {
        ((97 + v - 26) as u8) as char
    } else if v < 62 {
        ((48 + v - 52) as u8) as char
    } else if v == 62 {
        '+'
    } else {
        '/'
    }
}

/// The encoding of one chunk of at most three bytes, padded with `=`.
pub open spec fn b64_chunk(chunk: Seq<u8>) -> Seq<char> {
    let b0 = chunk[0] as u32;
    let b1: u32 = if chunk.len() > 1 {
        chunk[1] as u32
    } else {
        0
    };
    let b2: u32 = if chunk.len() > 2 {
        chunk[2] as u32
    } else {
        0
    };
    let triple = (b0 << 16) | (b1 << 8) | b2;
    let c0 = b64_char((triple >> 18) & 0x3F);
    let c1 = b64_char((triple >> 12) & 0x3F);
    let c2: char = if chunk.len() > 1 {
        b64_char((triple >> 6) & 0x3F)
    } else {
        '='
    };
    let c3: char = if chunk.len() > 2 {
        b64_char(triple & 0x3F)
    } else {
        '='
    };
    seq![c0, c1, c2, c3]
}

/// The base64 encoding of a byte sequence, three bytes a chunk.
pub open spec fn spec_b64_encode(data: Seq<u8>) -> Seq<char>
    decreases data.len(),
{
    if data.len() == 0 {
        Seq::<char>::empty()
    } else if data.len() <= 3 {
        b64_chunk(data)
    } else {
        b64_chunk(data.take(3)) + spec_b64_encode(data.skip(3))
    }
}

/// Encodes bytes as base64.
pub fn base64_encode(data: &Vec<u8>) -> (r: String)
    ensures
        r@ == spec_b64_encode(data@),
{
    let n: usize = data.len();
    let mut out: Vec<char> = Vec::new();
    proof {
        assert(data@.skip(0) =~= data@);
        assert(Seq::<char>::empty() + spec_b64_encode(data@) =~= spec_b64_encode(data@));
    }
    let mut i: usize = 0;
    while i < n
        invariant
            n == data@.len(),
            i <= n,
            i % 3 == 0 || i == n,
            out@ + spec_b64_encode(data@.skip(i as int)) == spec_b64_encode(data@),
        decreases n - i,
    {
        let ghost rem = data@.skip(i as int);
        let ghost out_before = out@;
        let b0 = data[i] as u32;
        let len_left = n - i;
        let b1: u32 = if len_left > 1 {
            data[i + 1] as u32
        } else {
            0
        };
        let b2: u32 = if len_left > 2 {
            data[i + 2] as u32
        } else {
            0
        };
        let triple: u32 = (b0 << 16) | (b1 << 8) | b2;
        proof {
            assert((triple >> 18) & 0x3F < 64 && (triple >> 12) & 0x3F < 64 && (triple >> 6)
                & 0x3F < 64 && triple & 0x3F < 64) by (bit_vector);
        }
        out.push(b64_char_exec((triple >> 18) & 0x3F));
        out.push(b64_char_exec((triple >> 12) & 0x3F));
        if len_left > 1 {
            out.push(b64_char_exec((triple >> 6) & 0x3F));
        } else {
            out.push('=');
        }
        if len_left > 2 {
            out.push(b64_char_exec(triple & 0x3F));
        } else {
            out.push('=');
        }
        proof {
            assert(rem[0] == data@[i as int]);
            if len_left > 1 {
                assert(rem[1] == data@[i + 1]);
            }
            if len_left > 2 {
                assert(rem[2] == data@[i + 2]);
            }
            if len_left > 3 {
                assert(rem.take(3) =~= data@.subrange(i as int, i + 3));
                assert(rem.take(3)[0] == rem[0] && rem.take(3)[1] == rem[1] && rem.take(3)[2]
                    == rem[2]);
                assert(rem.skip(3) =~= data@.skip(i + 3));
                assert(out@ =~= out_before + b64_chunk(rem.take(3)));
            } else {
                assert(out@ =~= out_before + b64_chunk(rem));
            }
        }
        if len_left > 3 {
            i = i + 3;
        } else {
            i = n;
        }
    }
    proof {
        assert(data@.skip(n as int) =~= Seq::<u8>::empty());
        assert(out@ + Seq::<char>::empty() =~= out@);
    }
    chars_to_string(&out)
}

/// The 6-bit value of one base64 character, when it has one.
pub open spec fn b64_val(c: char) -> Option<u32> {
    if 'A' <= c && c <= 'Z' {
        Some((c as u32 - 65) as u32)
    } else if 'a' <= c && c <= 'z' {
        Some((c as u32 - 97 + 26) as u32)
    } else if '0' <= c && c <= '9' {
        Some((c as u32 - 48 + 52) as u32)
    } else if c == '+' {
        Some(62u32)
    } else if c == '/' {
        Some(63u32)
    } else {
        None
    }
}

fn b64_val_exec(c: char) -> (r: Option<u32>)
    ensures
        r == b64_val(c),
{
    if 'A' <= c && c <= 'Z' {
        Some((c as u32) - 65)
    } else if 'a' <= c && c <= 'z' {
        Some((c as u32) - 97 + 26)
    } else if '0' <= c && c <= '9' {
        Some((c as u32) - 48 + 52)
    } else if c == '+' {
        Some(62)
    } else if c == '/' {
        Some(63)
    } else {
        None
    }
}

/// The bytes one chunk of two to four characters decodes to; `None`
/// when a needed character is not in the alphabet.
pub open spec fn b64_decode_chunk(chunk: Seq<char>) -> Option<Seq<u8>> {
    match (b64_val(chunk[0]), b64_val(chunk[1])) {
        (Some(a), Some(b)) => {
            let byte0 = (((a << 2) | (b >> 4)) & 0xFF) as u8;
            if chunk.len() > 2 && chunk[2] != '=' {
                match b64_val(chunk[2]) {
                    Some(c) => {
                        let byte1 = ((((b & 0xF) << 4) | (c >> 2)) & 0xFF) as u8;
                        if chunk.len() > 3 && chunk[3] != '=' {
                            match b64_val(chunk[3]) {
                                Some(d) => Some(
                                    seq![byte0, byte1, ((((c & 0x3) << 6) | d) & 0xFF) as u8],
                                ),
                                None => None,
                            }
                        } else {
                            Some(seq![byte0, byte1])
                        }
                    },
                    None => None,
                }
            } else {
                Some(seq![byte0])
            }
        },
        _ => None,
    }
}

/// The decoding of a character sequence, four characters a chunk; a
/// trailing chunk of fewer than two characters is dropped.
pub open spec fn spec_b64_decode(s: Seq<char>) -> Option<Seq<u8>>
    decreases s.len(),
{
    if s.len() < 2 {
        Some(Seq::<u8>::empty())
    } else if s.len() <= 4 {
        b64_decode_chunk(s)
    } else {
        match (b64_decode_chunk(s.take(4)), spec_b64_decode(s.skip(4))) {
            (Some(head), Some(tail)) => Some(head + tail),
            _ => None,
        }
    }
}

/// What decoding an input string yields: newlines are dropped first,
/// and an input that trims to nothing has no decoding.
pub open spec fn spec_base64_decode(s: Seq<char>) -> Option<Seq<u8>> {
    let t = crate::license::trimmed(s);
    if t.len() == 0 {
        None
    } else {
        spec_b64_decode(t.filter(|c: char| c != '\n' && c != '\r'))
    }
}

/// Decodes a base64 string; whitespace around it and newlines inside
/// it are tolerated.
pub fn base64_decode(input: &str) -> (r: Option<Vec<u8>>)
    ensures
        match r {
            Some(bytes) => spec_base64_decode(input@) == Some(bytes@),
            None => spec_base64_decode(input@) is None,
        },
{
    let iv = str_to_chars(input);
    let t = crate::license::trim_chars(&iv);
    if t.len() == 0 {
        return None;
    }
    let mut kept: Vec<char> = Vec::new();
    let tn: usize = t.len();
    let ghost pred: spec_fn(char) -> bool = |c: char| c != '\n' && c != '\r';
    proof {
        reveal_with_fuel(Seq::<char>::filter, 2);
        assert(t@.take(0) =~= Seq::<char>::empty());
    }
    let mut i: usize = 0;
    while i < tn
        invariant
            tn == t@.len(),
            i <= tn,
            pred == (|c: char| c != '\n' && c != '\r'),
            kept@ == t@.take(i as int).filter(pred),
        decreases tn - i,
    {
        let c = t[i];
        let ghost kept_before = kept@;
        if c != '\n' && c != '\r' {
            kept.push(c);
        }
        proof {
            reveal_with_fuel(Seq::<char>::filter, 2);
            assert(t@.take(i + 1).drop_last() =~= t@.take(i as int));
            assert(t@.take(i + 1).last() == t@[i as int]);
            if c != '\n' && c != '\r' {
                assert(pred(c));
                assert(t@.take(i + 1).filter(pred) == t@.take(i as int).filter(pred).push(c));
            } else {
                assert(!pred(c));
                assert(t@.take(i + 1).filter(pred) == t@.take(i as int).filter(pred));
            }
        }
        i = i + 1;
    }
    proof {
        assert(t@.take(tn as int) =~= t@);
    }
    decode_chunks(&kept)
}

fn decode_chunks(v: &Vec<char>) -> (r: Option<Vec<u8>>)
    ensures
        match r {
            Some(bytes) => spec_b64_decode(v@) == Some(bytes@),
            None => spec_b64_decode(v@) is None,
        },
{
    let n: usize = v.len();
    let mut out: Vec<u8> = Vec::new();
    proof {
        assert(v@.skip(0) =~= v@);
    }
    let mut i: usize = 0;
    while i < n && n - i >= 2
        invariant
            n == v@.len(),
            i <= n,
            match spec_b64_decode(v@) {
                Some(whole) => spec_b64_decode(v@.skip(i as int)) matches Some(tail) && whole
                    == out@ + tail,
                None => spec_b64_decode(v@.skip(i as int)) is None,
            },
        decreases n - i,
    {
        let ghost rem = v@.skip(i as int);
        let ghost out_before = out@;
        let len_left = n - i;
        let a = match b64_val_exec(v[i]) {
            Some(x) => x,
            None => {
                proof {
                    assert(rem[0] == v@[i as int]);
                    lemma_chunk_prefix(rem);
                }
                return None;
            },
        };
        let b = match b64_val_exec(v[i + 1]) {
            Some(x) => x,
            None => {
                proof {
                    assert(rem[1] == v@[i + 1]);
                    lemma_chunk_prefix(rem);
                }
                return None;
            },
        };
        proof {
            assert((((a << 2) | (b >> 4)) & 0xFF) < 256) by (bit_vector);
        }
        let x0: u8 = ((((a << 2) | (b >> 4)) & 0xFF)) as u8;
        out.push(x0);
        let ghost pushed: Seq<u8> = seq![x0];
        if len_left > 2 && v[i + 2] != '=' {
            let c = match b64_val_exec(v[i + 2]) {
                Some(x) => x,
                None => {
                    proof {
                        assert(rem[2] == v@[i + 2]);
                        lemma_chunk_prefix(rem);
                    }
                    return None;
                },
            };
            proof {
                assert(((((b & 0xF) << 4) | (c >> 2)) & 0xFF) < 256) by (bit_vector);
            }
            let x1: u8 = (((((b & 0xF) << 4) | (c >> 2)) & 0xFF)) as u8;
            out.push(x1);
            proof {
                pushed = seq![x0, x1];
            }
            if len_left > 3 && v[i + 3] != '=' {
                let d = match b64_val_exec(v[i + 3]) {
                    Some(x) => x,
                    None => {
                        proof {
                            assert(rem[3] == v@[i + 3]);
                            lemma_chunk_prefix(rem);
                        }
                        return None;
                    },
                };
                proof {
                    assert(((((c & 0x3) << 6) | d) & 0xFF) < 256) by (bit_vector);
                }
                let x2: u8 = (((((c & 0x3) << 6) | d) & 0xFF)) as u8;
                out.push(x2);
                proof {
                    pushed = seq![x0, x1, x2];
                }
            }
        }
        proof {
            assert(rem[0] == v@[i as int] && rem[1] == v@[i + 1]);
            if len_left > 2 {
                assert(rem[2] == v@[i + 2]);
            }
            if len_left > 3 {
                assert(rem[3] == v@[i + 3]);
            }
            lemma_chunk_prefix(rem);
            assert(b64_decode_chunk(rem) == Some(pushed));
            assert(out@ =~= out_before + pushed);
            if rem.len() > 4 {
                assert(rem.take(4) =~= v@.subrange(i as int, i + 4));
                assert(rem.skip(4) =~= v@.skip(i + 4));
                if spec_b64_decode(v@) is Some {
                    assert(spec_b64_decode(rem.skip(4)) is Some);
                    assert(out_before + (pushed + spec_b64_decode(rem.skip(4))->0) =~= out@
                        + spec_b64_decode(rem.skip(4))->0);
                }
            } else {
                assert(v@.skip(n as int) =~= Seq::<char>::empty());
                if spec_b64_decode(v@) is Some {
                    assert(out_before + pushed =~= out@ + Seq::<u8>::empty());
                }
            }
        }
        if len_left > 4 {
            i = i + 4;
        } else {
            i = n;
        }
    }
    proof {
        if i < n {
            assert(v@.skip(i as int).len() < 2);
        } else {
            assert(v@.skip(n as int) =~= Seq::<char>::empty());
        }
        if spec_b64_decode(v@) is Some {
            assert(spec_b64_decode(v@)->0 =~= out@);
        }
    }
    Some(out)
}

/// A chunk decodes as its own four-character head decodes.
proof fn lemma_chunk_prefix(rem: Seq<char>)
    requires
        rem.len() >= 2,
    ensures
        rem.len() <= 4 ==> spec_b64_decode(rem) == b64_decode_chunk(rem),
        rem.len() > 4 ==> spec_b64_decode(rem) == (match (
            b64_decode_chunk(rem.take(4)),
            spec_b64_decode(rem.skip(4)),
        ) {
            (Some(head), Some(tail)) => Some(head + tail),
            _ => None,
        }),
        rem.len() > 4 ==> b64_decode_chunk(rem.take(4)) == b64_decode_chunk(rem),
{
    if rem.len() > 4 {
        assert(rem.take(4)[0] == rem[0]);
        assert(rem.take(4)[1] == rem[1]);
        assert(rem.take(4)[2] == rem[2]);
        assert(rem.take(4)[3] == rem[3]);
    }
}

} // verus!
