//! Destination templates: `{extension}`, `{year}`, `{month}`, `{day}`,
//! `{original}` and `{counter}` are substituted with values drawn from
//! the file record.  Every occurrence is replaced; the date parts come
//! from the modified timestamp and fall back to `0000`/`00`/`00` when it
//! cannot be read.

use vstd::prelude::*;
use crate::models::FileEntry;
use crate::numeric::first_pos;
use crate::pathutil::stem_of;
use crate::text::{contains_seq, copy_range, matches_at, matches_at_exec, str_to_chars};

verus! {

/// Replaces every occurrence of `from` in `s` by `to`, scanning left to
/// right; the empty pattern replaces nothing.
pub open spec fn spec_replace(s: Seq<char>, from: Seq<char>, to: Seq<char>) -> Seq<char>
    decreases s.len(),
{
    if from.len() == 0 {
        s
    } else if s.len() < from.len() {
        s
    } else if s.take(from.len() as int) == from {
        to + spec_replace(s.skip(from.len() as int), from, to)
    } else {
        seq![s[0]] + spec_replace(s.skip(1), from, to)
    }
}

/// A string without the pattern is left alone.
pub proof fn lemma_replace_identity(s: Seq<char>, from: Seq<char>, to: Seq<char>)
    requires
        !contains_seq(s, from),
    ensures
        spec_replace(s, from, to) == s,
    decreases s.len(),
{
    if from.len() == 0 {
    } else if s.len() < from.len() {
    } else {
        if s.take(from.len() as int) == from {
            assert(matches_at(s, from, 0));
        }
        assert(!contains_seq(s.skip(1), from)) by {
            if contains_seq(s.skip(1), from) {
                let j = choose|j: int| matches_at(s.skip(1), from, j);
                assert(s.subrange(j + 1, j + 1 + from.len() as int) =~= s.skip(1).subrange(
                    j,
                    j + from.len() as int,
                ));
                assert(matches_at(s, from, j + 1));
            }
        }
        lemma_replace_identity(s.skip(1), from, to);
        assert(seq![s[0]] + s.skip(1) =~= s);
    }
}

/// Replaces every occurrence of `from` by `to` (executable).
pub fn replace_chars(s: &Vec<char>, from: &Vec<char>, to: &Vec<char>) -> (r: Vec<char>)
    ensures
        r@ == spec_replace(s@, from@, to@),
{
    let n: usize = s.len();
    let m: usize = from.len();
    if m == 0 {
        return copy_range(s, 0, n);
    }
    let mut out: Vec<char> = Vec::new();
    proof {
        assert(s@.skip(0) =~= s@);
        assert(Seq::<char>::empty() + spec_replace(s@, from@, to@) =~= spec_replace(
            s@,
            from@,
            to@,
        ));
    }
    let mut i: usize = 0;
    while i < n
        invariant
            n == s@.len(),
            m == from@.len(),
            m > 0,
            i <= n,
            out@ + spec_replace(s@.skip(i as int), from@, to@) == spec_replace(s@, from@, to@),
        decreases n - i,
    {
        let ghost rem = s@.skip(i as int);
        if m <= n - i && matches_at_exec(s, from, i) {
            proof {
                assert(rem.take(m as int) =~= s@.subrange(i as int, i + m));
                assert(rem.skip(m as int) =~= s@.skip(i + m));
            }
            crate::pathutil::append_chars(&mut out, to);
            i = i + m;
        } else {
            proof {
                if i + m <= n {
                    assert(rem.take(m as int) =~= s@.subrange(i as int, i + m));
                } else {
                    // Too little input remains for a match; one unfolding
                    // step still peels a single character off.
                    assert(rem.len() < m);
                    assert(spec_replace(rem, from@, to@) == rem);
                    assert(spec_replace(rem.skip(1), from@, to@) == rem.skip(1));
                }
                assert(rem.skip(1) =~= s@.skip(i + 1));
                assert(seq![rem[0]] + rem.skip(1) =~= rem);
            }
            out.push(s[i]);
            i = i + 1;
        }
        proof {
            assert(out@ + spec_replace(s@.skip(i as int), from@, to@) =~= spec_replace(
                s@,
                from@,
                to@,
            ));
        }
    }
    proof {
        assert(s@.skip(n as int) =~= Seq::<char>::empty());
        assert(out@ + Seq::<char>::empty() =~= out@);
    }
    out
}

// ── Date parts ────────────────────────────────────────────────────────

/// Year, month and day strings taken from a `YYYY-MM-DD ...` timestamp:
/// the first ten characters must split on `-` into exactly three parts;
/// otherwise `0000`, `00`, `00`.
pub open spec fn date_parts_of(dt: Seq<char>) -> (Seq<char>, Seq<char>, Seq<char>) {
    if dt.len() >= 10 {
        let head = dt.take(10);
        let a = first_pos(head, '-');
        if a >= 0 {
            let rest = head.skip(a + 1);
            let b = first_pos(rest, '-');
            if b >= 0 && first_pos(rest.skip(b + 1), '-') < 0 {
                (head.take(a), rest.take(b), rest.skip(b + 1))
            } else {
                ("0000"@, "00"@, "00"@)
            }
        } else {
            ("0000"@, "00"@, "00"@)
        }
    } else {
        ("0000"@, "00"@, "00"@)
    }
}

/// Extracts year, month, day strings from a datetime string formatted
/// as `YYYY-MM-DD HH:MM:SS` or similar.
pub fn extract_date_parts(datetime: &str) -> (r: (String, String, String))
    ensures
        (r.0@, r.1@, r.2@) == date_parts_of(datetime@),
{
    let dt = str_to_chars(datetime);
    let (y, m, d) = extract_date_part_chars(&dt);
    (
        crate::text::chars_to_string(&y),
        crate::text::chars_to_string(&m),
        crate::text::chars_to_string(&d),
    )
}

fn extract_date_part_chars(dt: &Vec<char>) -> (r: (Vec<char>, Vec<char>, Vec<char>))
    ensures
        (r.0@, r.1@, r.2@) == date_parts_of(dt@),
{
    match date_parts_try(dt) {
        Some(t) => t,
        None => (str_to_chars("0000"), str_to_chars("00"), str_to_chars("00")),
    }
}

/// The split of a well-formed `YYYY-MM-DD` head, or `None` when the
/// fallback parts apply.
fn date_parts_try(dt: &Vec<char>) -> (r: Option<(Vec<char>, Vec<char>, Vec<char>)>)
    ensures
        match r {
            Some(t) => date_parts_of(dt@) == (t.0@, t.1@, t.2@),
            None => date_parts_of(dt@) == ("0000"@, "00"@, "00"@),
        },
{
    if dt.len() < 10 {
        return None;
    }
    let head = copy_range(dt, 0, 10);
    proof {
        assert(head@ =~= dt@.take(10));
        assert(head@.skip(0) =~= head@);
    }
    let a = match crate::numeric::find_first_pos(&head, 0, '-') {
        Some(a) => a,
        None => {
            return None;
        },
    };
    let rest = copy_range(&head, a + 1, 10);
    proof {
        assert(rest@ =~= head@.skip(a + 1));
        assert(rest@.skip(0) =~= rest@);
    }
    let b = match crate::numeric::find_first_pos(&rest, 0, '-') {
        Some(b) => b,
        None => {
            return None;
        },
    };
    let third = copy_range(&rest, b + 1, rest.len());
    proof {
        assert(third@ =~= rest@.skip(b + 1));
        assert(third@.skip(0) =~= third@);
    }
    match crate::numeric::find_first_pos(&third, 0, '-') {
        Some(_) => None,
        None => {
            let y = copy_range(&head, 0, a);
            let mo = copy_range(&rest, 0, b);
            proof {
                assert(y@ =~= head@.take(a as int));
                assert(mo@ =~= rest@.take(b as int));
            }
            Some((y, mo, third))
        },
    }
}

// ── Template expansion ────────────────────────────────────────────────

/// The fully expanded template: each placeholder is replaced everywhere
/// by its value, in a fixed order.
pub open spec fn spec_expand(t: Seq<char>, file: FileEntry) -> Seq<char> {
    let parts = date_parts_of(file.modified_at@);
    let s1 = spec_replace(t, "{extension}"@, file.extension@);
    let s2 = spec_replace(s1, "{year}"@, parts.0);
    let s3 = spec_replace(s2, "{month}"@, parts.1);
    let s4 = spec_replace(s3, "{day}"@, parts.2);
    let s5 = spec_replace(s4, "{original}"@, stem_of(file.name@));
    spec_replace(s5, "{counter}"@, "1"@)
}

/// Expands template placeholders in a string using file metadata.
pub fn expand_template(template: &str, file: &FileEntry) -> (r: String)
    ensures
        r@ == spec_expand(template@, *file),
{
    let t = str_to_chars(template);
    let name = str_to_chars(file.name.as_str());
    let stem = crate::pathutil::stem_chars(&name);
    let dt = str_to_chars(file.modified_at.as_str());
    let (y, mo, d) = extract_date_part_chars(&dt);
    let s1 = replace_chars(&t, &str_to_chars("{extension}"), &str_to_chars(file.extension.as_str()));
    let s2 = replace_chars(&s1, &str_to_chars("{year}"), &y);
    let s3 = replace_chars(&s2, &str_to_chars("{month}"), &mo);
    let s4 = replace_chars(&s3, &str_to_chars("{day}"), &d);
    let s5 = replace_chars(&s4, &str_to_chars("{original}"), &stem);
    let s6 = replace_chars(&s5, &str_to_chars("{counter}"), &str_to_chars("1"));
    crate::text::chars_to_string(&s6)
}

// ── Idempotence ───────────────────────────────────────────────────────

/// The template holds one of the six placeholders.
pub open spec fn has_placeholder(t: Seq<char>) -> bool {
    ||| contains_seq(t, "{extension}"@)
    ||| contains_seq(t, "{year}"@)
    ||| contains_seq(t, "{month}"@)
    ||| contains_seq(t, "{day}"@)
    ||| contains_seq(t, "{original}"@)
    ||| contains_seq(t, "{counter}"@)
}

/// A template without placeholders expands to itself.
pub proof fn lemma_expand_identity(t: Seq<char>, file: FileEntry)
    requires
        !has_placeholder(t),
    ensures
        spec_expand(t, file) == t,
{
    lemma_replace_identity(t, "{extension}"@, file.extension@);
    lemma_replace_identity(t, "{year}"@, date_parts_of(file.modified_at@).0);
    lemma_replace_identity(t, "{month}"@, date_parts_of(file.modified_at@).1);
    lemma_replace_identity(t, "{day}"@, date_parts_of(file.modified_at@).2);
    lemma_replace_identity(t, "{original}"@, stem_of(file.name@));
    lemma_replace_identity(t, "{counter}"@, "1"@);
}

/// Template expansion is idempotent on templates without placeholders:
/// expanding an already expanded such template changes nothing.
pub proof fn lemma_expand_idempotent(t: Seq<char>, file: FileEntry)
    requires
        !has_placeholder(t),
    ensures
        spec_expand(spec_expand(t, file), file) == spec_expand(t, file),
{
    lemma_expand_identity(t, file);
}

} // verus!
