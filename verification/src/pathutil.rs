//! Path handling over plain character sequences.
//!
//! Paths are strings; both `/` and `\` are treated as separators.  The
//! parent of a path is everything before its last separator, the base
//! name everything after it; a name's stem and extension split at the
//! last dot, except when that dot is the name's first character.

use vstd::prelude::*;

verus! {

pub open spec fn is_sep(c: char) -> bool {
    c == '/' || c == '\\'
}

/// Index of the last occurrence of `a` or `b` in `s`, or -1.
pub open spec fn last_pos2(s: Seq<char>, a: char, b: char) -> int
    decreases s.len(),
{
    if s.len() == 0 {
        -1
    } else if s.last() == a || s.last() == b {
        s.len() - 1
    } else {
        last_pos2(s.drop_last(), a, b)
    }
}

pub proof fn lemma_last_pos2(s: Seq<char>, a: char, b: char)
    ensures
        -1 <= last_pos2(s, a, b) < s.len(),
        last_pos2(s, a, b) >= 0 ==> (s[last_pos2(s, a, b)] == a || s[last_pos2(s, a, b)] == b),
        forall|j: int|
            last_pos2(s, a, b) < j < s.len() ==> (s[j] != a && s[j] != b),
    decreases s.len(),
{
    if s.len() > 0 {
        if s.last() == a || s.last() == b {
        } else {
            lemma_last_pos2(s.drop_last(), a, b);
            assert(forall|j: int|
                0 <= j < s.len() - 1 ==> s[j] == s.drop_last()[j]);
        }
    }
}

/// Finds the last occurrence of `a` or `b` in `v`.
pub fn find_last_pos2(v: &Vec<char>, a: char, b: char) -> (r: Option<usize>)
    ensures
        match r {
            Some(i) => i == last_pos2(v@, a, b),
            None => last_pos2(v@, a, b) == -1,
        },
{
    proof {
        lemma_last_pos2(v@, a, b);
    }
    let mut i: usize = v.len();
    while i > 0
        invariant
            i <= v@.len(),
            -1 <= last_pos2(v@, a, b) < v@.len(),
            last_pos2(v@, a, b) >= 0 ==> (v@[last_pos2(v@, a, b)] == a
                || v@[last_pos2(v@, a, b)] == b),
            forall|j: int| last_pos2(v@, a, b) < j < v@.len() ==> (v@[j] != a && v@[j] != b),
            forall|j: int| i <= j < v@.len() ==> (v@[j] != a && v@[j] != b),
        decreases i,
    {
        i = i - 1;
        if v[i] == a || v[i] == b {
            proof {
                let lp = last_pos2(v@, a, b);
                assert(lp >= i) by {
                    if lp < i as int {
                        assert(v@[i as int] != a && v@[i as int] != b);
                    }
                }
                assert(lp <= i) by {
                    if lp > i as int {
                        assert(v@[lp] != a && v@[lp] != b);
                    }
                }
            }
            return Some(i);
        }
    }
    None
}

/// The parent directory of a path: the part before the last separator;
/// the separator itself when the path starts at a root; empty when the
/// path has no separator at all.
pub open spec fn parent_of(s: Seq<char>) -> Seq<char> {
    let i = last_pos2(s, '/', '\\');
    if i < 0 {
        Seq::<char>::empty()
    } else if i == 0 {
        s.take(1)
    } else {
        s.take(i)
    }
}

pub fn parent_chars(v: &Vec<char>) -> (r: Vec<char>)
    ensures
        r@ == parent_of(v@),
{
    proof {
        lemma_last_pos2(v@, '/', '\\');
    }
    let mut r: Vec<char> = Vec::new();
    match find_last_pos2(v, '/', '\\') {
        None => r,
        Some(i) => {
            let end: usize = if i == 0 {
                1
            } else {
                i
            };
            let mut k: usize = 0;
            while k < end
                invariant
                    end <= v@.len(),
                    k <= end,
                    r@ == v@.take(k as int),
                decreases end - k,
            {
                r.push(v[k]);
                k = k + 1;
                proof {
                    assert(r@ =~= v@.take(k as int));
                }
            }
            r
        }
    }
}

/// The base name of a path: the part after the last separator.
pub open spec fn base_name_of(s: Seq<char>) -> Seq<char> {
    s.skip(last_pos2(s, '/', '\\') + 1)
}

pub fn base_name_chars(v: &Vec<char>) -> (r: Vec<char>)
    ensures
        r@ == base_name_of(v@),
{
    proof {
        lemma_last_pos2(v@, '/', '\\');
    }
    let n: usize = v.len();
    let start: usize = match find_last_pos2(v, '/', '\\') {
        None => 0,
        Some(i) => {
            proof {
                assert(i < n);
            }
            i + 1
        },
    };
    let mut r: Vec<char> = Vec::new();
    let mut k: usize = start;
    while k < v.len()
        invariant
            start <= v@.len(),
            start <= k <= v@.len(),
            r@ == v@.subrange(start as int, k as int),
        decreases v@.len() - k,
    {
        r.push(v[k]);
        k = k + 1;
        proof {
            assert(r@ =~= v@.subrange(start as int, k as int));
        }
    }
    proof {
        assert(r@ =~= v@.skip(start as int));
    }
    r
}

/// The stem of a file name: the part before the last dot, unless the
/// dot is the first character or absent, in which case the whole name.
pub open spec fn stem_of(name: Seq<char>) -> Seq<char> {
    let i = last_pos2(name, '.', '.');
    if i <= 0 {
        name
    } else {
        name.take(i)
    }
}

pub fn stem_chars(name: &Vec<char>) -> (r: Vec<char>)
    ensures
        r@ == stem_of(name@),
{
    proof {
        lemma_last_pos2(name@, '.', '.');
    }
    let end: usize = match find_last_pos2(name, '.', '.') {
        None => name.len(),
        Some(i) => if i == 0 {
            name.len()
        } else {
            i
        },
    };
    let mut r: Vec<char> = Vec::new();
    let mut k: usize = 0;
    while k < end
        invariant
            end <= name@.len(),
            k <= end,
            r@ == name@.take(k as int),
        decreases end - k,
    {
        r.push(name[k]);
        k = k + 1;
        proof {
            assert(r@ =~= name@.take(k as int));
        }
    }
    proof {
        assert(name@.take(name@.len() as int) =~= name@);
    }
    r
}

/// The extension of a file name, without the dot; empty when the name
/// has no dot past its first character.
pub open spec fn extension_of(name: Seq<char>) -> Seq<char> {
    let i = last_pos2(name, '.', '.');
    if i <= 0 {
        Seq::<char>::empty()
    } else {
        name.skip(i + 1)
    }
}

/// Whether a file name has an extension position at all (a dot past the
/// first character); `x.` has one, and its extension is empty.
pub open spec fn has_extension(name: Seq<char>) -> bool {
    last_pos2(name, '.', '.') > 0
}

pub fn extension_chars(name: &Vec<char>) -> (r: (bool, Vec<char>))
    ensures
        r.0 == has_extension(name@),
        r.1@ == extension_of(name@),
{
    proof {
        lemma_last_pos2(name@, '.', '.');
    }
    let mut r: Vec<char> = Vec::new();
    match find_last_pos2(name, '.', '.') {
        None => (false, r),
        Some(i) => {
            if i == 0 {
                (false, r)
            } else {
                let n: usize = name.len();
                proof {
                    assert(i < n);
                }
                let mut k: usize = i + 1;
                while k < name.len()
                    invariant
                        0 < i + 1 <= v_len(name@),
                        i + 1 <= k <= name@.len(),
                        r@ == name@.subrange(i + 1, k as int),
                    decreases name@.len() - k,
                {
                    r.push(name[k]);
                    k = k + 1;
                    proof {
                        assert(r@ =~= name@.subrange(i + 1, k as int));
                    }
                }
                proof {
                    assert(r@ =~= name@.skip(i + 1));
                }
                (true, r)
            }
        }
    }
}

/// Helper so invariants can talk about a sequence length.
pub open spec fn v_len(s: Seq<char>) -> int {
    s.len() as int
}

/// Joining a directory and a name: concatenation with a `/` in between,
/// except when the directory is empty or already ends in a separator.
pub open spec fn join_of(dir: Seq<char>, name: Seq<char>) -> Seq<char> {
    if dir.len() == 0 {
        name
    } else if is_sep(dir.last()) {
        dir + name
    } else {
        dir + seq!['/'] + name
    }
}

/// Appends `src` to `dst`.
pub fn append_chars(dst: &mut Vec<char>, src: &Vec<char>)
    ensures
        final(dst)@ == old(dst)@ + src@,
{
    let mut k: usize = 0;
    while k < src.len()
        invariant
            k <= src@.len(),
            dst@ == old(dst)@ + src@.take(k as int),
        decreases src@.len() - k,
    {
        dst.push(src[k]);
        k = k + 1;
        proof {
            assert(dst@ =~= old(dst)@ + src@.take(k as int));
        }
    }
    proof {
        assert(old(dst)@ + src@.take(src@.len() as int) =~= old(dst)@ + src@);
    }
}

pub fn join_chars(dir: &Vec<char>, name: &Vec<char>) -> (r: Vec<char>)
    ensures
        r@ == join_of(dir@, name@),
{
    let mut r: Vec<char> = Vec::new();
    if dir.len() == 0 {
        append_chars(&mut r, name);
        return r;
    }
    append_chars(&mut r, dir);
    let lastc = dir[dir.len() - 1];
    if !(lastc == '/' || lastc == '\\') {
        r.push('/');
        proof {
            assert(r@ =~= dir@ + seq!['/']);
        }
    }
    append_chars(&mut r, name);
    r
}

} // verus!
