//! The conflict resolver: what to do when a destination already exists.
//!
//! `suffix` appends `_1`, `_2`, … to the stem until a free path is
//! found (capped at 10,000 tries); `conflict_folder` quarantines the
//! file in a `Conflicts` subfolder, suffixing inside it on a second
//! collision; `skip` returns the path unchanged; anything else falls
//! back to `suffix`.

use vstd::prelude::*;
use crate::fsview::FsView;
use crate::numeric::u64_digits;
use crate::pathutil::{
    base_name_chars, base_name_of, extension_chars, extension_of, has_extension, join_chars,
    join_of, parent_chars, parent_of, stem_chars, stem_of,
};
use crate::text::{chars_is, chars_to_string, str_to_chars};

verus! {

/// The `.ext` tail a candidate keeps, empty when the name has none.
pub open spec fn ext_tail(name: Seq<char>) -> Seq<char> {
    if has_extension(name) {
        seq!['.'] + extension_of(name)
    } else {
        Seq::<char>::empty()
    }
}

/// The k-th suffix candidate: `parent/stem_k.ext`.
pub open spec fn suffix_candidate(path: Seq<char>, k: int) -> Seq<char> {
    let name = base_name_of(path);
    join_of(parent_of(path), stem_of(name) + seq!['_'] + u64_digits(k) + ext_tail(name))
}

/// The path `suffix` resolution settles on, counting upward from `k`:
/// the first free candidate, or the 10,000th candidate if none below it
/// is free.
pub open spec fn suffix_from(path: Seq<char>, fs: FsView, k: int) -> Seq<char>
    decreases 10000 - k,
{
    if k >= 10000 {
        suffix_candidate(path, 10000)
    } else if !fs.exists_at(suffix_candidate(path, k)) {
        suffix_candidate(path, k)
    } else {
        suffix_from(path, fs, k + 1)
    }
}

pub open spec fn spec_resolve_suffix(path: Seq<char>, fs: FsView) -> Seq<char> {
    suffix_from(path, fs, 1)
}

/// When any candidate numbered 1 to 10,000 is free, `suffix` resolution
/// never returns an existing path.
pub proof fn lemma_suffix_never_collides(path: Seq<char>, fs: FsView)
    requires
        exists|k: int| 1 <= k <= 10000 && !fs.exists_at(#[trigger] suffix_candidate(path, k)),
    ensures
        !fs.exists_at(spec_resolve_suffix(path, fs)),
{
    lemma_suffix_from_free(path, fs, 1);
}

proof fn lemma_suffix_from_free(path: Seq<char>, fs: FsView, k: int)
    requires
        1 <= k <= 10000,
        exists|j: int| k <= j <= 10000 && !fs.exists_at(#[trigger] suffix_candidate(path, j)),
    ensures
        !fs.exists_at(suffix_from(path, fs, k)),
    decreases 10000 - k,
{
    if k == 10000 {
        assert(!fs.exists_at(suffix_candidate(path, 10000)));
    } else if !fs.exists_at(suffix_candidate(path, k)) {
    } else {
        let j = choose|j: int|
            k <= j <= 10000 && !fs.exists_at(#[trigger] suffix_candidate(path, j));
        assert(k + 1 <= j <= 10000 && !fs.exists_at(suffix_candidate(path, j)));
        lemma_suffix_from_free(path, fs, k + 1);
    }
}

/// Adds a numeric suffix (`_1`, `_2`, …) to the file stem until no
/// entry with that name exists in the view, giving up after 10,000
/// tries.
pub fn resolve_suffix(path: &str, fs: &FsView) -> (r: String)
    ensures
        r@ == spec_resolve_suffix(path@, *fs),
{
    let p = str_to_chars(path);
    let parent = parent_chars(&p);
    let name = base_name_chars(&p);
    let stem = stem_chars(&name);
    let (has_ext, ext) = extension_chars(&name);
    let mut counter: u64 = 1;
    loop
        invariant
            p@ == path@,
            parent@ == parent_of(path@),
            name@ == base_name_of(path@),
            stem@ == stem_of(name@),
            has_ext == has_extension(name@),
            ext@ == extension_of(name@),
            1 <= counter <= 10000,
            suffix_from(path@, *fs, counter as int) == spec_resolve_suffix(path@, *fs),
        decreases 10000 - counter,
    {
        let mut tail: Vec<char> = Vec::new();
        crate::pathutil::append_chars(&mut tail, &stem);
        tail.push('_');
        let digits = crate::numeric::u64_to_chars(counter);
        crate::pathutil::append_chars(&mut tail, &digits);
        if has_ext {
            tail.push('.');
            crate::pathutil::append_chars(&mut tail, &ext);
        }
        proof {
            assert(tail@ =~= stem_of(name@) + seq!['_'] + u64_digits(counter as int) + ext_tail(
                name@,
            ));
        }
        let candidate = join_chars(&parent, &tail);
        let cand_str = chars_to_string(&candidate);
        proof {
            assert(cand_str@ == suffix_candidate(path@, counter as int));
        }
        if !fs.exists_path(cand_str.as_str()) {
            return cand_str;
        }
        if counter >= 10000 {
            return cand_str;
        }
        counter = counter + 1;
    }
}

/// What `conflict_folder` resolution yields: the base name moved into a
/// `Conflicts` folder beside the destination, suffixed if that also
/// exists.
pub open spec fn spec_resolve_conflict_folder(path: Seq<char>, fs: FsView) -> Seq<char> {
    let conflicts_dir = join_of(parent_of(path), "Conflicts"@);
    let candidate = join_of(conflicts_dir, base_name_of(path));
    if fs.exists_at(candidate) {
        spec_resolve_suffix(candidate, fs)
    } else {
        candidate
    }
}

/// Moves the file into a `Conflicts` subfolder within the same parent
/// directory, suffixing inside it when the name is taken there too.
/// The caller creates the folder on disk.
pub fn resolve_conflict_folder(path: &str, fs: &FsView) -> (r: String)
    ensures
        r@ == spec_resolve_conflict_folder(path@, *fs),
{
    let p = str_to_chars(path);
    let parent = parent_chars(&p);
    let conflicts_dir = join_chars(&parent, &str_to_chars("Conflicts"));
    let name = base_name_chars(&p);
    let candidate = join_chars(&conflicts_dir, &name);
    let cand_str = chars_to_string(&candidate);
    if fs.exists_path(cand_str.as_str()) {
        resolve_suffix(cand_str.as_str(), fs)
    } else {
        cand_str
    }
}

/// The path the chosen strategy settles on.
pub open spec fn spec_resolve_conflict(path: Seq<char>, strategy: Seq<char>, fs: FsView) -> Seq<
    char,
> {
    if strategy == "suffix"@ {
        spec_resolve_suffix(path, fs)
    } else if strategy == "conflict_folder"@ {
        spec_resolve_conflict_folder(path, fs)
    } else if strategy == "skip"@ {
        path
    } else {
        spec_resolve_suffix(path, fs)
    }
}

/// Resolves a file conflict at the given path based on the specified
/// strategy: `suffix`, `conflict_folder`, or `skip`; an unknown
/// strategy falls back to `suffix`.
pub fn resolve_conflict(path: &str, strategy: &str, fs: &FsView) -> (r: String)
    ensures
        r@ == spec_resolve_conflict(path@, strategy@, *fs),
{
    let s = str_to_chars(strategy);
    if chars_is(&s, "suffix") {
        resolve_suffix(path, fs)
    } else if chars_is(&s, "conflict_folder") {
        resolve_conflict_folder(path, fs)
    } else if chars_is(&s, "skip") {
        let p = str_to_chars(path);
        chars_to_string(&p)
    } else {
        resolve_suffix(path, fs)
    }
}

} // verus!
