//! Building file records from directory entries.
//!
//! The caller enumerates the directory and reads each entry's
//! metadata; this module derives the record fields: the base name, the
//! lowercased extension without its dot, and the timestamps passed
//! through.

use vstd::prelude::*;
use crate::models::FileEntry;
use crate::pathutil::{base_name_of, extension_of};
use crate::text::{chars_to_string, str_to_chars};
use crate::trusted::{lower_of, to_lowercase};

verus! {

/// Builds a file record from one directory entry's path, size and
/// timestamps.
pub fn make_file_entry(
    path: &str,
    size: u64,
    created_at: String,
    modified_at: String,
) -> (r: FileEntry)
    ensures
        r.path@ == path@,
        r.name@ == base_name_of(path@),
        r.extension@ == lower_of(extension_of(base_name_of(path@))),
        r.size == size,
        r.created_at == created_at,
        r.modified_at == modified_at,
{
    let p = str_to_chars(path);
    let name = crate::pathutil::base_name_chars(&p);
    let (_, ext) = crate::pathutil::extension_chars(&name);
    let ext_str = chars_to_string(&ext);
    let extension = to_lowercase(ext_str.as_str());
    FileEntry {
        path: chars_to_string(&p),
        name: chars_to_string(&name),
        extension,
        size,
        created_at,
        modified_at,
    }
}

} // verus!
