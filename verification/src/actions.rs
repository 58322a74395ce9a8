//! The action resolver: one action against one file yields the
//! destination path the file should move to, or nothing for actions
//! that do not move files.

use vstd::prelude::*;
use vstd::string::StrSliceExecFns;
use crate::models::{FileEntry, RuleAction};
use crate::pathutil::{join_chars, join_of, parent_chars, parent_of};
use crate::template::{expand_template, spec_expand};
use crate::text::{chars_is, chars_to_string, str_to_chars};

verus! {

/// The destination path an action produces for a file.
///
/// `move`, `copy` and `move_to_folder` place the file under the
/// expanded destination; `move_to_subfolder` places it under a
/// subfolder of the file's own directory; `rename` keeps the directory
/// and changes the name; tag and delete actions produce no path, and
/// neither does an unknown action type.
pub open spec fn spec_resolve_action(file: FileEntry, action: RuleAction) -> Option<Seq<char>> {
    let at = action.action_type@;
    if at == "move"@ || at == "copy"@ || at == "move_to_folder"@ {
        if action.destination@.len() == 0 {
            None
        } else {
            let dest_dir = spec_expand(action.destination@, file);
            if action.rename_pattern@.len() == 0 {
                Some(join_of(dest_dir, file.name@))
            } else {
                Some(join_of(dest_dir, spec_expand(action.rename_pattern@, file)))
            }
        }
    } else if at == "move_to_subfolder"@ {
        if action.destination@.len() == 0 {
            None
        } else {
            let dest_dir = join_of(parent_of(file.path@), spec_expand(action.destination@, file));
            if action.rename_pattern@.len() == 0 {
                Some(join_of(dest_dir, file.name@))
            } else {
                Some(join_of(dest_dir, spec_expand(action.rename_pattern@, file)))
            }
        }
    } else if at == "rename"@ {
        if action.rename_pattern@.len() == 0 {
            None
        } else {
            Some(join_of(parent_of(file.path@), spec_expand(action.rename_pattern@, file)))
        }
    } else {
        None
    }
}

/// Resolves an action to compute the final destination path for a file.
///
/// The destination string and rename pattern can contain the template
/// placeholders of [`spec_expand`].  Returns `None` for actions that do
/// not produce a path (tags, deletes, unknown types).
pub fn resolve_action(file: &FileEntry, action: &RuleAction) -> (r: Option<String>)
    ensures
        match r {
            Some(p) => spec_resolve_action(*file, *action) == Some(p@),
            None => spec_resolve_action(*file, *action) is None,
        },
{
    let at = str_to_chars(action.action_type.as_str());
    if chars_is(&at, "move") || chars_is(&at, "copy") || chars_is(&at, "move_to_folder") {
        if action.destination.as_str().unicode_len() == 0 {
            return None;
        }
        let dest_dir = expand_template(action.destination.as_str(), file);
        let dd = str_to_chars(dest_dir.as_str());
        if action.rename_pattern.as_str().unicode_len() == 0 {
            let name = str_to_chars(file.name.as_str());
            Some(chars_to_string(&join_chars(&dd, &name)))
        } else {
            let new_name = expand_template(action.rename_pattern.as_str(), file);
            let nn = str_to_chars(new_name.as_str());
            Some(chars_to_string(&join_chars(&dd, &nn)))
        }
    } else if chars_is(&at, "move_to_subfolder") {
        if action.destination.as_str().unicode_len() == 0 {
            return None;
        }
        let path = str_to_chars(file.path.as_str());
        let parent = parent_chars(&path);
        let sub = expand_template(action.destination.as_str(), file);
        let dest_dir = join_chars(&parent, &str_to_chars(sub.as_str()));
        if action.rename_pattern.as_str().unicode_len() == 0 {
            let name = str_to_chars(file.name.as_str());
            Some(chars_to_string(&join_chars(&dest_dir, &name)))
        } else {
            let new_name = expand_template(action.rename_pattern.as_str(), file);
            let nn = str_to_chars(new_name.as_str());
            Some(chars_to_string(&join_chars(&dest_dir, &nn)))
        }
    } else if chars_is(&at, "rename") {
        if action.rename_pattern.as_str().unicode_len() == 0 {
            return None;
        }
        let path = str_to_chars(file.path.as_str());
        let parent = parent_chars(&path);
        let new_name = expand_template(action.rename_pattern.as_str(), file);
        let nn = str_to_chars(new_name.as_str());
        Some(chars_to_string(&join_chars(&parent, &nn)))
    } else {
        None
    }
}

} // verus!
