//! A view of the relevant part of the filesystem: which paths exist as
//! files and which as directories.
//!
//! The engine never touches the disk; callers feed it the directory
//! entries the run concerns and perform the real moves, keeping the view
//! in step.  All reasoning about existence probes, conflicts and
//! rollback happens against this model.

use vstd::prelude::*;
use crate::text::str_eq;

verus! {

/// A path occurs in a list of paths.
pub open spec fn path_in(list: Seq<String>, p: Seq<char>) -> bool {
    exists|i: int| 0 <= i < list.len() && list[i]@ == p
}

pub proof fn lemma_path_in_push(list: Seq<String>, x: String, k: Seq<char>)
    ensures
        path_in(list.push(x), k) <==> (path_in(list, k) || x@ == k),
{
    if path_in(list.push(x), k) {
        let i = choose|i: int| 0 <= i < list.push(x).len() && list.push(x)[i]@ == k;
        if i < list.len() {
            assert(list[i]@ == k);
        } else {
            assert(x@ == k);
        }
    }
    if path_in(list, k) {
        let i = choose|i: int| 0 <= i < list.len() && list[i]@ == k;
        assert(list.push(x)[i]@ == k);
    }
    if x@ == k {
        assert(list.push(x)[list.len() as int]@ == k);
    }
}

/// The filesystem as the engine sees it.
pub struct FsView {
    pub files: Vec<String>,
    pub dirs: Vec<String>,
}

impl FsView {
    /// A file exists at this path.
    pub open spec fn has_file(&self, p: Seq<char>) -> bool {
        path_in(self.files@, p)
    }

    /// A directory exists at this path.
    pub open spec fn has_dir(&self, p: Seq<char>) -> bool {
        path_in(self.dirs@, p)
    }

    /// Anything exists at this path.
    pub open spec fn exists_at(&self, p: Seq<char>) -> bool {
        self.has_file(p) || self.has_dir(p)
    }

    /// An empty view.
    pub fn new() -> (r: Self)
        ensures
            forall|p: Seq<char>| !#[trigger] r.has_file(p),
            forall|p: Seq<char>| !#[trigger] r.has_dir(p),
    {
        FsView { files: Vec::new(), dirs: Vec::new() }
    }

    /// Whether a file exists at `p`.
    pub fn file_exists(&self, p: &str) -> (r: bool)
        ensures
            r == self.has_file(p@),
    {
        list_contains(&self.files, p)
    }

    /// Whether a directory exists at `p`.
    pub fn dir_exists(&self, p: &str) -> (r: bool)
        ensures
            r == self.has_dir(p@),
    {
        list_contains(&self.dirs, p)
    }

    /// Whether anything exists at `p`.
    pub fn exists_path(&self, p: &str) -> (r: bool)
        ensures
            r == self.exists_at(p@),
    {
        self.file_exists(p) || self.dir_exists(p)
    }

    /// Records a file at `p`.
    pub fn add_file(&mut self, p: String)
        ensures
            forall|k: Seq<char>|
                #[trigger] final(self).has_file(k) <==> (old(self).has_file(k) || k == p@),
            final(self).dirs@ == old(self).dirs@,
    {
        let ghost pv = p@;
        let ghost before = self.files@;
        self.files.push(p);
        proof {
            assert forall|k: Seq<char>| #[trigger]
                self.has_file(k) <==> (path_in(before, k) || k == pv) by {
                lemma_path_in_push(before, self.files@.last(), k);
            }
        }
    }

    /// Records a directory at `p`.
    pub fn add_dir(&mut self, p: String)
        ensures
            forall|k: Seq<char>|
                #[trigger] final(self).has_dir(k) <==> (old(self).has_dir(k) || k == p@),
            final(self).files@ == old(self).files@,
    {
        let ghost pv = p@;
        let ghost before = self.dirs@;
        self.dirs.push(p);
        proof {
            assert forall|k: Seq<char>| #[trigger]
                self.has_dir(k) <==> (path_in(before, k) || k == pv) by {
                lemma_path_in_push(before, self.dirs@.last(), k);
            }
        }
    }

    /// Forgets the file at `p`.
    pub fn remove_file(&mut self, p: &str)
        ensures
            forall|k: Seq<char>|
                #[trigger] final(self).has_file(k) <==> (old(self).has_file(k) && k != p@),
            final(self).dirs@ == old(self).dirs@,
    {
        let n: usize = self.files.len();
        let mut kept: Vec<String> = Vec::new();
        let mut i: usize = 0;
        while i < n
            invariant
                n == self.files@.len(),
                i <= n,
                forall|k: Seq<char>|
                    #[trigger] path_in(kept@, k) <==> (path_in(self.files@.take(i as int), k) && k
                        != p@),
            decreases n - i,
        {
            let ghost before = kept@;
            let keep = !str_eq(self.files[i].as_str(), p);
            if keep {
                let item = self.files[i].clone();
                kept.push(item);
            }
            proof {
                let prefix = self.files@.take(i as int);
                let prefix1 = self.files@.take(i + 1);
                assert(prefix1 =~= prefix.push(self.files@[i as int]));
                assert forall|k: Seq<char>| #[trigger]
                    path_in(kept@, k) <==> (path_in(prefix1, k) && k != p@) by {
                    lemma_path_in_push(prefix, self.files@[i as int], k);
                    if keep {
                        lemma_path_in_push(before, kept@.last(), k);
                    }
                }
            }
            i = i + 1;
        }
        proof {
            assert(self.files@.take(n as int) =~= self.files@);
        }
        self.files = kept;
    }
}

/// Whether some entry of `list` spells `p`.
fn list_contains(list: &Vec<String>, p: &str) -> (r: bool)
    ensures
        r == path_in(list@, p@),
{
    let n: usize = list.len();
    let mut i: usize = 0;
    while i < n
        invariant
            n == list@.len(),
            i <= n,
            forall|j: int| 0 <= j < i ==> list@[j]@ != p@,
        decreases n - i,
    {
        if str_eq(list[i].as_str(), p) {
            return true;
        }
        i = i + 1;
    }
    proof {
        if path_in(list@, p@) {
            let j = choose|j: int| 0 <= j < list@.len() && list@[j]@ == p@;
            assert(list@[j]@ != p@);
        }
    }
    false
}

} // verus!
