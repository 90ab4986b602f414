//! What the file system held at some paths, as observed once: the library
//! decides from these facts, and the caller gathers them.

use vstd::prelude::*;
use crate::order::strs;

verus! {

/// The kinds of the paths that were looked at.
pub struct PathFacts {
    /// Paths that are directories.
    pub dirs: Vec<String>,
    /// Paths that are regular files.
    pub files: Vec<String>,
    /// Geode `game` folders whose media tree could be listed and read.
    pub readable_game_dirs: Vec<String>,
}

impl PathFacts {
    /// `Path::is_dir` as observed.
    pub open spec fn has_dir(&self, p: Seq<char>) -> bool {
        strs(self.dirs@).contains(p)
    }

    /// `Path::is_file` as observed.
    pub open spec fn has_file(&self, p: Seq<char>) -> bool {
        strs(self.files@).contains(p)
    }

    /// `Path::exists` as observed.
    pub open spec fn has_path(&self, p: Seq<char>) -> bool {
        self.has_dir(p) || self.has_file(p)
    }

    /// Whether the Geode media tree under a `game` folder was readable.
    pub open spec fn readable_game(&self, p: Seq<char>) -> bool {
        strs(self.readable_game_dirs@).contains(p)
    }

    /// No facts: nothing exists.
    pub fn empty() -> (r: PathFacts)
        ensures
            r.dirs@.len() == 0,
            r.files@.len() == 0,
            r.readable_game_dirs@.len() == 0,
            forall|p: Seq<char>| !r.has_dir(p) && !r.has_file(p) && !r.readable_game(p),
    {
        PathFacts { dirs: Vec::new(), files: Vec::new(), readable_game_dirs: Vec::new() }
    }

    /// Whether `p` is a directory.
    pub fn is_dir(&self, p: &str) -> (r: bool)
        ensures
            r == self.has_dir(p@),
    {
        list_contains(&self.dirs, p)
    }

    /// Whether `p` is a regular file.
    pub fn is_file(&self, p: &str) -> (r: bool)
        ensures
            r == self.has_file(p@),
    {
        list_contains(&self.files, p)
    }

    /// Whether `p` exists.
    pub fn path_exists(&self, p: &str) -> (r: bool)
        ensures
            r == self.has_path(p@),
    {
        self.is_dir(p) || self.is_file(p)
    }

    /// Whether the Geode media tree under the `game` folder `p` was readable.
    pub fn game_storage_readable(&self, p: &str) -> (r: bool)
        ensures
            r == self.readable_game(p@),
    {
        list_contains(&self.readable_game_dirs, p)
    }
}

/// Whether `v` holds a string equal to `s`.
pub fn list_contains(v: &Vec<String>, s: &str) -> (r: bool)
    ensures
        r == strs(v@).contains(s@),
{
    let mut i: usize = 0;
    while i < v.len()
        invariant
            i <= v.len(),
            forall|k: int| 0 <= k < i ==> v@[k]@ != s@,
        decreases v.len() - i,
    {
        if v[i].as_str().unicode_len() == s.unicode_len() && str_eq(v[i].as_str(), s) {
            proof {
                assert(strs(v@)[i as int] == s@);
            }
            return true;
        }
        i = i + 1;
    }
    proof {
        if strs(v@).contains(s@) {
            let k = choose|k: int| 0 <= k < strs(v@).len() && strs(v@)[k] == s@;
            assert(v@[k]@ == s@);
        }
    }
    false
}

/// Equality of two strings.
pub fn str_eq(a: &str, b: &str) -> (r: bool)
    ensures
        r == (a@ == b@),
{
    let n = a.unicode_len();
    if n != b.unicode_len() {
        return false;
    }
    let mut i: usize = 0;
    while i < n
        invariant
            n == a@.len() == b@.len(),
            i <= n,
            forall|k: int| 0 <= k < i ==> a@[k] == b@[k],
        decreases n - i,
    {
        if a.get_char(i) != b.get_char(i) {
            return false;
        }
        i = i + 1;
    }
    assert(a@ =~= b@);
    true
}

} // verus!
