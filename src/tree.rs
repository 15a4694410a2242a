//! Entries of a directory listing within a commit's tree.

use vstd::prelude::*;

verus! {

/// One entry of a tree listing.
pub struct CommitFile {
    pub name: String,
    pub is_dir: bool,
    /// The size in bytes, for files.
    pub size: Option<usize>,
}

impl CommitFile {
    /// A directory entry.
    pub fn directory(name: String) -> (r: CommitFile)
        ensures
            r.name == name,
            r.is_dir,
            r.size is None,
    {
        CommitFile { name, is_dir: true, size: None }
    }

    /// A file entry of the given size.
    pub fn file(name: String, size: usize) -> (r: CommitFile)
        ensures
            r.name == name,
            !r.is_dir,
            r.size == Some(size),
    {
        CommitFile { name, is_dir: false, size: Some(size) }
    }
}

} // verus!
