use vstd::prelude::*;

verus! {

/// One filesystem object met during the walk, other than the root itself.
/// `depth` counts from the root's immediate children, which are at depth 0.
pub struct DirEntryInfo {
    pub name: String,
    pub is_dir: bool,
    pub depth: usize,
}

/// A non-directory entry whose content was read as text.
/// `path` is the entry's path relative to the root.
pub struct FileInfo {
    pub path: String,
    pub content: String,
}

impl DirEntryInfo {
    pub fn new(name: String, is_dir: bool, depth: usize) -> (r: DirEntryInfo)
        ensures
            r.name@ == name@,
            r.is_dir == is_dir,
            r.depth == depth,
    {
        DirEntryInfo { name, is_dir, depth }
    }
}

impl FileInfo {
    pub fn new(path: String, content: String) -> (r: FileInfo)
        ensures
            r.path@ == path@,
            r.content@ == content@,
    {
        FileInfo { path, content }
    }
}

} // verus!
