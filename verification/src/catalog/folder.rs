//! What a directory of the storage holds, once it was read.
use vstd::prelude::*;

verus! {

/// A file: its name, how many bytes it holds, and those of them that were read.
pub struct FileEntry {
    pub name: String,
    pub size: u64,
    pub bytes: Vec<u8>,
}

/// A directory: its name, its files and the directories in it.
pub struct Folder {
    pub name: String,
    pub files: Vec<FileEntry>,
    pub folders: Vec<Folder>,
}

} // verus!
