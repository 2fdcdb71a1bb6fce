//! The record kept for one regular file.

use vstd::multiset::Multiset;
use vstd::prelude::*;

verus! {

/// One regular file found under the root of a scan.
#[derive(Debug)]
pub struct FileInfo {
    /// Base name of the file.
    pub name: String,
    /// Length of the file in bytes.
    pub size: u64,
    /// Full path of the file.
    pub path: String,
}

/// What a [`FileInfo`] stands for in contracts.
pub struct FileInfoView {
    pub name: Seq<char>,
    pub size: nat,
    pub path: Seq<char>,
}

impl View for FileInfo {
    type V = FileInfoView;

    open spec fn view(&self) -> FileInfoView {
        FileInfoView { name: self.name@, size: self.size as nat, path: self.path@ }
    }
}

/// The views of the records of `s`, in the same order.
pub open spec fn views_of(s: Seq<FileInfo>) -> Seq<FileInfoView> {
    s.map_values(|f: FileInfo| f@)
}

/// The records of `s` as a multiset of views: what `s` holds, whatever the
/// order.
pub open spec fn records_of(s: Seq<FileInfo>) -> Multiset<FileInfoView> {
    views_of(s).to_multiset()
}

impl Clone for FileInfo {
    /// A second record of the same file.
    fn clone(&self) -> (copy: Self)
        ensures
            copy == *self,
    {
        FileInfo { name: self.name.clone(), size: self.size, path: self.path.clone() }
    }
}

impl FileInfo {
    /// Makes the record of a file from its name, its length and its path.
    pub fn new(file_name: String, file_size: u64, path: String) -> (info: Self)
        ensures
            info.name == file_name,
            info.size == file_size,
            info.path == path,
            info@ == (FileInfoView { name: file_name@, size: file_size as nat, path: path@ }),
    {
        FileInfo { name: file_name, size: file_size, path: path }
    }
}

} // verus!
