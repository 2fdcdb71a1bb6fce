//! The walk over a directory tree, as a state machine.
//!
//! The scan does not read the file system itself. It names the directory to
//! read next, the caller reads it and hands back what it found, and the scan
//! decides what becomes of each entry: a file is offered to the selector, a
//! directory waits for its own turn, an entry that could not be read is
//! skipped. A directory that cannot be read ends the scan only if it is the
//! root.

use crate::file_info::{records_of, views_of, FileInfo, FileInfoView};
use crate::selector::Selector;
use crate::top_k::{is_top_k, min_nat, sorted_descending};
use vstd::prelude::*;

verus! {

/// One entry of a directory, as the caller read it.
#[derive(Debug)]
pub enum Entry {
    /// A regular file, with its base name, its length in bytes and its path.
    File { name: String, size: u64, path: String },
    /// A directory, with its path.
    Directory { path: String },
    /// An entry whose name, kind or length could not be read.
    Unreadable,
}

/// What came of reading one directory.
#[derive(Debug)]
pub enum Listing {
    /// The directory was read: its entries, in the order they came.
    Entries(Vec<Entry>),
    /// The directory could not be read.
    Unreadable,
}

/// Why a directory contributed nothing to a scan.
#[derive(Debug, Clone, Copy, PartialEq, Eq, Structural)]
pub enum ScanError {
    /// The root could not be read. The scan has failed and gives no result.
    RootUnreadable,
    /// A directory below the root could not be read. Its subtree is left out
    /// and the scan goes on.
    SubtreeUnreadable,
}

impl ScanError {
    /// Whether the error ends the scan.
    pub fn is_fatal(&self) -> (fatal: bool)
        ensures
            fatal == (*self == ScanError::RootUnreadable),
    {
        match self {
            ScanError::RootUnreadable => true,
            ScanError::SubtreeUnreadable => false,
        }
    }
}

/// The files among `entries`, in their order.
pub open spec fn files_of(entries: Seq<Entry>) -> Seq<FileInfoView>
    decreases entries.len(),
{
    if entries.len() == 0 {
        Seq::empty()
    } else {
        let before = files_of(entries.drop_last());
        match entries.last() {
            Entry::File { name, size, path } => before.push(
                FileInfoView { name: name@, size: size as nat, path: path@ },
            ),
            _ => before,
        }
    }
}

/// The paths of the directories among `entries`, in their order.
pub open spec fn directories_of(entries: Seq<Entry>) -> Seq<Seq<char>>
    decreases entries.len(),
{
    if entries.len() == 0 {
        Seq::empty()
    } else {
        let before = directories_of(entries.drop_last());
        match entries.last() {
            Entry::Directory { path } => before.push(path@),
            _ => before,
        }
    }
}

/// The number of entries among `entries` that could not be read.
pub open spec fn unreadable_in(entries: Seq<Entry>) -> nat
    decreases entries.len(),
{
    if entries.len() == 0 {
        0
    } else {
        let before = unreadable_in(entries.drop_last());
        match entries.last() {
            Entry::Unreadable => before + 1,
            _ => before,
        }
    }
}

/// The views of the paths in `paths`.
pub open spec fn paths_of(paths: Seq<String>) -> Seq<Seq<char>> {
    paths.map_values(|p: String| p@)
}

/// A directory that the scan asks its caller to read.
#[derive(Debug)]
pub struct Visit {
    path: String,
    is_root: bool,
}

impl Visit {
    /// The path of the directory.
    pub closed spec fn spec_path(&self) -> Seq<char> {
        self.path@
    }

    /// Whether the directory is the root of the scan.
    pub closed spec fn spec_is_root(&self) -> bool {
        self.is_root
    }

    /// The path of the directory.
    pub fn path(&self) -> (path: &String)
        ensures
            path@ == self.spec_path(),
    {
        &self.path
    }

    /// Whether the directory is the root of the scan.
    pub fn is_root(&self) -> (is_root: bool)
        ensures
            is_root == self.spec_is_root(),
    {
        self.is_root
    }
}

/// A scan in progress.
pub struct Scan {
    selector: Selector,
    pending: Vec<String>,
    root_pending: bool,
    failed: bool,
}

impl Scan {
    /// The scan is valid.
    pub closed spec fn wf(&self) -> bool {
        self.selector.wf()
    }

    /// The number of files the scan returns at most.
    pub closed spec fn spec_capacity(&self) -> nat {
        self.selector.spec_capacity()
    }

    /// Every file met so far, in the order they were met.
    pub closed spec fn offered(&self) -> Seq<FileInfoView> {
        self.selector.offered()
    }

    /// The directories still to read. The last one is read next.
    pub closed spec fn pending(&self) -> Seq<Seq<char>> {
        paths_of(self.pending@)
    }

    /// Whether the root is still to be read.
    pub closed spec fn root_pending(&self) -> bool {
        self.root_pending
    }

    /// Whether the root could not be read.
    pub closed spec fn failed(&self) -> bool {
        self.failed
    }

    /// Starts a scan of the tree under `root` that feeds `selector`.
    pub fn new(root: String, selector: Selector) -> (scan: Self)
        requires
            selector.wf(),
        ensures
            scan.wf(),
            scan.spec_capacity() == selector.spec_capacity(),
            scan.offered() == selector.offered(),
            scan.pending() == seq![root@],
            scan.root_pending(),
            !scan.failed(),
    {
        let mut pending = Vec::new();
        pending.push(root);
        let scan = Scan { selector, pending, root_pending: true, failed: false };
        assert(paths_of(scan.pending@) =~= seq![root@]);
        scan
    }

    /// The directory to read next, or `None` when none is left or the scan
    /// has failed. The caller reads it and hands the outcome to `feed`.
    pub fn next_dir(&mut self) -> (visit: Option<Visit>)
        requires
            old(self).wf(),
        ensures
            final(self).wf(),
            final(self).spec_capacity() == old(self).spec_capacity(),
            final(self).offered() == old(self).offered(),
            final(self).failed() == old(self).failed(),
            visit is None <==> old(self).failed() || old(self).pending().len() == 0,
            visit is None ==> {
                &&& final(self).pending() == old(self).pending()
                &&& final(self).root_pending() == old(self).root_pending()
            },
            visit matches Some(v) ==> {
                &&& v.spec_path() == old(self).pending().last()
                &&& v.spec_is_root() == old(self).root_pending()
                &&& final(self).pending() == old(self).pending().drop_last()
                &&& !final(self).root_pending()
            },
    {
        if self.failed {
            return None;
        }
        let ghost before = self.pending@;
        match self.pending.pop() {
            None => None,
            Some(path) => {
                let is_root = self.root_pending;
                self.root_pending = false;
                assert(paths_of(self.pending@) =~= paths_of(before).drop_last());
                Some(Visit { path, is_root })
            },
        }
    }

    /// Takes what the caller found when it read the directory of `visit`.
    ///
    /// Of a directory that was read, every file is offered to the selector,
    /// every directory is put with those still to read, and the entries
    /// that could not be read are skipped: their number is returned. A
    /// directory that could not be read is left out, which is an error that
    /// ends the scan only if the directory is the root.
    pub fn feed(&mut self, visit: Visit, listing: Listing) -> (step: Result<usize, ScanError>)
        requires
            old(self).wf(),
        ensures
            final(self).wf(),
            final(self).spec_capacity() == old(self).spec_capacity(),
            final(self).root_pending() == old(self).root_pending(),
            match listing {
                Listing::Entries(entries) => {
                    &&& step == Ok::<usize, ScanError>(unreadable_in(entries@) as usize)
                    &&& final(self).offered() == old(self).offered() + files_of(entries@)
                    &&& final(self).pending() == old(self).pending() + directories_of(entries@)
                    &&& final(self).failed() == old(self).failed()
                },
                Listing::Unreadable => {
                    &&& step == Err::<usize, ScanError>(
                        if visit.spec_is_root() {
                            ScanError::RootUnreadable
                        } else {
                            ScanError::SubtreeUnreadable
                        },
                    )
                    &&& final(self).offered() == old(self).offered()
                    &&& final(self).pending() == old(self).pending()
                    &&& final(self).failed() == (old(self).failed() || visit.spec_is_root())
                },
            },
    {
        match listing {
            Listing::Unreadable => {
                if visit.is_root {
                    self.failed = true;
                    Err(ScanError::RootUnreadable)
                } else {
                    Err(ScanError::SubtreeUnreadable)
                }
            },
            Listing::Entries(entries) => {
                let ghost all = entries@;
                assert(all.len() == entries.len());
                let ghost offered = self.selector.offered();
                let ghost pending = paths_of(self.pending@);
                let mut skipped: usize = 0;
                for entry in it: entries
                    invariant
                        it.seq() == all,
                        all.len() <= usize::MAX,
                        self.selector.wf(),
                        self.selector.spec_capacity() == old(self).selector.spec_capacity(),
                        self.root_pending == old(self).root_pending,
                        self.failed == old(self).failed,
                        self.selector.offered() == offered + files_of(all.take(it.index() as int)),
                        paths_of(self.pending@) == pending + directories_of(
                            all.take(it.index() as int),
                        ),
                        skipped == unreadable_in(all.take(it.index() as int)),
                        skipped <= it.index(),
                {
                    proof {
                        let i = it.index() as int;
                        assert(all.take(i + 1).drop_last() =~= all.take(i));
                        assert(all.take(i + 1).last() == entry);
                    }
                    let ghost paths = self.pending@;
                    match entry {
                        Entry::File { name, size, path } => {
                            self.selector.offer(FileInfo::new(name, size, path));
                        },
                        Entry::Directory { path } => {
                            self.pending.push(path);
                            assert(paths_of(self.pending@) =~= paths_of(paths).push(path@));
                        },
                        Entry::Unreadable => {
                            skipped = skipped + 1;
                        },
                    }
                }
                assert(all.take(all.len() as int) =~= all);
                Ok(skipped)
            },
        }
    }

    /// Ends the scan. A scan whose root could not be read gives an error and
    /// no files. Any other gives the largest files it met, largest first: as
    /// many as the capacity allows, or all of them where it met fewer, which
    /// may be none.
    pub fn finish(self) -> (outcome: Result<Vec<FileInfo>, ScanError>)
        requires
            self.wf(),
        ensures
            match outcome {
                Ok(files) => {
                    &&& !self.failed()
                    &&& files.len() == min_nat(self.spec_capacity(), self.offered().len())
                    &&& sorted_descending(views_of(files@))
                    &&& is_top_k(
                        records_of(files@),
                        self.offered().to_multiset(),
                        self.spec_capacity(),
                    )
                },
                Err(error) => self.failed() && error == ScanError::RootUnreadable,
            },
    {
        if self.failed {
            Err(ScanError::RootUnreadable)
        } else {
            Ok(self.selector.finalize())
        }
    }
}

} // verus!
