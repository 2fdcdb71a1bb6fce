//! The order of file records: by size alone, the larger record first.

use crate::file_info::FileInfo;
use core::cmp::Ordering;
use vstd::prelude::*;
use vstd::std_specs::cmp::{PartialEqSpecImpl, PartialOrdSpecImpl};

verus! {

/// How a record of size `a` stands to one of size `b`: before it (`Less`)
/// where it is larger, behind it (`Greater`) where it is smaller.
pub open spec fn larger_first(a: u64, b: u64) -> Ordering {
    if a > b {
        Ordering::Less
    } else if a < b {
        Ordering::Greater
    } else {
        Ordering::Equal
    }
}

impl FileInfo {
    /// Compares two records by size, the larger one first.
    pub fn cmp(&self, other: &FileInfo) -> (order: Ordering)
        ensures
            order == larger_first(self.size, other.size),
    {
        if self.size > other.size {
            Ordering::Less
        } else if self.size < other.size {
            Ordering::Greater
        } else {
            Ordering::Equal
        }
    }
}

impl PartialEq for FileInfo {
    /// Two records are equal where their sizes are.
    fn eq(&self, other: &FileInfo) -> (equal: bool) {
        self.size == other.size
    }
}

impl PartialEqSpecImpl for FileInfo {
    open spec fn obeys_eq_spec() -> bool {
        true
    }

    open spec fn eq_spec(&self, other: &FileInfo) -> bool {
        self.size == other.size
    }
}

impl Eq for FileInfo {

}

impl PartialOrd for FileInfo {
    /// Records are ordered by size, the larger one first.
    fn partial_cmp(&self, other: &FileInfo) -> (order: Option<Ordering>) {
        Some(self.cmp(other))
    }
}

impl PartialOrdSpecImpl for FileInfo {
    open spec fn obeys_partial_cmp_spec() -> bool {
        true
    }

    open spec fn partial_cmp_spec(&self, other: &FileInfo) -> Option<Ordering> {
        Some(larger_first(self.size, other.size))
    }
}

} // verus!
