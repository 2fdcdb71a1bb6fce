//! The bounded selector: it keeps the largest records of those it is offered.

use crate::file_info::{records_of, views_of, FileInfo, FileInfoView};
use crate::heap::{
    is_heap, lemma_records_members, lemma_records_push, lemma_records_update,
    lemma_root_is_min, lemma_swapped_records, ordered_at, parent, sift_down, sift_up,
    swap_entries,
};
use crate::top_k::{
    is_smallest, is_top_k, lemma_top_k_discard, lemma_top_k_insert, lemma_empty_is_top_k,
    lemma_top_k_replace, min_nat, sorted_descending,
};
use vstd::multiset::Multiset;
use vstd::prelude::*;

verus! {

/// What `kept` becomes when `r` is offered to a selector of capacity `k`
/// whose smallest record is `smallest`.
pub open spec fn after_offer(
    kept: Multiset<FileInfoView>,
    k: nat,
    smallest: FileInfoView,
    r: FileInfoView,
) -> Multiset<FileInfoView> {
    if kept.len() < k {
        kept.insert(r)
    } else if r.size > smallest.size {
        kept.remove(smallest).insert(r)
    } else {
        kept
    }
}

/// An offer keeps the selection right: if `kept` holds the `k` largest of
/// `all` and `smallest` is a smallest record of `kept`, then after the offer
/// of `r` the selection holds the `k` largest of `all` and `r`.
pub proof fn lemma_after_offer_is_top_k(
    kept: Multiset<FileInfoView>,
    all: Multiset<FileInfoView>,
    k: nat,
    smallest: FileInfoView,
    r: FileInfoView,
)
    requires
        k >= 1,
        is_top_k(kept, all, k),
        kept.len() > 0 ==> is_smallest(kept, smallest),
    ensures
        is_top_k(after_offer(kept, k, smallest, r), all.insert(r), k),
{
    if kept.len() < k {
        lemma_top_k_insert(kept, all, k, r);
    } else if r.size > smallest.size {
        lemma_top_k_replace(kept, all, k, smallest, r);
    } else {
        lemma_top_k_discard(kept, all, k, smallest, r);
    }
}

/// A full selector takes a record that is larger than its smallest one, and
/// that smallest one leaves.
pub proof fn lemma_offer_takes_larger(
    kept: Multiset<FileInfoView>,
    k: nat,
    smallest: FileInfoView,
    r: FileInfoView,
)
    requires
        kept.len() >= k,
        is_smallest(kept, smallest),
        r.size > smallest.size,
    ensures
        after_offer(kept, k, smallest, r).count(r) == kept.count(r) + 1,
        after_offer(kept, k, smallest, r).count(smallest) == kept.count(smallest) - 1,
        after_offer(kept, k, smallest, r).len() == kept.len(),
{
    broadcast use vstd::multiset::group_multiset_axioms;

    assert(Multiset::singleton(smallest).subset_of(kept));
}

/// A full selector drops a record that is not larger than its smallest one:
/// where sizes are equal, the record that was there first stays.
pub proof fn lemma_offer_drops_tie(
    kept: Multiset<FileInfoView>,
    k: nat,
    smallest: FileInfoView,
    r: FileInfoView,
)
    requires
        kept.len() >= k,
        r.size <= smallest.size,
    ensures
        after_offer(kept, k, smallest, r) == kept,
{
}

/// Keeps the largest records of those offered to it, up to a fixed number.
///
/// The records are held in a min-heap, so that the smallest of them, the
/// first to go, is found at once.
pub struct Selector {
    heap: Vec<FileInfo>,
    capacity: usize,
    offered: Ghost<Seq<FileInfoView>>,
}

impl Selector {
    /// The most records the selector keeps.
    pub closed spec fn spec_capacity(&self) -> nat {
        self.capacity as nat
    }

    /// The records kept now.
    pub closed spec fn retained(&self) -> Multiset<FileInfoView> {
        records_of(self.heap@)
    }

    /// Every record offered so far, in the order of the offers.
    pub closed spec fn offered(&self) -> Seq<FileInfoView> {
        self.offered@
    }

    /// The kept record that leaves first. It means nothing while no record is
    /// kept.
    pub closed spec fn smallest(&self) -> FileInfoView {
        self.heap@[0]@
    }

    /// The selector is valid: it keeps no more than its capacity, and what it
    /// keeps are the largest records of those offered.
    pub closed spec fn wf(&self) -> bool {
        &&& self.capacity >= 1
        &&& self.heap.len() <= self.capacity
        &&& is_heap(self.heap@, self.heap.len() as int)
        &&& is_top_k(records_of(self.heap@), self.offered@.to_multiset(), self.capacity as nat)
    }

    /// At every moment the kept records are the largest of those offered, as
    /// many as the capacity allows, and `smallest` is one of the smallest of
    /// them.
    pub proof fn lemma_retained_is_top_k(&self)
        requires
            self.wf(),
        ensures
            self.spec_capacity() >= 1,
            self.retained().len() == min_nat(self.spec_capacity(), self.offered().len()),
            is_top_k(self.retained(), self.offered().to_multiset(), self.spec_capacity()),
            self.retained().len() > 0 ==> is_smallest(self.retained(), self.smallest()),
    {
        self.offered@.to_multiset_ensures();
        self.lemma_root_is_smallest();
    }

    proof fn lemma_root_is_smallest(&self)
        requires
            is_heap(self.heap@, self.heap.len() as int),
        ensures
            self.heap.len() > 0 ==> is_smallest(records_of(self.heap@), self.heap@[0]@),
            records_of(self.heap@).len() == self.heap.len(),
    {
        let s = self.heap@;
        lemma_records_members(s);
        if s.len() > 0 {
            assert forall|y: FileInfoView| #[trigger]
                records_of(s).count(y) > 0 implies s[0]@.size <= y.size by {
                let j = choose|j: int| 0 <= j < s.len() && s[j]@ == y;
                lemma_root_is_min(s, s.len() as int, j);
            }
        }
    }

    /// An empty selector that will keep up to `capacity` records.
    pub fn new(capacity: usize) -> (selector: Self)
        requires
            capacity >= 1,
        ensures
            selector.wf(),
            selector.spec_capacity() == capacity,
            selector.offered() == Seq::<FileInfoView>::empty(),
            selector.retained() == Multiset::<FileInfoView>::empty(),
    {
        let selector = Selector { heap: Vec::new(), capacity, offered: Ghost(Seq::empty()) };
        proof {
            lemma_empty_is_top_k(capacity as nat);
            assert(views_of(selector.heap@) =~= Seq::<FileInfoView>::empty());
            Seq::<FileInfoView>::empty().to_multiset_ensures();
            assert(selector.offered@.to_multiset() =~= Multiset::empty());
            assert(records_of(selector.heap@) =~= Multiset::empty());
        }
        selector
    }

    /// The most records the selector keeps.
    pub fn capacity(&self) -> (capacity: usize)
        ensures
            capacity == self.spec_capacity(),
    {
        self.capacity
    }

    /// The number of records kept now.
    pub fn len(&self) -> (count: usize)
        requires
            self.wf(),
        ensures
            count == self.retained().len(),
            count == min_nat(self.spec_capacity(), self.offered().len()),
    {
        proof {
            self.lemma_retained_is_top_k();
            self.lemma_root_is_smallest();
        }
        self.heap.len()
    }

    /// The smallest record kept now, if any is kept.
    pub fn peek_min(&self) -> (smallest: Option<&FileInfo>)
        requires
            self.wf(),
        ensures
            smallest is None <==> self.retained().len() == 0,
            smallest matches Some(record) ==> record@ == self.smallest() && is_smallest(
                self.retained(),
                record@,
            ),
    {
        proof {
            self.lemma_root_is_smallest();
        }
        if self.heap.len() == 0 {
            None
        } else {
            Some(&self.heap[0])
        }
    }

    /// Offers a record. While there is room it is kept. Once the selector is
    /// full, a record larger than the smallest kept one takes that one's place,
    /// and any other record, one of the same size too, is dropped.
    pub fn offer(&mut self, record: FileInfo)
        requires
            old(self).wf(),
        ensures
            final(self).wf(),
            final(self).spec_capacity() == old(self).spec_capacity(),
            final(self).offered() == old(self).offered().push(record@),
            final(self).retained() == after_offer(
                old(self).retained(),
                old(self).spec_capacity(),
                old(self).smallest(),
                record@,
            ),
    {
        let ghost before = self.heap@;
        let ghost seen = self.offered@.push(record@);
        proof {
            self.lemma_root_is_smallest();
            self.offered@.to_multiset_ensures();
            lemma_after_offer_is_top_k(
                records_of(before),
                self.offered@.to_multiset(),
                self.capacity as nat,
                before[0]@,
                record@,
            );
        }
        let count: usize = self.heap.len();
        if count < self.capacity {
            proof {
                lemma_records_push(before, record);
                assert forall|i: int| 0 <= i < count implies #[trigger] ordered_at(
                    before.push(record),
                    i,
                ) by {
                    assert(ordered_at(before, i));
                }
            }
            self.heap.push(record);
            sift_up(&mut self.heap);
        } else if record.size > self.heap[0].size {
            proof {
                lemma_records_update(before, 0, record);
                assert forall|k: int| 0 <= k < count && parent(k) != 0 implies #[trigger] ordered_at(
                    before.update(0, record),
                    k,
                ) by {
                    assert(ordered_at(before, k));
                }
            }
            self.heap[0] = record;
            sift_down(&mut self.heap, count);
        }
        self.offered = Ghost(seen);
    }

    /// Ends the selection and returns the kept records, largest first. The
    /// order of records of one size is not fixed.
    pub fn finalize(self) -> (files: Vec<FileInfo>)
        requires
            self.wf(),
        ensures
            records_of(files@) == self.retained(),
            sorted_descending(views_of(files@)),
            files.len() == min_nat(self.spec_capacity(), self.offered().len()),
            is_top_k(records_of(files@), self.offered().to_multiset(), self.spec_capacity()),
    {
        let ghost kept = self.heap@;
        proof {
            self.lemma_retained_is_top_k();
            self.lemma_root_is_smallest();
        }
        let mut files = self.heap;
        let mut n: usize = files.len();
        // The first `n` records are a heap; behind them stand the records
        // already taken out of it, each one not larger than what came before.
        while n > 1
            invariant
                n <= files.len(),
                files.len() == kept.len(),
                records_of(files@) == records_of(kept),
                is_heap(files@, n as int),
                forall|a: int, b: int|
                    0 <= a < n && n <= b < files.len() ==> files@[a].size >= files@[b].size,
                forall|a: int, b: int| n <= a <= b < files.len() ==> files@[a].size >= files@[b].size,
            decreases n,
        {
            n = n - 1;
            let ghost before = files@;
            proof {
                lemma_swapped_records(before, 0, n as int);
                assert forall|k: int| 0 <= k <= n implies before[0].size <= (#[trigger] before[k]).size by {
                    lemma_root_is_min(before, n + 1, k);
                }
            }
            swap_entries(&mut files, 0, n);
            let ghost middle = files@;
            proof {
                assert forall|k: int| 0 <= k < n && parent(k) != 0 implies #[trigger] ordered_at(
                    middle,
                    k,
                ) by {
                    assert(ordered_at(before, k));
                }
            }
            sift_down(&mut files, n);
            proof {
                let after = files@;
                lemma_records_members(after.take(n as int));
                lemma_records_members(middle.take(n as int));
                assert forall|a: int| 0 <= a < n implies (#[trigger] after[a]).size >= after[n as int].size by {
                    let x = after.take(n as int)[a]@;
                    assert(records_of(middle.take(n as int)).count(x) > 0);
                    let j = choose|j: int|
                        0 <= j < middle.take(n as int).len() && middle.take(n as int)[j]@ == x;
                    assert(middle[j].size == after[a].size);
                }
            }
        }
        proof {
            let v = views_of(files@);
            assert forall|i: int, j: int| 0 <= i <= j < v.len() implies v[i].size >= v[j].size by {
                if i < j {
                    assert(files@[i].size >= files@[j].size);
                }
            }
        }
        files
    }
}

} // verus!
