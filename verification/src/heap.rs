//! A binary min-heap of file records, keyed by size, laid out in a vector.
//!
//! The node at index `i` has its children at `2 * i + 1` and `2 * i + 2`. In a
//! heap no record is smaller than its parent, so the smallest one is at index 0.

use crate::file_info::{records_of, views_of, FileInfo, FileInfoView};
use vstd::prelude::*;
use vstd::seq_lib::to_multiset_update;

verus! {

/// Index of the parent of node `i`, for `i > 0`.
pub open spec fn parent(i: int) -> int {
    (i - 1) / 2
}

/// The record at `i` is not smaller than its parent.
pub open spec fn ordered_at(s: Seq<FileInfo>, i: int) -> bool {
    i > 0 ==> s[parent(i)].size <= s[i].size
}

/// The first `n` records of `s` form a min-heap.
pub open spec fn is_heap(s: Seq<FileInfo>, n: int) -> bool {
    forall|i: int| 0 <= i < n ==> #[trigger] ordered_at(s, i)
}

/// `s` with the records at `i` and `j` exchanged.
pub open spec fn swapped(s: Seq<FileInfo>, i: int, j: int) -> Seq<FileInfo> {
    s.update(i, s[j]).update(j, s[i])
}

/// In a heap the root is a smallest record.
pub proof fn lemma_root_is_min(s: Seq<FileInfo>, n: int, i: int)
    requires
        is_heap(s, n),
        0 <= i < n <= s.len(),
    ensures
        s[0].size <= s[i].size,
    decreases i,
{
    if i > 0 {
        assert(ordered_at(s, i));
        lemma_root_is_min(s, n, parent(i));
    }
}

/// Every record of `s` is in its multiset, and the multiset holds no other.
pub proof fn lemma_records_members(s: Seq<FileInfo>)
    ensures
        records_of(s).len() == s.len(),
        forall|j: int| 0 <= j < s.len() ==> records_of(s).count(#[trigger] s[j]@) > 0,
        forall|x: FileInfoView| #[trigger]
            records_of(s).count(x) > 0 ==> exists|j: int| 0 <= j < s.len() && s[j]@ == x,
{
    let v = views_of(s);
    v.to_multiset_ensures();
    assert forall|j: int| 0 <= j < s.len() implies records_of(s).count(#[trigger] s[j]@) > 0 by {
        assert(v[j] == s[j]@);
        assert(v.contains(v[j]));
    }
    assert forall|x: FileInfoView| #[trigger] records_of(s).count(x) > 0 implies exists|j: int|
        0 <= j < s.len() && s[j]@ == x by {
        assert(v.contains(x));
        let j = choose|j: int| 0 <= j < v.len() && v[j] == x;
        assert(s[j]@ == x);
    }
}

/// Appending a record adds it to the multiset.
pub proof fn lemma_records_push(s: Seq<FileInfo>, x: FileInfo)
    ensures
        records_of(s.push(x)) == records_of(s).insert(x@),
{
    let v = views_of(s);
    v.to_multiset_ensures();
    assert(views_of(s.push(x)) =~= v.push(x@));
}

/// Overwriting a record takes the old one out of the multiset and puts the
/// new one in.
pub proof fn lemma_records_update(s: Seq<FileInfo>, i: int, x: FileInfo)
    requires
        0 <= i < s.len(),
    ensures
        records_of(s.update(i, x)) == records_of(s).remove(s[i]@).insert(x@),
{
    broadcast use vstd::multiset::group_multiset_axioms;

    let v = views_of(s);
    lemma_records_members(s);
    to_multiset_update(v, i, x@);
    assert(views_of(s.update(i, x)) =~= v.update(i, x@));
    assert(v[i] == s[i]@);
    assert(v.to_multiset().insert(x@).remove(v[i]) =~= v.to_multiset().remove(v[i]).insert(x@));
}

/// Exchanging two records changes neither the length nor the multiset.
pub proof fn lemma_swapped_records(s: Seq<FileInfo>, i: int, j: int)
    requires
        0 <= i < s.len(),
        0 <= j < s.len(),
    ensures
        swapped(s, i, j).len() == s.len(),
        records_of(swapped(s, i, j)) == records_of(s),
{
    let v = views_of(s);
    let v1 = v.update(i, v[j]);
    let v2 = v1.update(j, v[i]);
    assert(views_of(swapped(s, i, j)) =~= v2);
    to_multiset_update(v, i, v[j]);
    to_multiset_update(v1, j, v[i]);
    v.to_multiset_ensures();
    assert(v.contains(v[i]));
    assert(v.contains(v[j]));
    assert(v2.to_multiset() =~= v.to_multiset());
}

/// Exchanges the records at `i` and `j`.
pub(crate) fn swap_entries(v: &mut Vec<FileInfo>, i: usize, j: usize)
    requires
        i < j < old(v).len(),
    ensures
        final(v)@ == swapped(old(v)@, i as int, j as int),
{
    let (left, right) = v.as_mut_slice().split_at_mut(j);
    let (_, rest) = left.split_at_mut(i);
    let a = rest.first_mut().unwrap();
    let b = right.first_mut().unwrap();
    core::mem::swap(a, b);
}

/// Restores the heap after a record was put at the last index: the record
/// moves up until its parent is not larger.
pub(crate) fn sift_up(v: &mut Vec<FileInfo>)
    requires
        old(v).len() > 0,
        is_heap(old(v)@, old(v).len() - 1),
    ensures
        final(v).len() == old(v).len(),
        is_heap(final(v)@, final(v).len() as int),
        records_of(final(v)@) == records_of(old(v)@),
{
    let n: usize = v.len();
    let mut i: usize = n - 1;
    while i > 0
        invariant
            i < n,
            v.len() == n,
            n == old(v).len(),
            records_of(v@) == records_of(old(v)@),
            forall|k: int| 0 <= k < n && k != i ==> #[trigger] ordered_at(v@, k),
            forall|k: int|
                0 < k < n && parent(k) == i && i > 0 ==> v@[parent(i as int)].size
                    <= (#[trigger] v@[k]).size,
        decreases i,
    {
        let p: usize = (i - 1) / 2;
        if v[p].size <= v[i].size {
            assert(ordered_at(v@, i as int));
            return ;
        }
        let ghost before = v@;
        proof {
            lemma_swapped_records(before, p as int, i as int);
            assert(ordered_at(before, p as int));
        }
        swap_entries(v, p, i);
        proof {
            let after = v@;
            assert forall|k: int| 0 <= k < n && k != p implies #[trigger] ordered_at(after, k) by {
                if k > 0 {
                    assert(ordered_at(before, k) || k == i);
                    if k != i && parent(k) == i {
                        assert(before[parent(i as int)].size <= before[k].size);
                    }
                }
            }
            assert forall|k: int| 0 < k < n && parent(k) == p && p > 0 implies after[parent(p as int)].size
                <= (#[trigger] after[k]).size by {
                assert(ordered_at(before, k) || k == i);
            }
        }
        i = p;
    }
}

/// Restores the heap on the first `n` records after the root was replaced:
/// the record at the root moves down while one of its children is smaller.
/// The records from index `n` on stay where they are.
pub(crate) fn sift_down(v: &mut Vec<FileInfo>, n: usize)
    requires
        n <= old(v).len(),
        forall|k: int| 0 <= k < n && parent(k) != 0 ==> #[trigger] ordered_at(old(v)@, k),
    ensures
        final(v).len() == old(v).len(),
        is_heap(final(v)@, n as int),
        records_of(final(v)@) == records_of(old(v)@),
        records_of(final(v)@.take(n as int)) == records_of(old(v)@.take(n as int)),
        forall|k: int| n <= k < old(v).len() ==> final(v)@[k] == old(v)@[k],
{
    let mut i: usize = 0;
    while i < n / 2
        invariant
            n <= v.len(),
            v.len() == old(v).len(),
            i < n || n == 0,
            records_of(v@) == records_of(old(v)@),
            records_of(v@.take(n as int)) == records_of(old(v)@.take(n as int)),
            forall|k: int| n <= k < v.len() ==> v@[k] == old(v)@[k],
            forall|k: int| 0 <= k < n && (k == 0 || parent(k) != i) ==> #[trigger] ordered_at(v@, k),
            forall|k: int|
                0 < k < n && parent(k) == i && i > 0 ==> v@[parent(i as int)].size
                    <= (#[trigger] v@[k]).size,
        decreases n - i,
    {
        let left: usize = 2 * i + 1;
        let right: usize = left + 1;
        let child: usize = if right < n && v[right].size < v[left].size {
            right
        } else {
            left
        };
        if v[i].size <= v[child].size {
            assert forall|k: int| 0 <= k < n implies #[trigger] ordered_at(v@, k) by {
                if k > 0 && parent(k) == i {
                    assert(k == left || k == right);
                }
            }
            return ;
        }
        let ghost before = v@;
        proof {
            lemma_swapped_records(before, i as int, child as int);
            lemma_swapped_records(before.take(n as int), i as int, child as int);
            assert(swapped(before, i as int, child as int).take(n as int) =~= swapped(
                before.take(n as int),
                i as int,
                child as int,
            ));
        }
        swap_entries(v, i, child);
        proof {
            let after = v@;
            assert forall|k: int| 0 <= k < n && (k == 0 || parent(k) != child) implies #[trigger] ordered_at(
                after,
                k,
            ) by {
                if k > 0 {
                    if parent(k) == i {
                        assert(k == left || k == right);
                    } else if k == i {
                        assert(before[parent(i as int)].size <= before[child as int].size);
                    } else {
                        assert(ordered_at(before, k));
                    }
                }
            }
            assert forall|k: int| 0 < k < n && parent(k) == child implies after[parent(child as int)].size
                <= (#[trigger] after[k]).size by {
                assert(ordered_at(before, k));
            }
        }
        i = child;
    }
    proof {
        assert forall|k: int| 0 <= k < n implies #[trigger] ordered_at(v@, k) by {
            if k > 0 && parent(k) == i {
                assert(k >= 2 * i + 1);
            }
        }
    }
}

} // verus!
