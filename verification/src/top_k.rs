//! What it means to hold the largest records of a collection.
//!
//! Records are compared by size alone. Where sizes are equal the choice
//! between two records is free, so the statements below speak of multisets:
//! they fix how many records are kept and which sizes they have.

use crate::file_info::FileInfoView;
use vstd::multiset::Multiset;
use vstd::prelude::*;

verus! {

/// The smaller of two numbers.
pub open spec fn min_nat(a: nat, b: nat) -> nat {
    if a <= b {
        a
    } else {
        b
    }
}

/// The sizes of `s` never increase from one record to the next.
pub open spec fn sorted_descending(s: Seq<FileInfoView>) -> bool {
    forall|i: int, j: int| 0 <= i <= j < s.len() ==> s[i].size >= s[j].size
}

/// `x` is in `m`, and no record of `m` is smaller.
pub open spec fn is_smallest(m: Multiset<FileInfoView>, x: FileInfoView) -> bool {
    &&& m.count(x) > 0
    &&& forall|y: FileInfoView| #[trigger] m.count(y) > 0 ==> x.size <= y.size
}

/// `kept` holds the `k` largest records of `all`: it is a part of `all`, it
/// has `k` records or all of them where there are fewer, and no record left
/// out is larger than one that is kept.
pub open spec fn is_top_k(
    kept: Multiset<FileInfoView>,
    all: Multiset<FileInfoView>,
    k: nat,
) -> bool {
    &&& kept.subset_of(all)
    &&& kept.len() == min_nat(k, all.len())
    &&& forall|a: FileInfoView, b: FileInfoView|
        #![trigger all.sub(kept).count(a), kept.count(b)]
        all.sub(kept).count(a) > 0 && kept.count(b) > 0 ==> a.size <= b.size
}

/// A part of a multiset that has as many records as the whole is the whole.
pub proof fn lemma_full_part_is_whole(part: Multiset<FileInfoView>, all: Multiset<FileInfoView>)
    requires
        part.subset_of(all),
        part.len() == all.len(),
    ensures
        part == all,
{
    broadcast use vstd::multiset::group_multiset_axioms;

    let rest = all.sub(part);
    assert(rest.len() == 0);
    assert forall|v: FileInfoView| part.count(v) == all.count(v) by {
        assert(rest.count(v) <= rest.len());
    }
    assert(part =~= all);
}

/// Where no more records were offered than may be kept, all of them are kept.
pub proof fn lemma_top_k_of_few(
    kept: Multiset<FileInfoView>,
    all: Multiset<FileInfoView>,
    k: nat,
)
    requires
        is_top_k(kept, all, k),
        all.len() <= k,
    ensures
        kept == all,
{
    lemma_full_part_is_whole(kept, all);
}

/// Where no record was offered, none is kept.
pub proof fn lemma_top_k_of_none(kept: Multiset<FileInfoView>, k: nat)
    requires
        is_top_k(kept, Multiset::empty(), k),
    ensures
        kept == Multiset::<FileInfoView>::empty(),
{
    broadcast use vstd::multiset::group_multiset_axioms;

    lemma_full_part_is_whole(kept, Multiset::empty());
}

/// A record that is kept is not smaller than any record that was left out,
/// and a record that was left out is not larger than any that is kept.
pub proof fn lemma_top_k_separates(
    kept: Multiset<FileInfoView>,
    all: Multiset<FileInfoView>,
    k: nat,
    inside: FileInfoView,
    outside: FileInfoView,
)
    requires
        is_top_k(kept, all, k),
        kept.count(inside) > 0,
        all.count(outside) > kept.count(outside),
    ensures
        outside.size <= inside.size,
{
    broadcast use vstd::multiset::group_multiset_axioms;

    assert(all.sub(kept).count(outside) > 0);
}

/// The number of records of `s` whose size is `z` or more.
spec fn count_at_least(s: Seq<FileInfoView>, z: nat) -> nat
    decreases s.len(),
{
    if s.len() == 0 {
        0
    } else {
        count_at_least(s.drop_last(), z) + if s.last().size >= z {
            1nat
        } else {
            0nat
        }
    }
}

/// Counting along the sequence and counting in its multiset agree.
proof fn lemma_count_in_multiset(s: Seq<FileInfoView>, z: nat)
    ensures
        s.to_multiset().filter(|x: FileInfoView| x.size >= z).len() == count_at_least(s, z),
    decreases s.len(),
{
    broadcast use vstd::multiset::group_multiset_axioms;

    let p = |x: FileInfoView| x.size >= z;
    if s.len() == 0 {
        s.to_multiset_ensures();
        assert(s.to_multiset().filter(p) =~= Multiset::empty());
    } else {
        let front = s.drop_last();
        let x = s.last();
        lemma_count_in_multiset(front, z);
        front.to_multiset_ensures();
        assert(front.push(x) =~= s);
        assert(s.to_multiset() == front.to_multiset().insert(x));
        if x.size >= z {
            assert(s.to_multiset().filter(p) =~= front.to_multiset().filter(p).insert(x));
        } else {
            assert(s.to_multiset().filter(p) =~= front.to_multiset().filter(p));
        }
    }
}

/// Where the first `n` records all have size `z` or more, at least `n`
/// records have.
proof fn lemma_count_from_front(s: Seq<FileInfoView>, z: nat, n: int)
    requires
        0 <= n <= s.len(),
        forall|j: int| 0 <= j < n ==> (#[trigger] s[j]).size >= z,
    ensures
        count_at_least(s, z) >= n,
    decreases s.len(),
{
    if s.len() > 0 {
        if n == s.len() {
            lemma_count_from_front(s.drop_last(), z, n - 1);
        } else {
            lemma_count_from_front(s.drop_last(), z, n);
        }
    }
}

/// Where no record from place `n` on has size `z` or more, at most `n`
/// records have.
proof fn lemma_count_up_to(s: Seq<FileInfoView>, z: nat, n: int)
    requires
        0 <= n,
        forall|j: int| n <= j < s.len() ==> (#[trigger] s[j]).size < z,
    ensures
        count_at_least(s, z) <= n,
        count_at_least(s, z) <= s.len(),
    decreases s.len(),
{
    if s.len() > 0 {
        lemma_count_up_to(s.drop_last(), z, n);
    }
}

/// On a sorted list that holds the `k` largest records of `all`, no place
/// shows a larger size than the same place of another such list.
proof fn lemma_largest_sizes_bounded(
    a: Seq<FileInfoView>,
    b: Seq<FileInfoView>,
    all: Multiset<FileInfoView>,
    k: nat,
    i: int,
)
    requires
        sorted_descending(a),
        sorted_descending(b),
        is_top_k(a.to_multiset(), all, k),
        is_top_k(b.to_multiset(), all, k),
        0 <= i < a.len(),
        i < b.len(),
    ensures
        a[i].size <= b[i].size,
{
    broadcast use vstd::multiset::group_multiset_axioms;

    if a[i].size > b[i].size {
        let z = a[i].size;
        let p = |x: FileInfoView| x.size >= z;
        lemma_count_in_multiset(a, z);
        lemma_count_in_multiset(b, z);
        lemma_count_from_front(a, z, i + 1);
        lemma_count_up_to(b, z, i);
        let kept_a = a.to_multiset().filter(p);
        let kept_b = b.to_multiset().filter(p);
        assert(kept_a.len() > kept_b.len());
        if forall|x: FileInfoView| kept_a.count(x) <= kept_b.count(x) {
            assert(kept_a.subset_of(kept_b));
            assert(kept_b.sub(kept_a).len() == kept_b.len() - kept_a.len());
            assert(false);
        }
        let x = choose|x: FileInfoView| kept_a.count(x) > kept_b.count(x);
        assert(x.size >= z);
        assert(a.to_multiset().count(x) > b.to_multiset().count(x));
        b.to_multiset_ensures();
        assert(b.contains(b[i]));
        lemma_top_k_separates(b.to_multiset(), all, k, b[i], x);
        assert(false);
    }
}

/// The sizes of the `k` largest records are fixed, whatever the choice
/// among records of one size: two sorted lists that each hold the `k` largest
/// records of `all` are equally long and show the same size at every place.
pub proof fn lemma_largest_sizes_agree(
    a: Seq<FileInfoView>,
    b: Seq<FileInfoView>,
    all: Multiset<FileInfoView>,
    k: nat,
)
    requires
        sorted_descending(a),
        sorted_descending(b),
        is_top_k(a.to_multiset(), all, k),
        is_top_k(b.to_multiset(), all, k),
    ensures
        a.len() == b.len(),
        forall|i: int| 0 <= i < a.len() ==> (#[trigger] a[i]).size == b[i].size,
{
    a.to_multiset_ensures();
    b.to_multiset_ensures();
    assert forall|i: int| 0 <= i < a.len() implies (#[trigger] a[i]).size == b[i].size by {
        lemma_largest_sizes_bounded(a, b, all, k, i);
        lemma_largest_sizes_bounded(b, a, all, k, i);
    }
}

/// Nothing offered yet: nothing is kept.
pub proof fn lemma_empty_is_top_k(k: nat)
    ensures
        is_top_k(Multiset::empty(), Multiset::empty(), k),
{
    broadcast use vstd::multiset::group_multiset_axioms;

}

/// While there is room, the new record is kept beside the others.
pub proof fn lemma_top_k_insert(
    kept: Multiset<FileInfoView>,
    all: Multiset<FileInfoView>,
    k: nat,
    r: FileInfoView,
)
    requires
        is_top_k(kept, all, k),
        kept.len() < k,
    ensures
        is_top_k(kept.insert(r), all.insert(r), k),
{
    broadcast use vstd::multiset::group_multiset_axioms;

    lemma_full_part_is_whole(kept, all);
    assert(all.insert(r).sub(kept.insert(r)) =~= Multiset::empty());
}

/// When full, a record larger than a smallest kept one takes its place.
pub proof fn lemma_top_k_replace(
    kept: Multiset<FileInfoView>,
    all: Multiset<FileInfoView>,
    k: nat,
    smallest: FileInfoView,
    r: FileInfoView,
)
    requires
        is_top_k(kept, all, k),
        kept.len() == k,
        is_smallest(kept, smallest),
        r.size > smallest.size,
    ensures
        is_top_k(kept.remove(smallest).insert(r), all.insert(r), k),
{
    broadcast use vstd::multiset::group_multiset_axioms;

    let kept2 = kept.remove(smallest).insert(r);
    let all2 = all.insert(r);
    assert(kept.len() <= all.len());
    assert(kept2.subset_of(all2));
    assert(all2.sub(kept2) =~= all.sub(kept).insert(smallest));
    assert forall|a: FileInfoView, b: FileInfoView|
        all2.sub(kept2).count(a) > 0 && kept2.count(b) > 0 implies a.size <= b.size by {
        if a != smallest {
            assert(all.sub(kept).count(a) > 0);
            assert(kept.count(smallest) > 0);
        }
        if b != r {
            assert(kept.count(b) > 0);
        }
    }
}

/// When full, a record not larger than a smallest kept one is left out.
pub proof fn lemma_top_k_discard(
    kept: Multiset<FileInfoView>,
    all: Multiset<FileInfoView>,
    k: nat,
    smallest: FileInfoView,
    r: FileInfoView,
)
    requires
        is_top_k(kept, all, k),
        kept.len() == k,
        is_smallest(kept, smallest),
        r.size <= smallest.size,
    ensures
        is_top_k(kept, all.insert(r), k),
{
    broadcast use vstd::multiset::group_multiset_axioms;

    let all2 = all.insert(r);
    assert(kept.len() <= all.len());
    assert(all2.sub(kept) =~= all.sub(kept).insert(r));
    assert forall|a: FileInfoView, b: FileInfoView|
        all2.sub(kept).count(a) > 0 && kept.count(b) > 0 implies a.size <= b.size by {
        if a != r {
            assert(all.sub(kept).count(a) > 0);
        }
    }
}

} // verus!
