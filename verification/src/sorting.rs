//! A stable sort by a ranking, with what it guarantees.
//!
//! A ranking says of two records whether the first may stand before the
//! second. Sorting puts each record behind the last one that may stand
//! before it, so records that rank alike keep the order they came in.

use crate::device_map::Duplicate;
use vstd::prelude::*;

verus! {

/// A way to rank records of type `T`.
pub trait Ranking<T: DeepView>: Sized {
    /// Whether `a` may stand before `b`.
    spec fn le(&self, a: T::V, b: T::V) -> bool;

    /// Whether `a` may stand before `b`.
    fn precedes(&self, a: &T, b: &T) -> (r: bool)
        ensures
            r == self.le(a.deep_view(), b.deep_view()),
    ;
}

/// `sorted` with `entry` put behind the last record that may stand before it.
pub open spec fn placed<T: DeepView, R: Ranking<T>>(rank: R, sorted: Seq<T::V>, entry: T::V) -> Seq<
    T::V,
>
    decreases sorted.len(),
{
    if sorted.len() == 0 {
        seq![entry]
    } else if rank.le(sorted.last(), entry) {
        sorted.push(entry)
    } else {
        placed::<T, R>(rank, sorted.drop_last(), entry).push(sorted.last())
    }
}

/// `entries` sorted by `rank`; records that rank alike keep their order.
pub open spec fn sorted_by<T: DeepView, R: Ranking<T>>(rank: R, entries: Seq<T::V>) -> Seq<T::V>
    decreases entries.len(),
{
    if entries.len() == 0 {
        Seq::empty()
    } else {
        placed::<T, R>(rank, sorted_by::<T, R>(rank, entries.drop_last()), entries.last())
    }
}

/// Each record may stand before every record behind it.
pub open spec fn ordered_by<T: DeepView, R: Ranking<T>>(rank: R, entries: Seq<T::V>) -> bool {
    forall|i: int, j: int|
        0 <= i < j < entries.len() ==> rank.le(#[trigger] entries[i], #[trigger] entries[j])
}

/// Of two records one may stand before the other.
pub open spec fn is_total<T: DeepView, R: Ranking<T>>(rank: R) -> bool {
    forall|a: T::V, b: T::V| #[trigger] rank.le(a, b) || #[trigger] rank.le(b, a)
}

/// What may stand before a record may stand before all that the record may
/// stand before.
pub open spec fn is_transitive<T: DeepView, R: Ranking<T>>(rank: R) -> bool {
    forall|a: T::V, b: T::V, c: T::V|
        #[trigger] rank.le(a, b) && #[trigger] rank.le(b, c) ==> rank.le(a, c)
}

/// Where `placed` puts a record: at the position behind which no record may
/// stand before it and before which the nearest may.
pub proof fn lemma_placed_at<T: DeepView, R: Ranking<T>>(
    rank: R,
    sorted: Seq<T::V>,
    entry: T::V,
    p: int,
)
    requires
        0 <= p <= sorted.len(),
        forall|j: int| p <= j < sorted.len() ==> !rank.le(#[trigger] sorted[j], entry),
        p > 0 ==> rank.le(sorted[p - 1], entry),
    ensures
        placed::<T, R>(rank, sorted, entry) == sorted.insert(p, entry),
    decreases sorted.len(),
{
    if sorted.len() == 0 {
        assert(sorted.insert(p, entry) =~= seq![entry]);
    } else if p == sorted.len() {
        assert(sorted.insert(p, entry) =~= sorted.push(entry));
    } else {
        assert(!rank.le(sorted[sorted.len() - 1], entry));
        let shorter = sorted.drop_last();
        assert forall|j: int| p <= j < shorter.len() implies !rank.le(
            #[trigger] shorter[j],
            entry,
        ) by {
            assert(shorter[j] == sorted[j]);
        }
        if p > 0 {
            assert(shorter[p - 1] == sorted[p - 1]);
        }
        lemma_placed_at::<T, R>(rank, shorter, entry, p);
        assert(shorter.insert(p, entry).push(sorted.last()) =~= sorted.insert(p, entry));
    }
}

/// Placing a record keeps all records and adds the one.
pub proof fn lemma_placed_is_permutation<T: DeepView, R: Ranking<T>>(
    rank: R,
    sorted: Seq<T::V>,
    entry: T::V,
)
    ensures
        placed::<T, R>(rank, sorted, entry).len() == sorted.len() + 1,
        placed::<T, R>(rank, sorted, entry).to_multiset() == sorted.to_multiset().insert(entry),
    decreases sorted.len(),
{
    broadcast use vstd::seq_lib::to_multiset_build;

    if sorted.len() == 0 {
        assert(seq![entry] =~= Seq::<T::V>::empty().push(entry));
        assert(sorted =~= Seq::<T::V>::empty());
    } else if rank.le(sorted.last(), entry) {
    } else {
        lemma_placed_is_permutation::<T, R>(rank, sorted.drop_last(), entry);
        assert(sorted.drop_last().push(sorted.last()) =~= sorted);
        assert(sorted.drop_last().to_multiset().insert(entry).insert(sorted.last())
            =~= sorted.drop_last().to_multiset().insert(sorted.last()).insert(entry));
    }
}

/// Each record of `placed(sorted, entry)` is `entry` or a record of `sorted`.
proof fn lemma_placed_members<T: DeepView, R: Ranking<T>>(
    rank: R,
    sorted: Seq<T::V>,
    entry: T::V,
    i: int,
)
    requires
        0 <= i < placed::<T, R>(rank, sorted, entry).len(),
    ensures
        placed::<T, R>(rank, sorted, entry)[i] == entry || sorted.contains(
            placed::<T, R>(rank, sorted, entry)[i],
        ),
    decreases sorted.len(),
{
    if sorted.len() == 0 {
    } else if rank.le(sorted.last(), entry) {
        if i < sorted.len() {
            assert(sorted[i] == placed::<T, R>(rank, sorted, entry)[i]);
        }
    } else {
        lemma_placed_is_permutation::<T, R>(rank, sorted.drop_last(), entry);
        if i < sorted.len() {
            lemma_placed_members::<T, R>(rank, sorted.drop_last(), entry, i);
            let x = placed::<T, R>(rank, sorted.drop_last(), entry)[i];
            if x != entry {
                let j = sorted.drop_last().index_of(x);
                assert(sorted[j] == x);
            }
        } else {
            assert(sorted[sorted.len() - 1] == placed::<T, R>(rank, sorted, entry)[i]);
        }
    }
}

/// Placing a record into an ordered list leaves it ordered.
pub proof fn lemma_placed_is_ordered<T: DeepView, R: Ranking<T>>(
    rank: R,
    sorted: Seq<T::V>,
    entry: T::V,
)
    requires
        is_total::<T, R>(rank),
        is_transitive::<T, R>(rank),
        ordered_by::<T, R>(rank, sorted),
    ensures
        ordered_by::<T, R>(rank, placed::<T, R>(rank, sorted, entry)),
    decreases sorted.len(),
{
    let out = placed::<T, R>(rank, sorted, entry);
    lemma_placed_is_permutation::<T, R>(rank, sorted, entry);
    if sorted.len() == 0 {
    } else if rank.le(sorted.last(), entry) {
        assert forall|i: int, j: int| 0 <= i < j < out.len() implies rank.le(
            #[trigger] out[i],
            #[trigger] out[j],
        ) by {
            if j == sorted.len() {
                if i < sorted.len() - 1 {
                    assert(rank.le(sorted[i], sorted[sorted.len() - 1]));
                }
            } else {
                assert(rank.le(sorted[i], sorted[j]));
            }
        }
    } else {
        let shorter = sorted.drop_last();
        let inner = placed::<T, R>(rank, shorter, entry);
        assert forall|i: int, j: int| 0 <= i < j < shorter.len() implies rank.le(
            #[trigger] shorter[i],
            #[trigger] shorter[j],
        ) by {
            assert(rank.le(sorted[i], sorted[j]));
        }
        lemma_placed_is_ordered::<T, R>(rank, shorter, entry);
        lemma_placed_is_permutation::<T, R>(rank, shorter, entry);
        assert(rank.le(sorted.last(), entry) || rank.le(entry, sorted.last()));
        assert forall|i: int, j: int| 0 <= i < j < out.len() implies rank.le(
            #[trigger] out[i],
            #[trigger] out[j],
        ) by {
            if j < inner.len() {
                assert(rank.le(inner[i], inner[j]));
            } else {
                lemma_placed_members::<T, R>(rank, shorter, entry, i);
                if inner[i] != entry {
                    let k = shorter.index_of(inner[i]);
                    assert(rank.le(sorted[k], sorted[sorted.len() - 1]));
                }
            }
        }
    }
}

/// The sorted list holds exactly the records of the input, each as often as
/// the input does; under a total and transitive ranking it is ordered.
pub proof fn lemma_sorted_by<T: DeepView, R: Ranking<T>>(rank: R, entries: Seq<T::V>)
    ensures
        sorted_by::<T, R>(rank, entries).len() == entries.len(),
        sorted_by::<T, R>(rank, entries).to_multiset() == entries.to_multiset(),
        is_total::<T, R>(rank) && is_transitive::<T, R>(rank) ==> ordered_by::<T, R>(
            rank,
            sorted_by::<T, R>(rank, entries),
        ),
    decreases entries.len(),
{
    broadcast use vstd::seq_lib::to_multiset_build;

    if entries.len() == 0 {
        assert(entries =~= Seq::<T::V>::empty());
    } else {
        lemma_sorted_by::<T, R>(rank, entries.drop_last());
        if is_total::<T, R>(rank) && is_transitive::<T, R>(rank) {
            lemma_placed_is_ordered::<T, R>(
                rank,
                sorted_by::<T, R>(rank, entries.drop_last()),
                entries.last(),
            );
        }
        lemma_placed_is_permutation::<T, R>(
            rank,
            sorted_by::<T, R>(rank, entries.drop_last()),
            entries.last(),
        );
        assert(entries.drop_last().push(entries.last()) =~= entries);
    }
}

/// Sorts `entries` by `rank`, keeping the order of records that rank alike.
pub fn sort_by<T: Duplicate, R: Ranking<T>>(entries: &Vec<T>, rank: &R) -> (out: Vec<T>)
    ensures
        out.deep_view() == sorted_by::<T, R>(*rank, entries.deep_view()),
{
    let ghost all = entries.deep_view();
    let mut out: Vec<T> = Vec::new();
    let mut i: usize = 0;
    assert(all.take(0) =~= Seq::<T::V>::empty());
    assert(out.deep_view() =~= Seq::<T::V>::empty());
    while i < entries.len()
        invariant
            all == entries.deep_view(),
            i <= entries.len(),
            out.deep_view() == sorted_by::<T, R>(*rank, all.take(i as int)),
        decreases entries.len() - i,
    {
        proof {
            assert(all.take(i + 1).drop_last() == all.take(i as int));
            assert(all.take(i + 1).last() == entries@[i as int].deep_view());
        }
        let entry = entries[i].duplicate();
        let ghost before = out.deep_view();
        let mut p: usize = out.len();
        while p > 0 && !rank.precedes(&out[p - 1], &entry)
            invariant
                p <= out.len(),
                before == out.deep_view(),
                forall|j: int|
                    p <= j < before.len() ==> !rank.le(#[trigger] before[j], entry.deep_view()),
            decreases p,
        {
            assert(before[p - 1] == out@[p - 1].deep_view());
            p = p - 1;
        }
        proof {
            if p > 0 {
                assert(before[p - 1] == out@[p - 1].deep_view());
            }
            lemma_placed_at::<T, R>(*rank, before, entry.deep_view(), p as int);
        }
        let ghost model = entry.deep_view();
        out.insert(p, entry);
        proof {
            assert(out.deep_view() =~= before.insert(p as int, model));
        }
        i = i + 1;
    }
    assert(all.take(entries.len() as int) == all);
    out
}

} // verus!
