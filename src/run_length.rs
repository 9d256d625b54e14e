//! Run-length counting with a zero sentinel.
//!
//! The scan keeps the previous value it saw, starting from 0. An element that
//! differs from it opens a new entry of 3; an equal element adds 3 to the last
//! entry, if there is one. Elements equal to 0 at the start of the sequence
//! therefore leave no trace.

use vstd::prelude::*;
use crate::sorting::{is_sorted, sort_ascending};

verus! {

/// The value that the last element of `s` is compared with: the element
/// before it, or the sentinel 0 when it is the first.
pub open spec fn predecessor(s: Seq<u32>) -> u32 {
    if s.len() >= 2 {
        s[s.len() - 2]
    } else {
        0
    }
}

/// The entries that the scan records over `s`, in order.
pub open spec fn run_counts(s: Seq<u32>) -> Seq<nat>
    decreases s.len(),
{
    if s.len() == 0 {
        Seq::empty()
    } else {
        let counts = run_counts(s.drop_last());
        if s.last() != predecessor(s) {
            counts.push(3)
        } else if counts.len() == 0 {
            counts
        } else {
            counts.update(counts.len() - 1, counts.last() + 3)
        }
    }
}

/// The entries of `s` as mathematical naturals.
pub open spec fn as_nats(s: Seq<usize>) -> Seq<nat> {
    s.map_values(|c: usize| c as nat)
}

/// Every entry recorded over `s` is at most three times its length.
proof fn lemma_run_counts_bounded(s: Seq<u32>)
    ensures
        forall|k: int| 0 <= k < run_counts(s).len() ==> run_counts(s)[k] <= 3 * s.len(),
    decreases s.len(),
{
    if s.len() > 0 {
        let prefix = s.drop_last();
        lemma_run_counts_bounded(prefix);
        let c = run_counts(prefix);
        if c.len() > 0 {
            assert(c.last() <= 3 * prefix.len());
        }
    }
}

/// Counts the runs of `values` against the sentinel 0, as [`run_counts`]
/// describes.
pub fn count_runs(values: &Vec<u32>) -> (counts: Vec<usize>)
    requires
        values@.len() <= usize::MAX / 3,
    ensures
        as_nats(counts@) == run_counts(values@),
{
    let n = values.len();
    let mut counts: Vec<usize> = Vec::with_capacity(n);
    let mut prev: u32 = 0;
    let mut i: usize = 0;
    while i < n
        invariant
            i <= n,
            n == values@.len(),
            n <= usize::MAX / 3,
            prev == (if i == 0 { 0u32 } else { values@[i - 1] }),
            as_nats(counts@) =~= run_counts(values@.take(i as int)),
        decreases n - i,
    {
        let x = values[i];
        let ghost before = values@.take(i as int);
        let ghost after = values@.take(i + 1);
        proof {
            assert(after.drop_last() =~= before);
            lemma_run_counts_bounded(before);
        }
        if x != prev {
            prev = x;
            counts.push(3);
        } else if counts.len() > 0 {
            let last = counts.len() - 1;
            let c = counts[last];
            assert(as_nats(counts@)[last as int] == c as nat);
            counts.set(last, c + 3);
        }
        i = i + 1;
    }
    proof {
        assert(values@.take(n as int) =~= values@);
    }
    counts
}

/// Sorts `values` in place, then counts its runs against the sentinel 0.
pub fn sort_vec(values: &mut Vec<u32>) -> (counts: Vec<usize>)
    requires
        old(values)@.len() <= usize::MAX / 3,
    ensures
        is_sorted(final(values)@),
        final(values)@.to_multiset() == old(values)@.to_multiset(),
        as_nats(counts@) == run_counts(final(values)@),
{
    sort_ascending(values);
    proof {
        broadcast use vstd::seq_lib::group_to_multiset_ensures;
        assert(values@.len() == values@.to_multiset().len());
    }
    count_runs(values)
}

/// The sum of the entries of `s`.
pub open spec fn total(s: Seq<nat>) -> int
    decreases s.len(),
{
    if s.len() == 0 {
        0
    } else {
        total(s.drop_last()) + s.last()
    }
}

/// Over a sequence that holds no 0, every element adds 3 to the total, and a
/// non-empty such sequence records at least one entry.
proof fn lemma_total_without_zeros(s: Seq<u32>)
    requires
        forall|i: int| 0 <= i < s.len() ==> s[i] != 0,
    ensures
        total(run_counts(s)) == 3 * s.len(),
        s.len() > 0 ==> run_counts(s).len() > 0,
    decreases s.len(),
{
    if s.len() > 0 {
        let prefix = s.drop_last();
        lemma_total_without_zeros(prefix);
        let c = run_counts(prefix);
        if s.last() != predecessor(s) {
            assert(c.push(3).drop_last() =~= c);
        } else {
            let l = c.len() - 1;
            assert(c.update(l, c.last() + 3).drop_last() =~= c.drop_last());
        }
    }
}

/// When no input value is 0, the counts reported for the sorted input add up
/// to three times the input's length.
pub proof fn lemma_total_is_three_per_element(input: Seq<u32>, sorted: Seq<u32>)
    requires
        forall|i: int| 0 <= i < input.len() ==> input[i] != 0,
        is_sorted(sorted),
        sorted.to_multiset() == input.to_multiset(),
    ensures
        total(run_counts(sorted)) == 3 * input.len(),
{
    broadcast use vstd::seq_lib::group_to_multiset_ensures;

    assert forall|i: int| 0 <= i < sorted.len() implies sorted[i] != 0 by {
        if sorted[i] == 0 {
            assert(sorted.to_multiset().count(0) > 0);
            let j = choose|j: int| 0 <= j < input.len() && input[j] == 0;
        }
    }
    assert(sorted.to_multiset().len() == sorted.len());
    assert(input.to_multiset().len() == input.len());
    lemma_total_without_zeros(sorted);
}

/// A single value is counted as `[3]`, unless it equals the sentinel 0, in
/// which case nothing is recorded.
pub proof fn lemma_single_value(v: u32, sorted: Seq<u32>)
    requires
        is_sorted(sorted),
        sorted.to_multiset() == seq![v].to_multiset(),
    ensures
        run_counts(sorted) == (if v == 0 {
            Seq::<nat>::empty()
        } else {
            seq![3nat]
        }),
{
    broadcast use vstd::seq_lib::group_to_multiset_ensures;

    assert(sorted.to_multiset().len() == sorted.len());
    assert(seq![v].to_multiset().len() == 1);
    assert(seq![v].to_multiset().count(v) > 0) by {
        assert(seq![v][0] == v);
    }
    assert(sorted.to_multiset().count(v) > 0);
    assert(sorted[0] == v);
    assert(sorted.drop_last() =~= Seq::<u32>::empty());
    assert(run_counts(sorted.drop_last()) =~= Seq::<nat>::empty());
    assert(predecessor(sorted) == 0);
    assert(run_counts(sorted) =~= (if v == 0 {
        Seq::<nat>::empty()
    } else {
        seq![3nat]
    }));
}

} // verus!
