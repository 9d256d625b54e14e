//! An in-place insertion sort over `Vec<u32>`.

use vstd::prelude::*;

verus! {

/// `s` is in non-decreasing order.
pub open spec fn is_sorted(s: Seq<u32>) -> bool {
    forall|i: int, j: int| 0 <= i <= j < s.len() ==> s[i] <= s[j]
}

/// Exchanging two entries leaves the multiset of a sequence as it was.
proof fn lemma_swap_keeps_multiset(s: Seq<u32>, i: int, j: int)
    requires
        0 <= i < s.len(),
        0 <= j < s.len(),
    ensures
        s.update(i, s[j]).update(j, s[i]).to_multiset() == s.to_multiset(),
{
    broadcast use vstd::seq_lib::to_multiset_update;
    broadcast use vstd::seq_lib::group_to_multiset_ensures;
    broadcast use vstd::multiset::group_multiset_axioms;

    let t = s.update(i, s[j]);
    assert(s.to_multiset().count(s[i]) > 0);
    assert(s.to_multiset().count(s[j]) > 0);
    assert(t[j] == s[j]);
    assert(t.to_multiset() == s.to_multiset().insert(s[j]).remove(s[i]));
    assert(t.update(j, s[i]).to_multiset() == t.to_multiset().insert(s[i]).remove(t[j]));
    assert(t.update(j, s[i]).to_multiset() =~= s.to_multiset());
}

/// Sorts `values` in non-decreasing order, in place.
pub fn sort_ascending(values: &mut Vec<u32>)
    ensures
        is_sorted(final(values)@),
        final(values)@.to_multiset() == old(values)@.to_multiset(),
{
    let n = values.len();
    let mut i: usize = 0;
    while i < n
        invariant
            i <= n,
            values@.len() == n,
            is_sorted(values@.take(i as int)),
            values@.to_multiset() == old(values)@.to_multiset(),
        decreases n - i,
    {
        // Sink the element at `i` into the sorted prefix.
        let mut j: usize = i;
        proof {
            assert forall|a: int, b: int| 0 <= a <= b <= i && a != i && b != i implies values@[a]
                <= values@[b] by {
                assert(values@.take(i as int)[a] == values@[a]);
                assert(values@.take(i as int)[b] == values@[b]);
            }
        }
        while j > 0 && values[j - 1] > values[j]
            invariant
                j <= i < n,
                values@.len() == n,
                values@.to_multiset() == old(values)@.to_multiset(),
                forall|a: int, b: int|
                    0 <= a <= b <= i && a != j && b != j ==> values@[a] <= values@[b],
                forall|b: int| j < b <= i ==> values@[j as int] <= values@[b],
            decreases j,
        {
            let lo = values[j - 1];
            let hi = values[j];
            proof {
                lemma_swap_keeps_multiset(values@, j - 1, j as int);
            }
            values.set(j - 1, hi);
            values.set(j, lo);
            j = j - 1;
        }
        proof {
            let prefix = values@.take(i + 1);
            assert forall|a: int, b: int| 0 <= a <= b < prefix.len() implies prefix[a]
                <= prefix[b] by {
                if a < j && b == j {
                    assert(values@[a] <= values@[j - 1]);
                }
            }
        }
        i = i + 1;
    }
    proof {
        assert(values@.take(n as int) =~= values@);
    }
}

} // verus!
