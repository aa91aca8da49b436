//! Amounts in ascending order.

use vstd::prelude::*;
use vstd::relations;
use vstd::seq_lib;

verus! {

/// The order of amounts.
pub open spec fn at_most() -> spec_fn(u64, u64) -> bool {
    |a: u64, b: u64| a <= b
}

/// `s` in ascending order.
pub open spec fn ascending(s: Seq<u64>) -> Seq<u64> {
    s.sort_by(at_most())
}

/// Ascending order holds the same amounts, each not above the next.
pub proof fn law_ascending(s: Seq<u64>)
    ensures
        ascending(s).to_multiset() == s.to_multiset(),
        ascending(s).len() == s.len(),
        forall|i: int, j: int|
            0 <= i < j < ascending(s).len() ==> #[trigger] ascending(s)[i] <= #[trigger] ascending(
                s,
            )[j],
{
    s.lemma_sort_by_ensures(at_most());
    s.to_multiset_ensures();
    ascending(s).to_multiset_ensures();
    assert forall|i: int, j: int| 0 <= i < j < ascending(s).len() implies #[trigger] ascending(s)[i]
        <= #[trigger] ascending(s)[j] by {
        assert(at_most()(ascending(s)[i], ascending(s)[j]));
    }
}

/// The amounts in ascending order.
pub fn sorted(v: &[u64]) -> (r: Vec<u64>)
    ensures
        r@ == ascending(v@),
        r@.len() == v@.len(),
{
    let mut out: Vec<u64> = Vec::new();
    proof {
        assert(v@.take(0) =~= seq![]);
    }
    for i in 0..v.len()
        invariant
            out@.len() == i,
            out@.to_multiset() == v@.take(i as int).to_multiset(),
            forall|a: int, b: int| 0 <= a < b < out@.len() ==> out@[a] <= out@[b],
    {
        let x: u64 = v[i];
        let mut k: usize = out.len();
        while k > 0 && out[k - 1] > x
            invariant
                k <= out@.len(),
                forall|a: int, b: int| 0 <= a < b < out@.len() ==> out@[a] <= out@[b],
                forall|a: int| k <= a < out@.len() ==> out@[a] > x,
            decreases k,
        {
            k = k - 1;
        }
        proof {
            assert(v@.take(i + 1) =~= v@.take(i as int).push(x));
            seq_lib::to_multiset_build(v@.take(i as int), x);
            seq_lib::to_multiset_insert(out@, k as int, x);
        }
        out.insert(k, x);
    }
    proof {
        assert(v@.take(v@.len() as int) =~= v@);
        v@.lemma_sort_by_ensures(at_most());
        assert(relations::sorted_by(out@, at_most()));
        seq_lib::lemma_sorted_unique(out@, ascending(v@), at_most());
    }
    out
}

} // verus!
