//! A counting argument used to show that searches for a free port or a free
//! slug always end.

use vstd::prelude::*;

verus! {

/// More distinct candidates than taken values: some candidate is not taken.
pub proof fn lemma_pigeonhole<A>(cands: Seq<A>, taken: Seq<A>)
    requires
        cands.no_duplicates(),
        cands.len() > taken.len(),
    ensures
        exists|i: int| 0 <= i < cands.len() && !taken.contains(#[trigger] cands[i]),
{
    broadcast use vstd::seq_lib::seq_to_set_is_finite;

    if forall|i: int| 0 <= i < cands.len() ==> taken.contains(#[trigger] cands[i]) {
        cands.unique_seq_to_set();
        taken.lemma_cardinality_of_set();
        assert(cands.to_set().subset_of(taken.to_set())) by {
            assert forall|x: A| cands.to_set().contains(x) implies taken.to_set().contains(x) by {
                let i = choose|i: int| 0 <= i < cands.len() && cands[i] == x;
                assert(taken.contains(cands[i]));
            }
        }
        vstd::set_lib::lemma_len_subset(cands.to_set(), taken.to_set());
        assert(false);
    }
}

} // verus!
