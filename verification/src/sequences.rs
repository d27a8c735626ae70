//! What every filter of a sequence does.
use vstd::prelude::*;

verus! {

/// A filter that every item passes leaves the sequence as it is, and one that no
/// item passes leaves nothing.
pub proof fn lemma_filter_all_or_none<A>(items: Seq<A>, keep: spec_fn(A) -> bool)
    ensures
        (forall|i: int| 0 <= i < items.len() ==> keep(#[trigger] items[i])) ==> items.filter(keep)
            == items,
        (forall|i: int| 0 <= i < items.len() ==> !keep(#[trigger] items[i])) ==> items.filter(keep)
            == Seq::<A>::empty(),
    decreases items.len(),
{
    reveal(Seq::filter);
    if items.len() == 0 {
        assert(items =~= Seq::<A>::empty());
    } else {
        let shorter = items.drop_last();
        lemma_filter_all_or_none(shorter, keep);
        if forall|i: int| 0 <= i < items.len() ==> keep(#[trigger] items[i]) {
            assert forall|i: int| 0 <= i < shorter.len() implies keep(#[trigger] shorter[i]) by {
                assert(shorter[i] == items[i]);
            }
            assert(keep(items[items.len() - 1]));
            assert(shorter.push(items.last()) =~= items);
        }
        if forall|i: int| 0 <= i < items.len() ==> !keep(#[trigger] items[i]) {
            assert forall|i: int| 0 <= i < shorter.len() implies !keep(#[trigger] shorter[i]) by {
                assert(shorter[i] == items[i]);
            }
            assert(!keep(items[items.len() - 1]));
        }
    }
}

} // verus!
