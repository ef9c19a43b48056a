//! Two facts about what a sequence holds.

use vstd::prelude::*;

verus! {

/// What two sequences hold one after the other is what either holds.
pub proof fn lemma_concat_contains<A>(a: Seq<A>, b: Seq<A>, e: A)
    ensures
        (a + b).contains(e) <==> a.contains(e) || b.contains(e),
{
    if (a + b).contains(e) {
        let i = choose|i: int| 0 <= i < (a + b).len() && (a + b)[i] == e;
        if i < a.len() {
            assert(a[i] == e);
        } else {
            assert(b[i - a.len()] == e);
        }
    }
    if a.contains(e) {
        let i = choose|i: int| 0 <= i < a.len() && a[i] == e;
        assert((a + b)[i] == e);
    }
    if b.contains(e) {
        let i = choose|i: int| 0 <= i < b.len() && b[i] == e;
        assert((a + b)[a.len() + i] == e);
    }
}

/// A filtered sequence holds exactly what the sequence holds and the filter
/// lets through.
pub proof fn lemma_filter_contains<A>(all: Seq<A>, keep: spec_fn(A) -> bool, e: A)
    ensures
        all.filter(keep).contains(e) <==> all.contains(e) && keep(e),
{
    let kept = all.filter(keep);
    if kept.contains(e) {
        let i = choose|i: int| 0 <= i < kept.len() && kept[i] == e;
        all.lemma_filter_pred(keep, i);
        all.lemma_filter_contains_rev(keep, e);
    }
    if all.contains(e) && keep(e) {
        let i = choose|i: int| 0 <= i < all.len() && all[i] == e;
        all.lemma_filter_contains(keep, i);
    }
}

} // verus!
