//! Facts about lists.

use vstd::prelude::*;

verus! {

/// A filter that every item passes changes nothing.
pub proof fn lemma_filter_keeps_all<A>(s: Seq<A>, pred: spec_fn(A) -> bool)
    requires
        forall|i: int| 0 <= i < s.len() ==> pred(#[trigger] s[i]),
    ensures
        s.filter(pred) == s,
    decreases s.len(),
{
    reveal(Seq::filter);
    if s.len() > 0 {
        lemma_filter_keeps_all(s.drop_last(), pred);
        assert(s =~= s.drop_last().push(s.last()));
    }
}

/// A filter that all items pass but one takes that one out.
pub proof fn lemma_filter_drops_one<A>(s: Seq<A>, pred: spec_fn(A) -> bool, at: int)
    requires
        0 <= at < s.len(),
        !pred(s[at]),
        forall|i: int| 0 <= i < s.len() && i != at ==> pred(#[trigger] s[i]),
    ensures
        s.filter(pred) == s.remove(at),
{
    let a = s.take(at);
    let b = seq![s[at]];
    let c = s.skip(at + 1);
    assert(s =~= (a + b) + c);
    Seq::filter_distributes_over_add(a + b, c, pred);
    Seq::filter_distributes_over_add(a, b, pred);
    lemma_filter_keeps_all(a, pred);
    lemma_filter_keeps_all(c, pred);
    assert(b.filter(pred) =~= Seq::<A>::empty()) by {
        reveal(Seq::filter);
        assert(b.drop_last() =~= Seq::<A>::empty());
        assert(b.drop_last().filter(pred) =~= Seq::<A>::empty());
    }
    assert(s.remove(at) =~= (a + Seq::<A>::empty()) + c);
}

} // verus!
