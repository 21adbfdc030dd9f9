//! Small general facts about sequences used by the store and the registry.

use vstd::prelude::*;

verus! {

use vstd::seq_lib::lemma_multiset_commutative;

/// One filtering step: filtering a one-longer prefix keeps the filtered
/// prefix and appends the next element exactly when it matches.
pub proof fn lemma_filter_take_succ<A>(s: Seq<A>, pred: spec_fn(A) -> bool, i: int)
    requires
        0 <= i < s.len(),
    ensures
        pred(s[i]) ==> s.take(i + 1).filter(pred) == s.take(i).filter(pred).push(s[i]),
        !pred(s[i]) ==> s.take(i + 1).filter(pred) == s.take(i).filter(pred),
{
    reveal(Seq::filter);
    assert(s.take(i + 1) =~= s.take(i).push(s[i]));
    assert(s.take(i + 1).drop_last() =~= s.take(i));
}

/// Filtering an empty prefix yields nothing.
pub proof fn lemma_filter_take_zero<A>(s: Seq<A>, pred: spec_fn(A) -> bool)
    ensures
        s.take(0).filter(pred) == Seq::<A>::empty(),
{
    reveal(Seq::filter);
    assert(s.take(0).filter(pred) =~= Seq::<A>::empty());
}

/// Inserting into a sequence inserts into its multiset.
pub proof fn lemma_insert_to_multiset<A>(s: Seq<A>, pos: int, e: A)
    requires
        0 <= pos <= s.len(),
    ensures
        s.insert(pos, e).to_multiset() == s.to_multiset().insert(e),
{
    broadcast use vstd::seq_lib::group_to_multiset_ensures;
    broadcast use vstd::multiset::group_multiset_axioms;

    assert(s.insert(pos, e) =~= s.take(pos).push(e) + s.skip(pos));
    lemma_multiset_commutative(s.take(pos).push(e), s.skip(pos));
    assert(s =~= s.take(pos) + s.skip(pos));
    lemma_multiset_commutative(s.take(pos), s.skip(pos));
    assert(s.insert(pos, e).to_multiset() =~= s.to_multiset().insert(e));
}

} // verus!
