//! Small general facts about sequences that several modules share.

use vstd::prelude::*;

verus! {

/// Inserting an element anywhere in a sequence adds exactly that element
/// to its multiset.
pub proof fn lemma_insert_multiset<A>(s: Seq<A>, pos: int, e: A)
    requires
        0 <= pos <= s.len(),
    ensures
        s.insert(pos, e).to_multiset() == s.to_multiset().insert(e),
{
    broadcast use vstd::seq_lib::group_to_multiset_ensures;
    broadcast use vstd::multiset::group_multiset_axioms;

    let t = s.insert(pos, e);
    s.insert_ensures(pos, e);
    assert(t.remove(pos) =~= s);
    assert(t.remove(pos).to_multiset() =~= t.to_multiset().remove(t[pos]));
    assert(t[pos] == e);
    assert(t.contains(e));
    assert(t.to_multiset().count(e) > 0);
    assert(t.to_multiset() =~= s.to_multiset().insert(e));
}

} // verus!
