//! Small helpers on vectors, and facts about rearranged sequences.
use vstd::prelude::*;

verus! {

/// Splits a non-empty vector into its first item and the rest.
pub fn split_first<T>(array: Vec<T>) -> (r: (T, Vec<T>))
    requires
        array@.len() > 0,
    ensures
        r.0 == array@[0],
        r.1@ == array@.skip(1),
{
    let mut rest = array;
    let first = rest.remove(0);
    assert(rest@ =~= array@.skip(1));
    (first, rest)
}


/// Rearranging a sequence without duplicates gives one without duplicates.
pub proof fn lemma_no_duplicates_by_multiset<A>(s1: Seq<A>, s2: Seq<A>)
    requires
        s1.to_multiset() == s2.to_multiset(),
        s2.no_duplicates(),
    ensures
        s1.no_duplicates(),
{
    s2.lemma_multiset_has_no_duplicates();
    assert forall|x: A| s1.to_multiset().contains(x) implies s1.to_multiset().count(x) == 1 by {
        assert(s2.to_multiset().contains(x));
    }
    s1.lemma_multiset_has_no_duplicates_conv();
}

/// Every item of a rearranged sequence is an item of the sequence it came
/// from.
pub proof fn lemma_members<A>(s1: Seq<A>, s2: Seq<A>)
    requires
        s1.to_multiset() == s2.to_multiset(),
    ensures
        forall|j: int| 0 <= j < s1.len() ==> s2.contains(#[trigger] s1[j]),
{
    assert forall|j: int| 0 <= j < s1.len() implies s2.contains(#[trigger] s1[j]) by {
        assert(s1.contains(s1[j]));
        vstd::seq_lib::to_multiset_contains(s1, s1[j]);
        vstd::seq_lib::to_multiset_contains(s2, s1[j]);
    }
}

} // verus!
