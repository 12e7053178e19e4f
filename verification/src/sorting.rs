//! Sorting of integers.
use vstd::prelude::*;

verus! {

/// Ascending order.
pub open spec fn ascending(keys: Seq<u128>) -> bool {
    forall|i: int, j: int| 0 <= i <= j < keys.len() ==> keys[i] <= keys[j]
}

/// `slice::sort_unstable` on integers: the same elements, each as often as
/// before, in ascending order.
#[verifier::external_body]
pub(crate) fn sort_unstable(keys: &mut Vec<u128>)
    ensures
        ascending(final(keys)@),
        final(keys)@.to_multiset() == old(keys)@.to_multiset(),
{
    keys.sort_unstable()
}

/// Sorts keys of which none occurs twice.
pub fn sort_distinct(keys: &mut Vec<u128>)
    requires
        old(keys)@.no_duplicates(),
    ensures
        final(keys)@.no_duplicates(),
        final(keys)@.to_set() == old(keys)@.to_set(),
        final(keys)@.len() == old(keys)@.len(),
        forall|i: int, j: int|
            0 <= i < j < final(keys)@.len() ==> final(keys)@[i] < final(keys)@[j],
{
    broadcast use vstd::seq_lib::group_to_multiset_ensures;

    let ghost before = keys@;
    sort_unstable(keys);
    proof {
        before.lemma_multiset_has_no_duplicates();
        keys@.lemma_multiset_has_no_duplicates_conv();
        assert forall|key: u128| keys@.contains(key) == before.contains(key) by {
            assert(keys@.to_multiset().count(key) == before.to_multiset().count(key));
        }
        assert(keys@.to_set() =~= before.to_set());
        assert(before.to_multiset().len() == before.len());
    }
}

} // verus!
