//! Allocation requests that may be refused.
use vstd::prelude::*;

verus! {

/// `Vec::try_reserve_exact`: makes room for further elements, or reports that
/// the allocator refused. The elements stay either way; whether room is
/// granted is up to the machine, so nothing is said of it.
#[verifier::external_body]
pub(crate) fn try_reserve_exact<T>(vec: &mut Vec<T>, additional: usize) -> (granted: bool)
    ensures
        final(vec)@ == old(vec)@,
{
    vec.try_reserve_exact(additional).is_ok()
}

/// Whether a call of [`try_reserve_exact`] for so many elements came back
/// refused. Only such a call can show it.
pub closed spec fn room_refused<T>(additional: usize) -> bool {
    exists|vec: &mut Vec<T>| #[trigger]
        call_ensures(try_reserve_exact::<T>, (vec, additional), false)
}

/// Whether a call of `Vec::try_reserve` for a list of so many blocks came back
/// with an error. Only such a call can show it.
pub closed spec fn listing_refused(additional: usize) -> bool {
    exists|vec: &mut Vec<u64>, error: std::collections::TryReserveError| #[trigger]
        call_ensures(Vec::<u64>::try_reserve, (vec, additional), Err(error))
}

/// Room counts as refused only where the allocator was asked for so much and
/// answered that it has none.
pub(crate) proof fn law_refused_room_was_asked_for<T>(additional: usize)
    ensures
        room_refused::<T>(additional) ==> exists|vec: &mut Vec<T>| #[trigger]
            call_ensures(try_reserve_exact::<T>, (vec, additional), false),
        listing_refused(additional) ==> exists|
            vec: &mut Vec<u64>,
            error: std::collections::TryReserveError,
        | #[trigger]
            call_ensures(Vec::<u64>::try_reserve, (vec, additional), Err(error)),
{
}

/// Makes room for a list of blocks, or shows that it was refused.
pub fn try_list(list: &mut Vec<u64>, additional: usize) -> (granted: bool)
    ensures
        final(list)@ == old(list)@,
        !granted ==> listing_refused(additional),
{
    match list.try_reserve(additional) {
        Ok(()) => true,
        Err(_error) => false,
    }
}

/// Makes room for further elements, or shows that it was refused.
pub fn try_room<T>(vec: &mut Vec<T>, additional: usize) -> (granted: bool)
    ensures
        final(vec)@ == old(vec)@,
        !granted ==> room_refused::<T>(additional),
{
    try_reserve_exact(vec, additional)
}

/// What a request leads to for each answer of the allocator: what the room was
/// asked for if it was granted, and nothing if it was refused.
pub fn if_granted<T>(value: T, granted: bool) -> (result: Option<T>)
    ensures
        result == (if granted {
            Some(value)
        } else {
            None
        }),
{
    if granted {
        Some(value)
    } else {
        None
    }
}

/// `Vec::capacity`: a number of elements that fit without a new allocation. It
/// covers the elements that are there; how far it exceeds them is up to the
/// allocator.
#[verifier::external_body]
pub(crate) fn vec_capacity<T>(vec: &Vec<T>) -> (capacity: usize)
    ensures
        capacity >= vec@.len(),
{
    vec.capacity()
}

} // verus!
