//! What removing and replacing ranks does to ownership, and when it fails.
use crate::model::DcCkfModel;
use crate::protocol::KvCacheEventError;
use crate::publication::DeltaModel;
use vstd::prelude::*;
#[allow(unused_imports)]
use crate::event_laws::lemma_sweeps_keep_the_rest;
#[allow(unused_imports)]
use crate::memory::listing_refused;
#[allow(unused_imports)]
use crate::model::{build_room_refused, grants_answered, store_room_refused};
#[allow(unused_imports)]
use crate::ownership::{lemma_with_replaced, members_of, owns};
#[allow(unused_imports)]
use crate::placement::{
    is_full, law_granted_store_fails_only_for_a_cause, walked_in_vain, Stop,
};
#[allow(unused_imports)]
use crate::protocol::MEMBER_KEY_END;

verus! {

/// Removing a rank takes everything from it and nothing from anyone else, and
/// subscribers have seen the lane afterwards. It fails only where the allocator
/// refused the room to list the blocks of a rank that has some, and then
/// changes nothing.
pub proof fn law_rank_removal_takes_everything(
    state: DcCkfModel,
    key: u128,
    after: DcCkfModel,
    result: Result<Option<DeltaModel>, KvCacheEventError>,
)
    requires
        state.inv(),
        state.may_remove_rank(key, after, result),
    ensures
        match result {
            Ok(_) => {
                &&& forall|k: u128, h: u64| #[trigger]
                    owns(after.members, k, h) == (owns(state.members, k, h) && k != key)
                &&& after.published() == after.lane
                &&& after.pending_events == 0
            },
            Err(error) => {
                &&& error == KvCacheEventError::CapacityExhausted
                &&& after == state
                &&& exists|hash: u64| owns(state.members, key, hash)
                &&& listing_refused(state.members[key].len() as usize)
            },
        },
{
    match result {
        Ok(delta) => {
            let sweep = choose|sweep: Option<Seq<u64>>| #[trigger]
                state.sweep_fits(key, sweep) && (after, delta) == state.swept(
                    key,
                    sweep,
                ).0.drained();
            state.lemma_swept(key, sweep);
            state.swept(key, sweep).0.lemma_drained();
        },
        Err(_) => {
            assert(!(state.members[key] =~= Set::empty()));
            let hash = state.members[key].choose();
            assert(owns(state.members, key, hash));
        },
    }
}

/// Removing a worker takes everything from all its ranks and nothing from
/// anyone else, and subscribers have seen the lane afterwards. It fails only
/// where the allocator refused the room to list the blocks of a rank, which
/// then keeps all of them; every other rank of the worker keeps all it had or
/// nothing.
pub proof fn law_worker_removal_takes_everything(
    state: DcCkfModel,
    worker_id: u64,
    after: DcCkfModel,
    result: Result<Option<DeltaModel>, KvCacheEventError>,
)
    requires
        state.inv(),
        state.may_remove_worker(worker_id, after, result),
    ensures
        forall|k: u128, h: u64|
            k as int / 0x1_0000_0000 != worker_id ==> #[trigger] owns(after.members, k, h) == owns(
                state.members,
                k,
                h,
            ),
        match result {
            Ok(_) => {
                &&& forall|k: u128, h: u64|
                    k as int / 0x1_0000_0000 == worker_id ==> !#[trigger] owns(after.members, k, h)
                &&& after.published() == after.lane
                &&& after.pending_events == 0
            },
            Err(error) => {
                &&& error == KvCacheEventError::CapacityExhausted
                &&& forall|k: u128| #[trigger]
                    after.members.contains_key(k) ==> after.members[k] == state.members[k]
                &&& exists|k: u128|
                    {
                        &&& #[trigger] after.members.contains_key(k)
                        &&& k as int / 0x1_0000_0000 == worker_id
                        &&& after.members[k] == state.members[k]
                        &&& listing_refused(state.members[k].len() as usize)
                    }
            },
        },
{
    let (order, sweeps) = choose|order: Seq<u128>, sweeps: Seq<Option<Seq<u64>>>|
        #![trigger state.sweeps_fit(worker_id, order, sweeps)]
        {
            let (swept, error) = state.swept_all(order.take(sweeps.len() as int), sweeps);
            &&& state.sweeps_fit(worker_id, order, sweeps)
            &&& state.sweeps_answered(order, sweeps)
            &&& forall|i: int| 0 <= i < sweeps.len() - 1 ==> (#[trigger] sweeps[i]) is Some
            &&& match result {
                Ok(delta) => error is None && sweeps.len() == order.len() && (after, delta)
                    == swept.drained(),
                Err(refused) => error == Some(refused) && after == swept,
            }
        };
    let count = sweeps.len() as int;
    let (swept, error) = state.swept_all(order.take(count), sweeps);
    state.lemma_swept_all(worker_id, order, sweeps, count);
    lemma_sweeps_keep_the_rest(state, worker_id, order, sweeps, count);
    swept.lemma_drained();
    assert forall|k: u128| order.contains(k) implies k as int / 0x1_0000_0000 == worker_id by {
        assert(order.to_set().contains(k));
        assert(members_of(state.members, worker_id).contains(k));
    }
    assert forall|k: u128, h: u64|
        k as int / 0x1_0000_0000 != worker_id implies #[trigger] owns(after.members, k, h) == owns(
        state.members,
        k,
        h,
    ) by {
        assert(swept.members.contains_key(k) == state.members.contains_key(k));
    }
    match result {
        Ok(_) => {
            assert forall|k: u128, h: u64|
                k as int / 0x1_0000_0000 == worker_id implies !#[trigger] owns(
                after.members,
                k,
                h,
            ) by {
                if owns(after.members, k, h) {
                    assert(swept.members.contains_key(k));
                    assert(members_of(state.members, worker_id).contains(k));
                    assert(order.to_set().contains(k));
                    let i = choose|i: int| 0 <= i < order.len() && order[i] == k;
                    assert(sweeps[i] is Some);
                }
            }
        },
        Err(_) => {
            let i = count - 1;
            assert(sweeps[i] is None);
            let k = order[i];
            lemma_refused_sweep_keeps(state, worker_id, order, sweeps);
            assert(order.contains(k));
            assert(after.members.contains_key(k));
        },
    }
}

/// A rank whose blocks could not be listed keeps them.
proof fn lemma_refused_sweep_keeps(
    state: DcCkfModel,
    worker_id: u64,
    order: Seq<u128>,
    sweeps: Seq<Option<Seq<u64>>>,
)
    requires
        state.inv(),
        state.sweeps_fit(worker_id, order, sweeps),
        sweeps.len() > 0,
        sweeps.last() is None,
    ensures
        state.swept_all(order.take(sweeps.len() as int), sweeps).0.members.contains_key(
            order[sweeps.len() - 1],
        ),
{
    let count = sweeps.len() as int;
    let prefix = order.take(count);
    state.lemma_swept_all(worker_id, order, sweeps, count - 1);
    assert(prefix.drop_last() =~= order.take(count - 1));
    assert(prefix.last() == order[count - 1]);
    let before = state.swept_all(order.take(count - 1), sweeps).0;
    assert(before.members.contains_key(order[count - 1]));
    before.lemma_swept(order[count - 1], sweeps[count - 1]);
}

/// A replacement gives the rank exactly the new blocks and leaves everyone else
/// what they had, and subscribers have seen the lane afterwards.
pub proof fn law_replacement_trades_everything(
    state: DcCkfModel,
    key: u128,
    hashes: Set<u64>,
    after: DcCkfModel,
    delta: Option<DeltaModel>,
)
    requires
        state.inv(),
        key < MEMBER_KEY_END,
        hashes.finite(),
        state.may_replace_rank(key, hashes, after, Ok(delta)),
    ensures
        forall|k: u128, h: u64| #[trigger]
            owns(after.members, k, h) == (if k == key {
                hashes.contains(h)
            } else {
                owns(state.members, k, h)
            }),
        after.published() == after.lane,
        after.pending_events == 0,
        after.config == state.config,
{
    let (pairs, grants, rebuilt) = choose|
        pairs: Seq<(u128, u64)>,
        grants: Seq<bool>,
        rebuilt: DcCkfModel,
    | #[trigger]
        state.is_accepted(key, hashes, pairs, grants, rebuilt) && (after, delta)
            == state.replaced_by(rebuilt).drained();
    state.lemma_replaced(key, hashes, pairs, grants, rebuilt);
    state.replaced_by(rebuilt).lemma_drained();
    lemma_with_replaced(state.members, key, hashes);
}

/// Whether a state on the way to a replacement holds blocks that are wanted, and
/// no others.
pub open spec fn on_the_way(
    state: DcCkfModel,
    key: u128,
    hashes: Set<u64>,
    filled: DcCkfModel,
) -> bool {
    &&& filled.inv()
    &&& filled.config == state.config
    &&& filled.addressing == state.addressing
    &&& forall|k: u128, h: u64| #[trigger]
        owns(filled.members, k, h) ==> (if k == key {
            hashes.contains(h)
        } else {
            owns(state.members, k, h)
        })
}

/// Whether a lane on the way to a replacement has no place for one more block
/// that is wanted: both of its buckets are full, and a walk of all the
/// configured kicks met only full buckets.
pub open spec fn lane_turns_down(
    state: DcCkfModel,
    key: u128,
    hashes: Set<u64>,
    filled: DcCkfModel,
    hash: u64,
) -> bool {
    let probe = state.addressing.probe(hash);
    &&& on_the_way(state, key, hashes, filled)
    &&& hashes.contains(hash) || exists|k: u128| k != key && owns(state.members, k, hash)
    &&& !filled.refcounts.contains_key(hash)
    &&& is_full(filled.lane[probe.bucket_a as int])
    &&& is_full(filled.lane[probe.bucket_b as int])
    &&& exists|stops: Seq<Stop>| #[trigger]
        walked_in_vain(
            state.addressing,
            filled.lane,
            hash,
            stops,
            (state.config.max_kicks + 1) as nat,
        )
}

/// A replacement fails only for a cause and then changes nothing: the allocator
/// refused the room for the new lane and its tables, or for one more block, or
/// the new lane has no place for a block, or a block has more owners than can
/// be counted.
pub proof fn law_replacement_fails_only_for_a_cause(
    state: DcCkfModel,
    key: u128,
    hashes: Set<u64>,
    after: DcCkfModel,
    error: KvCacheEventError,
)
    requires
        state.inv(),
        key < MEMBER_KEY_END,
        state.may_replace_rank(key, hashes, after, Err(error)),
    ensures
        after == state,
        match error {
            KvCacheEventError::CapacityExhausted => {
                ||| build_room_refused(state.config)
                ||| store_room_refused()
                ||| exists|filled: DcCkfModel, hash: u64| #[trigger]
                    lane_turns_down(state, key, hashes, filled, hash)
            },
            KvCacheEventError::IndexerInvariantViolation => exists|filled: DcCkfModel, hash: u64|
                on_the_way(state, key, hashes, filled) && #[trigger] filled.refcount(hash)
                    == u32::MAX,
            _ => false,
        },
{
    if !(error == KvCacheEventError::CapacityExhausted && build_room_refused(state.config)) {
        let (pairs, grants) = choose|pairs: Seq<(u128, u64)>, grants: Seq<bool>| #[trigger]
            state.is_refused(key, hashes, pairs, grants, error);
        reveal(DcCkfModel::is_refused);
        lemma_refused_store(state, key, hashes, pairs, grants, error);
    }
}

/// A rebuilding that fails met a block that was refused.
proof fn lemma_refused_store(
    state: DcCkfModel,
    key: u128,
    hashes: Set<u64>,
    pairs: Seq<(u128, u64)>,
    grants: Seq<bool>,
    error: KvCacheEventError,
)
    requires
        state.inv(),
        key < MEMBER_KEY_END,
        forall|i: int|
            0 <= i < pairs.len() ==> state.is_wanted(key, hashes, #[trigger] pairs[i]),
        grants.len() >= pairs.len(),
        grants_answered(grants),
        state.replacement(pairs, grants).1 == Some(error),
    ensures
        match error {
            KvCacheEventError::CapacityExhausted => {
                ||| store_room_refused()
                ||| exists|filled: DcCkfModel, hash: u64| #[trigger]
                    lane_turns_down(state, key, hashes, filled, hash)
            },
            KvCacheEventError::IndexerInvariantViolation => exists|filled: DcCkfModel, hash: u64|
                on_the_way(state, key, hashes, filled) && #[trigger] filled.refcount(hash)
                    == u32::MAX,
            _ => false,
        },
    decreases pairs.len(),
{
    let rest = pairs.drop_last();
    assert forall|i: int| 0 <= i < rest.len() implies state.is_wanted(
        key,
        hashes,
        #[trigger] rest[i],
    ) by {
        assert(rest[i] == pairs[i]);
    }
    let (before, earlier) = state.replacement(rest, grants);
    if earlier is Some {
        lemma_refused_store(state, key, hashes, rest, grants, error);
    } else {
        let (member, hash) = pairs.last();
        let granted = grants[pairs.len() - 1];
        assert(state.is_wanted(key, hashes, pairs[pairs.len() - 1]));
        assert forall|i: int| 0 <= i < rest.len() implies (#[trigger] rest[i]).0
            < MEMBER_KEY_END by {
            assert(state.is_wanted(key, hashes, rest[i]));
        }
        DcCkfModel::lemma_rebuilt(state.config, state.addressing, rest, grants);
        assert forall|k: u128, h: u64| #[trigger] owns(before.members, k, h) implies (if k == key {
            hashes.contains(h)
        } else {
            owns(state.members, k, h)
        }) by {
            assert(rest.contains((k, h)));
            let i = choose|i: int| 0 <= i < rest.len() && rest[i] == (k, h);
            assert(state.is_wanted(key, hashes, rest[i]));
        }
        if granted {
            law_granted_store_fails_only_for_a_cause(before, member, hash);
            if error == KvCacheEventError::CapacityExhausted {
                assert(lane_turns_down(state, key, hashes, before, hash));
            } else {
                assert(before.refcount(hash) == u32::MAX);
            }
        }
    }
}

} // verus!
