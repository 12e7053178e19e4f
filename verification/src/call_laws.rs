//! What a caller may rely on, call by call.
use crate::actor::{ActorCommand, ActorReaction, RelayActor};
use crate::addressing::{CkfAddressing, CkfProbe};
use crate::bucket::OwnedPackedCkfLane;
use crate::config::{CkfBuildError, CkfConfig};
use crate::mutator::{CuckooInsertionScratch, CuckooMutator, Write};
use crate::protocol::{
    ExternalSequenceBlockHash, KvCacheEventData, KvCacheEventError, KvCacheRemoveData,
    KvCacheStoreData, RouterEvent, StorageTier, WorkerWithDpRank,
};
use crate::publication::{
    DcCkfDelta, DcCkfEventOutcome, DcCkfFormatIdentity, DcCkfSnapshot, DcCkfStats,
};
use crate::relay::{replacement_hashes, KvDcRelayError};
use crate::state::DcCkfState;
use rustc_hash::FxHashSet;
use vstd::prelude::*;
#[allow(unused_imports)]
use crate::addressing::mixed;
#[allow(unused_imports)]
use crate::addressing_laws::law_probe_reads_the_mixed_hash;
#[allow(unused_imports)]
use crate::event_laws::{
    had_to_be_refused, key_of, law_clear_event_takes_all_ranks, law_every_nth_event_publishes,
    law_other_tiers_have_no_say, law_remove_event_takes_its_blocks,
    law_store_event_gives_its_blocks,
};
#[allow(unused_imports)]
use crate::laws::{law_found_exactly_when_a_colliding_block_is_owned, owned_blocks};
#[allow(unused_imports)]
use crate::memory::{listing_refused, room_refused};
#[allow(unused_imports)]
use crate::model::{build_room_refused, store_room_refused};
#[allow(unused_imports)]
use crate::ownership::{contributions, owners, owns};
#[allow(unused_imports)]
use crate::placement::{
    emptied_one_slot, holds, is_full, law_empty_slot_is_taken,
    law_granted_store_fails_only_for_a_cause,
    law_insertion_fails_only_after_all_kicks, law_removal_empties_one_slot, walked_in_vain, Stop,
};
#[allow(unused_imports)]
use crate::rank_laws::{
    lane_turns_down, law_rank_removal_takes_everything, law_replacement_fails_only_for_a_cause,
    law_replacement_trades_everything, law_worker_removal_takes_everything, on_the_way,
};
#[allow(unused_imports)]
use crate::relay_laws::{
    belongs, law_dump_in_order_exactly_when_events_belong, law_dump_stands_for_its_device_blocks,
    names,
};
#[allow(unused_imports)]
use crate::report_laws::{
    law_count_is_the_number_of_owners, law_member_counts_list_everyone,
    law_new_aggregation_is_empty, law_stats_report_what_is_there, law_store_adds_one_owner,
};
#[allow(unused_imports)]
use crate::transitions::result_model;

verus! {

/// A new aggregation is empty and has the configured seed and interval; building
/// one fails for a fault of the configuration, or where the allocator refused
/// room.
pub proof fn law_new_builds_an_empty_aggregation(
    config: CkfConfig,
    result: Result<DcCkfState, CkfBuildError>,
)
    requires
        call_ensures(DcCkfState::new, (config,), result),
    ensures
        match result {
            Ok(state) => {
                &&& state.wf()
                &&& config.expected_blocks_per_dc > 0
                &&& config.publish_every_n_events > 0
                &&& state@.config == config
                &&& state@.addressing.seed() == config.seed
                &&& forall|key: u128, hash: u64| !#[trigger] owns(state@.members, key, hash)
                &&& forall|i: int| 0 <= i < state@.lane.len() ==> #[trigger] state@.lane[i] == 0
                &&& state@.published() == state@.lane
                &&& state@.sequence == 0
                &&& state@.pending_events == 0
            },
            Err(CkfBuildError::ZeroExpectedBlocks) => config.expected_blocks_per_dc == 0,
            Err(CkfBuildError::ZeroPublicationInterval) => config.expected_blocks_per_dc > 0
                && config.publish_every_n_events == 0,
            Err(CkfBuildError::CapacityOverflow) => config.expected_blocks_per_dc > 3 * (usize::MAX
                / 128),
            Err(CkfBuildError::AllocationFailed) => build_room_refused(config),
        },
{
    if let Ok(state) = result {
        law_new_aggregation_is_empty(config, state@.addressing);
    }
}

/// Applying an event that counts publishes when it is the last of the configured
/// number, and not before.
pub proof fn law_apply_event_publishes_when_due(event: RouterEvent, outcome: DcCkfEventOutcome)
    requires
        event.storage_tier == StorageTier::Device || event.event.data is Cleared,
    ensures
        forall|state: &mut DcCkfState| #[trigger]
            call_ensures(DcCkfState::apply_event, (state, event), outcome) && state.wf() ==> {
                let (before, after) = (state@, (*final(state))@);
                let due = before.pending_events + 1 >= before.config.publish_every_n_events;
                &&& outcome@.publication_boundary == due
                &&& due ==> after.published() == after.lane && after.pending_events == 0
                &&& !due ==> after.published() == before.published() && after.pending_events
                    == before.pending_events + 1 && outcome@.delta is None
            },
{
    assert forall|state: &mut DcCkfState| #[trigger]
        call_ensures(DcCkfState::apply_event, (state, event), outcome) && state.wf() implies {
        let (before, after) = (state@, (*final(state))@);
        let due = before.pending_events + 1 >= before.config.publish_every_n_events;
        &&& outcome@.publication_boundary == due
        &&& due ==> after.published() == after.lane && after.pending_events == 0
        &&& !due ==> after.published() == before.published() && after.pending_events
            == before.pending_events + 1 && outcome@.delta is None
    } by {
        law_every_nth_event_publishes(state@, event, (*final(state))@, outcome@);
    }
}

/// Applying a store event of the device tier gives its rank each block that it
/// lists, unless the block had to be refused, of which the outcome tells.
pub proof fn law_apply_event_stores(
    event: RouterEvent,
    store: KvCacheStoreData,
    outcome: DcCkfEventOutcome,
    i: int,
)
    requires
        event.storage_tier == StorageTier::Device,
        event.event.data == KvCacheEventData::Stored(store),
        0 <= i < store.blocks@.len(),
    ensures
        forall|state: &mut DcCkfState| #[trigger]
            call_ensures(DcCkfState::apply_event, (state, event), outcome) && state.wf() ==> owns(
                (*final(state))@.members,
                key_of(event),
                store.blocks@[i].block_hash.0,
            ) || (outcome@.first_error is Some && had_to_be_refused(
                (*final(state))@,
                store.blocks@[i].block_hash.0,
            )),
{
    assert forall|state: &mut DcCkfState| #[trigger]
        call_ensures(DcCkfState::apply_event, (state, event), outcome) && state.wf() implies owns(
        (*final(state))@.members,
        key_of(event),
        store.blocks@[i].block_hash.0,
    ) || (outcome@.first_error is Some && had_to_be_refused(
        (*final(state))@,
        store.blocks@[i].block_hash.0,
    )) by {
        law_store_event_gives_its_blocks(state@, event, store, (*final(state))@, outcome@);
    }
}

/// Applying a store event of the device tier takes no block from anyone, and
/// gives none to anyone but the blocks that it lists to its rank.
pub proof fn law_apply_event_stores_nothing_else(
    event: RouterEvent,
    store: KvCacheStoreData,
    outcome: DcCkfEventOutcome,
    key: u128,
    hash: u64,
)
    requires
        event.storage_tier == StorageTier::Device,
        event.event.data == KvCacheEventData::Stored(store),
        key != key_of(event) || forall|i: int|
            0 <= i < store.blocks@.len() ==> (#[trigger] store.blocks@[i]).block_hash.0 != hash,
    ensures
        forall|state: &mut DcCkfState| #[trigger]
            call_ensures(DcCkfState::apply_event, (state, event), outcome) && state.wf() ==> owns(
                (*final(state))@.members,
                key,
                hash,
            ) == owns(state@.members, key, hash),
{
    assert forall|state: &mut DcCkfState| #[trigger]
        call_ensures(DcCkfState::apply_event, (state, event), outcome) && state.wf() implies owns(
        (*final(state))@.members,
        key,
        hash,
    ) == owns(state@.members, key, hash) by {
        law_store_event_gives_its_blocks(state@, event, store, (*final(state))@, outcome@);
    }
}

/// Applying a removal of the device tier takes from its rank the blocks that it
/// names, and nothing else from anyone.
pub proof fn law_apply_event_removes(
    event: RouterEvent,
    remove: KvCacheRemoveData,
    outcome: DcCkfEventOutcome,
    key: u128,
    hash: u64,
)
    requires
        event.storage_tier == StorageTier::Device,
        event.event.data == KvCacheEventData::Removed(remove),
    ensures
        forall|state: &mut DcCkfState| #[trigger]
            call_ensures(DcCkfState::apply_event, (state, event), outcome) && state.wf() ==> {
                &&& outcome@.first_error is None
                &&& owns((*final(state))@.members, key, hash) == (owns(state@.members, key, hash)
                    && !(key == key_of(event) && exists|i: int|
                    0 <= i < remove.block_hashes@.len() && (#[trigger] remove.block_hashes@[i]).0
                        == hash))
            },
{
    let named = Seq::new(remove.block_hashes@.len(), |i: int| remove.block_hashes@[i].0);
    if named.contains(hash) {
        let i = choose|i: int| 0 <= i < named.len() && named[i] == hash;
        assert(remove.block_hashes@[i].0 == hash);
    }
    if exists|i: int|
        0 <= i < remove.block_hashes@.len() && (#[trigger] remove.block_hashes@[i]).0 == hash {
        let i = choose|i: int|
            0 <= i < remove.block_hashes@.len() && (#[trigger] remove.block_hashes@[i]).0 == hash;
        assert(named[i] == hash);
    }
    assert forall|state: &mut DcCkfState| #[trigger]
        call_ensures(DcCkfState::apply_event, (state, event), outcome) && state.wf() implies {
        &&& outcome@.first_error is None
        &&& owns((*final(state))@.members, key, hash) == (owns(state@.members, key, hash) && !(key
            == key_of(event) && exists|i: int|
            0 <= i < remove.block_hashes@.len() && (#[trigger] remove.block_hashes@[i]).0 == hash))
    } by {
        law_remove_event_takes_its_blocks(
            state@,
            event,
            remove,
            named,
            (*final(state))@,
            outcome@,
        );
    }
}

/// Applying an event that clears a worker takes everything from its ranks, of
/// whatever tier it is, and nothing from other workers; with an error, a rank
/// may keep what could not be listed.
pub proof fn law_apply_event_clears(
    event: RouterEvent,
    outcome: DcCkfEventOutcome,
    key: u128,
    hash: u64,
)
    requires
        event.event.data is Cleared,
    ensures
        forall|state: &mut DcCkfState| #[trigger]
            call_ensures(DcCkfState::apply_event, (state, event), outcome) && state.wf() ==> {
                &&& key as int / 0x1_0000_0000 != event.worker_id ==> owns(
                    (*final(state))@.members,
                    key,
                    hash,
                ) == owns(state@.members, key, hash)
                &&& key as int / 0x1_0000_0000 == event.worker_id && owns(
                    (*final(state))@.members,
                    key,
                    hash,
                ) ==> outcome@.first_error is Some && listing_refused(
                    state@.members[key].len() as usize,
                )
            },
{
    assert forall|state: &mut DcCkfState| #[trigger]
        call_ensures(DcCkfState::apply_event, (state, event), outcome) && state.wf() implies {
        &&& key as int / 0x1_0000_0000 != event.worker_id ==> owns(
            (*final(state))@.members,
            key,
            hash,
        ) == owns(state@.members, key, hash)
        &&& key as int / 0x1_0000_0000 == event.worker_id && owns(
            (*final(state))@.members,
            key,
            hash,
        ) ==> outcome@.first_error is Some && listing_refused(state@.members[key].len() as usize)
    } by {
        law_clear_event_takes_all_ranks(state@, event, (*final(state))@, outcome@);
    }
}

/// Applying any other event of another tier than the device changes nothing.
pub proof fn law_apply_event_ignores_other_tiers(event: RouterEvent, outcome: DcCkfEventOutcome)
    requires
        event.storage_tier != StorageTier::Device,
        !(event.event.data is Cleared),
    ensures
        forall|state: &mut DcCkfState| #[trigger]
            call_ensures(DcCkfState::apply_event, (state, event), outcome) && state.wf() ==> (
            *final(state))@ == state@ && outcome@.first_error is None && outcome@.delta is None
                && outcome@.unknown_removals == 0 && !outcome@.publication_boundary,
{
    assert forall|state: &mut DcCkfState| #[trigger]
        call_ensures(DcCkfState::apply_event, (state, event), outcome) && state.wf() implies (
    *final(state))@ == state@ && outcome@.first_error is None && outcome@.delta is None
        && outcome@.unknown_removals == 0 && !outcome@.publication_boundary by {
        law_other_tiers_have_no_say(state@, event, (*final(state))@, outcome@);
    }
}

/// Removing a rank takes everything from it and nothing from anyone else, or
/// fails because the allocator refused room, and changes nothing.
pub proof fn law_remove_rank_takes_everything(
    worker: WorkerWithDpRank,
    result: Result<Option<DcCkfDelta>, KvCacheEventError>,
    key: u128,
    hash: u64,
)
    ensures
        forall|state: &mut DcCkfState| #[trigger]
            call_ensures(DcCkfState::remove_rank, (state, worker), result) && state.wf() ==> {
                let rank = (worker.worker_id * 0x1_0000_0000 + worker.dp_rank) as u128;
                let after = (*final(state))@;
                &&& result is Ok ==> owns(after.members, key, hash) == (owns(
                    state@.members,
                    key,
                    hash,
                ) && key != rank) && after.published() == after.lane
                &&& result is Err ==> after == state@ && listing_refused(
                    state@.members[rank].len() as usize,
                )
            },
{
    assert forall|state: &mut DcCkfState| #[trigger]
        call_ensures(DcCkfState::remove_rank, (state, worker), result) && state.wf() implies {
        let rank = (worker.worker_id * 0x1_0000_0000 + worker.dp_rank) as u128;
        let after = (*final(state))@;
        &&& result is Ok ==> owns(after.members, key, hash) == (owns(state@.members, key, hash)
            && key != rank) && after.published() == after.lane
        &&& result is Err ==> after == state@ && listing_refused(
            state@.members[rank].len() as usize,
        )
    } by {
        law_rank_removal_takes_everything(
            state@,
            worker.spec_key(),
            (*final(state))@,
            result_model(result),
        );
    }
}

/// Removing a worker takes nothing from other workers, and without an error
/// everything from its own ranks.
pub proof fn law_remove_worker_takes_everything(
    worker_id: u64,
    result: Result<Option<DcCkfDelta>, KvCacheEventError>,
    key: u128,
    hash: u64,
)
    ensures
        forall|state: &mut DcCkfState| #[trigger]
            call_ensures(DcCkfState::remove_worker, (state, worker_id), result) && state.wf() ==> {
                let after = (*final(state))@;
                &&& key as int / 0x1_0000_0000 != worker_id ==> owns(after.members, key, hash)
                    == owns(state@.members, key, hash)
                &&& key as int / 0x1_0000_0000 == worker_id && result is Ok ==> !owns(
                    after.members,
                    key,
                    hash,
                )
                &&& result is Ok ==> after.published() == after.lane
            },
{
    assert forall|state: &mut DcCkfState| #[trigger]
        call_ensures(DcCkfState::remove_worker, (state, worker_id), result) && state.wf() implies {
        let after = (*final(state))@;
        &&& key as int / 0x1_0000_0000 != worker_id ==> owns(after.members, key, hash) == owns(
            state@.members,
            key,
            hash,
        )
        &&& key as int / 0x1_0000_0000 == worker_id && result is Ok ==> !owns(
            after.members,
            key,
            hash,
        )
        &&& result is Ok ==> after.published() == after.lane
    } by {
        law_worker_removal_takes_everything(
            state@,
            worker_id,
            (*final(state))@,
            result_model(result),
        );
    }
}

/// Replacing a rank gives it exactly the new blocks and leaves everyone else what
/// they had. It fails only where the allocator refused room, the new lane has no
/// place for a block, or a block has more owners than can be counted; and then
/// it changes nothing.
pub proof fn law_replace_rank_trades_everything(
    worker: WorkerWithDpRank,
    hashes: FxHashSet<u64>,
    result: Result<Option<DcCkfDelta>, KvCacheEventError>,
    key: u128,
    hash: u64,
)
    requires
        hashes@.finite(),
    ensures
        forall|state: &mut DcCkfState| #[trigger]
            call_ensures(DcCkfState::replace_rank, (state, worker, hashes), result) && state.wf()
                ==> {
                let rank = (worker.worker_id * 0x1_0000_0000 + worker.dp_rank) as u128;
                let after = (*final(state))@;
                match result {
                    Ok(_) => {
                        &&& owns(after.members, key, hash) == (if key == rank {
                            hashes@.contains(hash)
                        } else {
                            owns(state@.members, key, hash)
                        })
                        &&& after.published() == after.lane
                    },
                    Err(error) => {
                        &&& after == state@
                        &&& {
                            ||| build_room_refused(state@.config)
                            ||| store_room_refused()
                            ||| exists|filled: crate::model::DcCkfModel, block: u64| #[trigger]
                                lane_turns_down(state@, rank, hashes@, filled, block)
                            ||| error == KvCacheEventError::IndexerInvariantViolation
                                && exists|filled: crate::model::DcCkfModel, block: u64|
                                on_the_way(state@, rank, hashes@, filled)
                                    && #[trigger] filled.refcount(block) == u32::MAX
                        }
                    },
                }
            },
{
    assert forall|state: &mut DcCkfState| #[trigger]
        call_ensures(DcCkfState::replace_rank, (state, worker, hashes), result)
            && state.wf() implies {
        let rank = (worker.worker_id * 0x1_0000_0000 + worker.dp_rank) as u128;
        let after = (*final(state))@;
        match result {
            Ok(_) => {
                &&& owns(after.members, key, hash) == (if key == rank {
                    hashes@.contains(hash)
                } else {
                    owns(state@.members, key, hash)
                })
                &&& after.published() == after.lane
            },
            Err(error) => {
                &&& after == state@
                &&& {
                    ||| build_room_refused(state@.config)
                    ||| store_room_refused()
                    ||| exists|filled: crate::model::DcCkfModel, block: u64| #[trigger]
                        lane_turns_down(state@, rank, hashes@, filled, block)
                    ||| error == KvCacheEventError::IndexerInvariantViolation
                        && exists|filled: crate::model::DcCkfModel, block: u64|
                        on_the_way(state@, rank, hashes@, filled)
                            && #[trigger] filled.refcount(block) == u32::MAX
                }
            },
        }
    } by {
        let rank = worker.spec_key();
        crate::protocol::law_member_keys_order_members(worker, worker);
        match result_model(result) {
            Ok(delta) => {
                law_replacement_trades_everything(
                    state@,
                    rank,
                    hashes@,
                    (*final(state))@,
                    delta,
                );
            },
            Err(error) => {
                law_replacement_fails_only_for_a_cause(
                    state@,
                    rank,
                    hashes@,
                    (*final(state))@,
                    error,
                );
            },
        }
    }
}

/// Flushing leaves ownership and lane alone, and subscribers have seen the lane
/// afterwards.
pub proof fn law_flush_only_publishes(delta: Option<DcCkfDelta>)
    ensures
        forall|state: &mut DcCkfState| #[trigger]
            call_ensures(DcCkfState::flush, (state,), delta) && state.wf() ==> {
                let after = (*final(state))@;
                &&& after.members == state@.members
                &&& after.lane == state@.lane
                &&& after.published() == after.lane
                &&& after.pending_events == 0
            },
{
    assert forall|state: &mut DcCkfState| #[trigger]
        call_ensures(DcCkfState::flush, (state,), delta) && state.wf() implies {
        let after = (*final(state))@;
        &&& after.members == state@.members
        &&& after.lane == state@.lane
        &&& after.published() == after.lane
        &&& after.pending_events == 0
    } by {
        state@.lemma_drained();
    }
}

/// A snapshot is the lane under the sequence at which subscribers have seen it;
/// it fails only where the allocator refused room, and then changes nothing.
pub proof fn law_snapshot_is_what_subscribers_have_seen(
    result: Result<(Option<DcCkfDelta>, DcCkfSnapshot), CkfBuildError>,
)
    ensures
        forall|state: &mut DcCkfState| #[trigger]
            call_ensures(DcCkfState::snapshot, (state,), result) && state.wf() ==> {
                let after = (*final(state))@;
                match result {
                    Ok((_, snapshot)) => {
                        &&& after.members == state@.members
                        &&& snapshot@.buckets == state@.lane
                        &&& snapshot@.buckets == after.published()
                        &&& snapshot@.sequence == after.sequence
                        &&& snapshot@.format.seed == state@.config.seed
                        &&& snapshot@.format.bucket_count == snapshot@.buckets.len()
                    },
                    Err(_) => after == state@ && room_refused::<u64>(state@.lane.len() as usize),
                }
            },
{
    assert forall|state: &mut DcCkfState| #[trigger]
        call_ensures(DcCkfState::snapshot, (state,), result) && state.wf() implies {
        let after = (*final(state))@;
        match result {
            Ok((_, snapshot)) => {
                &&& after.members == state@.members
                &&& snapshot@.buckets == state@.lane
                &&& snapshot@.buckets == after.published()
                &&& snapshot@.sequence == after.sequence
                &&& snapshot@.format.seed == state@.config.seed
                &&& snapshot@.format.bucket_count == snapshot@.buckets.len()
            },
            Err(_) => after == state@ && room_refused::<u64>(state@.lane.len() as usize),
        }
    } by {
        state@.lemma_drained();
        state@.addressing.lemma_bucket_count();
    }
}

/// A lookup finds every block that someone owns, and no block that differs from
/// every owned one in its fingerprint or in its buckets.
pub proof fn law_contains_finds_owned_blocks(
    state: DcCkfState,
    hash: ExternalSequenceBlockHash,
    found: bool,
)
    requires
        state.wf(),
        call_ensures(DcCkfState::contains, (&state, hash), found),
    ensures
        (exists|key: u128| #[trigger] owns(state@.members, key, hash.0)) ==> found,
        found ==> exists|key: u128, held: u64|
            {
                let probe = state@.addressing.probe(hash.0);
                let other = state@.addressing.probe(held);
                &&& #[trigger] owns(state@.members, key, held)
                &&& probe.fingerprint == other.fingerprint
                &&& probe.bucket_a == other.bucket_a || probe.bucket_a == other.bucket_b
            },
{
    law_found_exactly_when_a_colliding_block_is_owned(state@, hash.0);
}

/// The reported count of a block is the number of its owners.
pub proof fn law_refcount_counts_owners(
    state: DcCkfState,
    hash: ExternalSequenceBlockHash,
    count: u32,
)
    requires
        state.wf(),
        call_ensures(DcCkfState::refcount, (&state, hash), count),
    ensures
        count == owners(state@.members, hash.0).len(),
        count > 0 <==> exists|key: u128| #[trigger] owns(state@.members, key, hash.0),
{
    law_count_is_the_number_of_owners(state@, hash.0);
    crate::upkeep::lemma_owners_finite(state@.members, hash.0);
    let holders = owners(state@.members, hash.0);
    if count > 0 {
        let key = holders.choose();
        assert(!(holders =~= Set::empty()));
        assert(owns(state@.members, key, hash.0));
    }
    if exists|key: u128| #[trigger] owns(state@.members, key, hash.0) {
        let key = choose|key: u128| #[trigger] owns(state@.members, key, hash.0);
        assert(holders.contains(key));
        if holders.len() == 0 {
            vstd::set_lib::lemma_set_empty_equivalency_len(holders);
            assert(holders =~= Set::empty());
        }
    }
}

/// The listed blocks of a rank are those that it owns, each once, and its
/// reported number of blocks is their number.
pub proof fn law_member_hashes_lists_owned_blocks(
    state: DcCkfState,
    worker: WorkerWithDpRank,
    hashes: Vec<u64>,
    count: usize,
)
    requires
        state.wf(),
        call_ensures(DcCkfState::member_hashes, (&state, worker), hashes),
        call_ensures(DcCkfState::member_block_count, (&state, worker), count),
    ensures
        hashes@.no_duplicates(),
        hashes@.len() == count,
        forall|hash: u64| #[trigger]
            hashes@.contains(hash) <==> owns(
                state@.members,
                (worker.worker_id * 0x1_0000_0000 + worker.dp_rank) as u128,
                hash,
            ),
{
    hashes@.unique_seq_to_set();
    assert forall|hash: u64| #[trigger] hashes@.contains(hash) <==> owns(
        state@.members,
        (worker.worker_id * 0x1_0000_0000 + worker.dp_rank) as u128,
        hash,
    ) by {
        assert(hashes@.to_set().contains(hash) == hashes@.contains(hash));
    }
}

/// The reported counters are what is there.
pub proof fn law_stats_count_what_is_owned(state: DcCkfState, stats: DcCkfStats)
    requires
        state.wf(),
        call_ensures(DcCkfState::stats, (&state,), stats),
        state@.members.dom().len() <= usize::MAX,
        contributions(state@.members).len() <= usize::MAX,
    ensures
        stats.aggregation.member_count == state@.members.dom().len(),
        stats.aggregation.contribution_count == contributions(state@.members).len(),
        stats.aggregation.unique_block_count == owned_blocks(state@.members).len(),
        stats.aggregation.occupied_slot_count == owned_blocks(state@.members).len(),
        stats.publication.sequence == state@.sequence,
        stats.publication.pending_events == state@.pending_events,
        stats.memory.filter_bytes == 8 * state@.lane.len(),
{
    law_stats_report_what_is_there(state@, stats);
}

/// Where a block may stand is read off its mixed hash.
pub proof fn law_prepare_reads_the_mixed_hash(
    addressing: CkfAddressing,
    hash: u64,
    probe: CkfProbe,
)
    requires
        addressing.wf(),
        call_ensures(CkfAddressing::prepare, (&addressing, hash), probe),
    ensures
        ({
            let word = mixed(hash ^ mixed(addressing.seed()));
            let top = word / 0x1_0000_0000_0000;
            &&& top != 0 ==> probe.fingerprint == top
            &&& top == 0 ==> probe.fingerprint == 1
            &&& probe.bucket_a == word as int % addressing.bucket_count() as int
            &&& probe.bucket_b != probe.bucket_a
            &&& probe.bucket_b < addressing.bucket_count()
        }),
{
    law_probe_reads_the_mixed_hash(addressing, hash);
    addressing.lemma_probe(hash);
}

/// An insertion finds a place wherever one of the block's buckets has an empty
/// slot, and fails only after a walk of all the allowed kicks met nothing but
/// full buckets; then the lane stays as it was.
pub proof fn law_insert_fails_only_after_all_kicks(
    mutator: CuckooMutator,
    hash: u64,
    placed: bool,
)
    requires
        mutator.addressing().wf(),
    ensures
        forall|
            lane: &mut OwnedPackedCkfLane,
            rng: &mut u64,
            scratch: &mut CuckooInsertionScratch,
        | #[trigger]
            call_ensures(
                CuckooMutator::insert_with_originals,
                (&mutator, lane, hash, rng, scratch),
                placed,
            ) && lane@.len() == mutator.addressing().bucket_count() ==> {
                let probe = mutator.addressing().probe(hash);
                let full = is_full(lane@[probe.bucket_a as int]) && is_full(
                    lane@[probe.bucket_b as int],
                );
                &&& !full ==> placed
                &&& !placed ==> (*final(lane))@ == lane@ && exists|stops: Seq<Stop>| #[trigger]
                    walked_in_vain(
                        mutator.addressing(),
                        lane@,
                        hash,
                        stops,
                        (mutator.max_kicks() + 1) as nat,
                    )
            },
{
    assert forall|
        lane: &mut OwnedPackedCkfLane,
        rng: &mut u64,
        scratch: &mut CuckooInsertionScratch,
    | #[trigger]
        call_ensures(
            CuckooMutator::insert_with_originals,
            (&mutator, lane, hash, rng, scratch),
            placed,
        ) && lane@.len() == mutator.addressing().bucket_count() implies {
        let probe = mutator.addressing().probe(hash);
        let full = is_full(lane@[probe.bucket_a as int]) && is_full(lane@[probe.bucket_b as int]);
        &&& !full ==> placed
        &&& !placed ==> (*final(lane))@ == lane@ && exists|stops: Seq<Stop>| #[trigger]
            walked_in_vain(
                mutator.addressing(),
                lane@,
                hash,
                stops,
                (mutator.max_kicks() + 1) as nat,
            )
    } by {
        let kicks = mutator.max_kicks() as nat;
        let probe = mutator.addressing().probe(hash);
        if !placed {
            law_insertion_fails_only_after_all_kicks(
                mutator.addressing(),
                lane@,
                hash,
                *rng,
                kicks,
            );
        }
        if !(is_full(lane@[probe.bucket_a as int]) && is_full(lane@[probe.bucket_b as int])) {
            law_empty_slot_is_taken(mutator.addressing(), lane@, hash, *rng, kicks);
        }
    }
}

/// A dump that is accepted was in order, and the blocks that come out of it are
/// those that its events list as stored on the device.
pub proof fn law_replacement_hashes_lists_device_blocks(
    worker: WorkerWithDpRank,
    events: Vec<RouterEvent>,
    result: Result<FxHashSet<u64>, KvDcRelayError>,
    hash: u64,
)
    requires
        call_ensures(replacement_hashes, (worker.worker_id, worker.dp_rank, &events), result),
    ensures
        result matches Ok(hashes) ==> {
            &&& forall|i: int| 0 <= i < events@.len() ==> belongs(worker, #[trigger] events@[i])
            &&& hashes@.contains(hash) <==> exists|i: int|
                0 <= i < events@.len() && names(#[trigger] events@[i], hash)
        },
{
    assert(WorkerWithDpRank { worker_id: worker.worker_id, dp_rank: worker.dp_rank } == worker);
    law_dump_stands_for_its_device_blocks(events@, hash);
    if events@.len() > 0 {
        law_dump_in_order_exactly_when_events_belong(worker, events@, events@[0]);
    }
}

/// What an actor does with a command is what the command may lead to.
pub proof fn law_handle_does_what_the_command_says(command: ActorCommand, reaction: ActorReaction)
    ensures
        forall|actor: &mut RelayActor| #[trigger]
            call_ensures(RelayActor::handle, (actor, command), reaction) && actor.wf() ==> {
                &&& actor@.state.inv()
                &&& (*final(actor))@.state.inv()
                &&& actor@.may_handle(command, (*final(actor))@, reaction)
            },
{
    assert forall|actor: &mut RelayActor| #[trigger]
        call_ensures(RelayActor::handle, (actor, command), reaction) && actor.wf() implies {
        &&& actor@.state.inv()
        &&& (*final(actor))@.state.inv()
        &&& actor@.may_handle(command, (*final(actor))@, reaction)
    } by {
        actor.lemma_wf();
        (*final(actor)).lemma_wf();
    }
}

/// A new actor has an empty aggregation and is not shutting down; building one
/// fails as building the aggregation does.
pub proof fn law_new_actor_is_empty(
    config: CkfConfig,
    result: Result<RelayActor, KvDcRelayError>,
)
    requires
        call_ensures(RelayActor::new, (config,), result),
    ensures
        match result {
            Ok(actor) => {
                &&& actor.wf()
                &&& !actor@.shutting_down
                &&& actor@.state.config == config
                &&& forall|key: u128, hash: u64| !#[trigger] owns(actor@.state.members, key, hash)
                &&& actor@.state.sequence == 0
            },
            Err(KvDcRelayError::Build(CkfBuildError::AllocationFailed)) => build_room_refused(
                config,
            ),
            Err(KvDcRelayError::Build(_)) => config.expected_blocks_per_dc == 0
                || config.publish_every_n_events == 0 || config.expected_blocks_per_dc > 3 * (
            usize::MAX / 128),
            _ => false,
        },
{
    if let Ok(actor) = result {
        law_new_aggregation_is_empty(config, actor@.state.addressing);
    }
}

/// An actor that is done leaves nothing pending: subscribers have seen its lane.
pub proof fn law_finish_publishes_what_is_left(reaction: ActorReaction)
    ensures
        forall|actor: &mut RelayActor| #[trigger]
            call_ensures(RelayActor::finish, (actor,), reaction) && actor.wf() ==> {
                let after = (*final(actor))@;
                &&& after.state.members == actor@.state.members
                &&& after.state.lane == actor@.state.lane
                &&& after.state.published() == after.state.lane
                &&& after.state.pending_events == 0
                &&& after.shutting_down == actor@.shutting_down
            },
{
    assert forall|actor: &mut RelayActor| #[trigger]
        call_ensures(RelayActor::finish, (actor,), reaction) && actor.wf() implies {
        let after = (*final(actor))@;
        &&& after.state.members == actor@.state.members
        &&& after.state.lane == actor@.state.lane
        &&& after.state.published() == after.state.lane
        &&& after.state.pending_events == 0
        &&& after.shutting_down == actor@.shutting_down
    } by {
        actor.lemma_wf();
        actor@.state.lemma_drained();
    }
}

/// The reported list of members names everyone who owns a block.
pub proof fn law_member_counts_names_everyone(
    state: DcCkfState,
    counts: Vec<(WorkerWithDpRank, usize)>,
    worker: WorkerWithDpRank,
    hash: u64,
)
    requires
        state.wf(),
        call_ensures(DcCkfState::member_counts, (&state,), counts),
        owns(
            state@.members,
            (worker.worker_id * 0x1_0000_0000 + worker.dp_rank) as u128,
            hash,
        ),
    ensures
        exists|i: int| 0 <= i < counts@.len() && (#[trigger] counts@[i]).0 == worker,
{
    law_member_counts_list_everyone(state@, counts@);
    let i = choose|i: int|
        0 <= i < counts@.len() && (#[trigger] counts@[i]).0.worker_id * 0x1_0000_0000
            + counts@[i].0.dp_rank == (worker.worker_id * 0x1_0000_0000 + worker.dp_rank) as u128;
    crate::protocol::law_member_keys_order_members(counts@[i].0, worker);
}

/// Taking a block out of a lane empties one slot that held its fingerprint, and
/// fails exactly where neither of its buckets holds it; then the lane stays as
/// it was.
pub proof fn law_remove_empties_one_slot(
    mutator: CuckooMutator,
    hash: u64,
    write: Option<Write>,
)
    requires
        mutator.addressing().wf(),
    ensures
        forall|lane: &mut OwnedPackedCkfLane| #[trigger]
            call_ensures(CuckooMutator::remove_with_original, (&mutator, lane, hash), write)
                && lane@.len() == mutator.addressing().bucket_count() ==> {
                let probe = mutator.addressing().probe(hash);
                &&& write is None ==> (*final(lane))@ == lane@
                &&& write is Some <==> (holds(
                    lane@[probe.bucket_a as int],
                    probe.fingerprint,
                ) || holds(lane@[probe.bucket_b as int], probe.fingerprint))
                &&& write matches Some(made) ==> (made.0 == probe.bucket_a || made.0
                    == probe.bucket_b) && emptied_one_slot(
                    lane@,
                    (*final(lane))@,
                    made,
                    probe.fingerprint,
                )
            },
{
    assert forall|lane: &mut OwnedPackedCkfLane| #[trigger]
        call_ensures(CuckooMutator::remove_with_original, (&mutator, lane, hash), write)
            && lane@.len() == mutator.addressing().bucket_count() implies {
        let probe = mutator.addressing().probe(hash);
        &&& write is None ==> (*final(lane))@ == lane@
        &&& write is Some <==> (holds(lane@[probe.bucket_a as int], probe.fingerprint) || holds(
            lane@[probe.bucket_b as int],
            probe.fingerprint,
        ))
        &&& write matches Some(made) ==> (made.0 == probe.bucket_a || made.0
            == probe.bucket_b) && emptied_one_slot(
            lane@,
            (*final(lane))@,
            made,
            probe.fingerprint,
        )
    } by {
        law_removal_empties_one_slot(mutator.addressing(), lane@, hash);
    }
}

/// Applying an event, and replacing a rank, without a mailbox do what the
/// commands do.
pub proof fn law_direct_calls_do_what_commands_do(
    event: RouterEvent,
    worker: WorkerWithDpRank,
    events: Vec<RouterEvent>,
    reaction: ActorReaction,
)
    ensures
        forall|actor: &mut RelayActor| #[trigger]
            call_ensures(RelayActor::apply_event, (actor, event), reaction) && actor.wf()
                ==> actor@.may_handle(ActorCommand::Apply { event }, (*final(actor))@, reaction),
        forall|actor: &mut RelayActor| #[trigger]
            call_ensures(
                RelayActor::replace_rank,
                (actor, worker.worker_id, worker.dp_rank, &events),
                reaction,
            ) && actor.wf() ==> actor@.may_handle(
                ActorCommand::ReplaceRank {
                    worker_id: worker.worker_id,
                    dp_rank: worker.dp_rank,
                    events,
                },
                (*final(actor))@,
                reaction,
            ),
{
}

/// The reported format is that of the lane: its seed, its number of buckets, and
/// fingerprints that fill a word.
pub proof fn law_format_describes_the_lane(state: DcCkfState, format: DcCkfFormatIdentity)
    requires
        state.wf(),
        call_ensures(DcCkfState::format, (&state,), format),
    ensures
        format.seed == state@.config.seed,
        format.seed == state@.addressing.seed(),
        format.bucket_count == state@.lane.len(),
        format.bucket_count == state@.addressing.bucket_count(),
        format.fingerprint_bits * format.slots_per_bucket == 64,
{
    state@.addressing.lemma_bucket_count();
}

/// A snapshot in memory that was granted for it is the lane under the sequence
/// at which subscribers have seen it.
pub proof fn law_snapshot_into_is_what_subscribers_have_seen(
    room: Vec<u64>,
    result: (Option<DcCkfDelta>, DcCkfSnapshot),
)
    ensures
        forall|state: &mut DcCkfState| #[trigger]
            call_ensures(DcCkfState::snapshot_into, (state, room), result) && state.wf() ==> {
                let after = (*final(state))@;
                &&& after.members == state@.members
                &&& result.1@.buckets == state@.lane
                &&& result.1@.buckets == after.published()
                &&& result.1@.sequence == after.sequence
                &&& after.pending_events == 0
            },
{
    assert forall|state: &mut DcCkfState| #[trigger]
        call_ensures(DcCkfState::snapshot_into, (state, room), result) && state.wf() implies {
        let after = (*final(state))@;
        &&& after.members == state@.members
        &&& result.1@.buckets == state@.lane
        &&& result.1@.buckets == after.published()
        &&& result.1@.sequence == after.sequence
        &&& after.pending_events == 0
    } by {
        state@.lemma_drained();
    }
}

/// A store with room for it fails only for a cause, and says whether the member
/// is a new owner; without room, only an owner stores its block again.
pub proof fn law_granted_store_gives_the_block(
    worker: WorkerWithDpRank,
    hash: ExternalSequenceBlockHash,
    room: Option<FxHashSet<u64>>,
    result: Result<bool, KvCacheEventError>,
)
    ensures
        forall|state: &mut DcCkfState| #[trigger]
            call_ensures(DcCkfState::store_granted, (state, worker, hash, room), result)
                && state.wf() ==> {
                let rank = (worker.worker_id * 0x1_0000_0000 + worker.dp_rank) as u128;
                let after = (*final(state))@;
                let probe = state@.addressing.probe(hash.0);
                match result {
                    Ok(added) => {
                        &&& owns(after.members, rank, hash.0)
                        &&& added == !owns(state@.members, rank, hash.0)
                        &&& added ==> room is Some
                    },
                    Err(_) => {
                        &&& after.members == state@.members
                        &&& after.lane == state@.lane
                        &&& {
                            ||| room is None
                            ||| state@.refcount(hash.0) == u32::MAX
                            ||| is_full(state@.lane[probe.bucket_a as int]) && is_full(
                                state@.lane[probe.bucket_b as int],
                            )
                        }
                    },
                }
            },
{
    assert forall|state: &mut DcCkfState| #[trigger]
        call_ensures(DcCkfState::store_granted, (state, worker, hash, room), result)
            && state.wf() implies {
        let rank = (worker.worker_id * 0x1_0000_0000 + worker.dp_rank) as u128;
        let after = (*final(state))@;
        let probe = state@.addressing.probe(hash.0);
        match result {
            Ok(added) => {
                &&& owns(after.members, rank, hash.0)
                &&& added == !owns(state@.members, rank, hash.0)
                &&& added ==> room is Some
            },
            Err(_) => {
                &&& after.members == state@.members
                &&& after.lane == state@.lane
                &&& {
                    ||| room is None
                    ||| state@.refcount(hash.0) == u32::MAX
                    ||| is_full(state@.lane[probe.bucket_a as int]) && is_full(
                        state@.lane[probe.bucket_b as int],
                    )
                }
            },
        }
    } by {
        let rank = worker.spec_key();
        crate::protocol::law_member_keys_order_members(worker, worker);
        law_store_adds_one_owner(state@, rank, hash.0, room is Some);
        if room is Some && result is Err {
            law_granted_store_fails_only_for_a_cause(state@, rank, hash.0);
        }
    }
}

} // verus!
