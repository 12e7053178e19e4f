//! What an event does to ownership and to publication, in terms of what the
//! event says.
use crate::model::{Choices, DcCkfModel};
use crate::protocol::{
    KvCacheEventData, KvCacheEventError, KvCacheRemoveData, KvCacheStoreData, RouterEvent,
    StorageTier,
};
use crate::publication::OutcomeModel;
use vstd::prelude::*;
#[allow(unused_imports)]
use crate::laws::{
    law_removals_are_found_or_unknown, law_unknown_removals_are_the_unowned_blocks,
};
#[allow(unused_imports)]
use crate::memory::listing_refused;
#[allow(unused_imports)]
use crate::model::{grants_answered, store_room_refused};
#[allow(unused_imports)]
use crate::ownership::{
    is_ignored, lemma_with_block, lemma_without_blocks, members_of, owns,
};
#[allow(unused_imports)]
use crate::placement::{
    is_full, law_granted_store_fails_only_for_a_cause, law_insertion_keeps_full_buckets_full,
};
#[allow(unused_imports)]
use crate::protocol::MEMBER_KEY_END;

verus! {

/// The key of the rank that an event speaks of.
pub open spec fn key_of(event: RouterEvent) -> u128 {
    (event.worker_id * 0x1_0000_0000 + event.event.dp_rank) as u128
}

/// What an event leaves before a publication: ownership, lane and counters are
/// its own, and nothing that subscribers were told has changed.
proof fn lemma_recorded(state: DcCkfModel, event: RouterEvent, choices: Choices)
    requires
        state.inv(),
        state.choices_fit(event, choices),
        !is_ignored(event),
    ensures
        ({
            let counted = state.counting_event();
            let changed = counted.recorded(event, choices).0;
            let after = state.applied(event, choices).0;
            &&& counted.inv()
            &&& counted.published() == state.published()
            &&& changed.inv()
            &&& counted.same_publication(changed)
            &&& after.inv()
            &&& after.members == changed.members
            &&& after.refcounts == changed.refcounts
            &&& after.lane == changed.lane
            &&& after.addressing == state.addressing
            &&& after.config == state.config
        }),
{
    let key = event.member().spec_key();
    crate::protocol::law_member_keys_order_members(event.member(), event.member());
    let counted = state.counting_event();
    assert(counted.published() == state.published());
    assert(counted.inv());
    let (changed, first_error, unknown) = counted.recorded(event, choices);
    match event.event.data {
        KvCacheEventData::Stored(store) => {
            counted.lemma_stored_all(key, store.hashes(), choices.grants);
        },
        KvCacheEventData::Removed(remove) => {
            counted.lemma_removed_all(key, remove.hashes());
        },
        KvCacheEventData::Cleared => {
            let count = choices.order.len() as int;
            counted.lemma_swept_all(event.worker_id, choices.order, choices.sweeps, count);
            assert(choices.order.take(count) =~= choices.order);
        },
    }
    let noted = changed.noting_unknown(unknown);
    assert(noted.published() == changed.published());
    assert(noted.inv());
    noted.lemma_drained();
}

/// Every event that counts brings the next publication one event nearer, and
/// the last of the configured number publishes: afterwards subscribers have
/// seen the lane as it is. Until then they are told nothing. With an interval
/// of one, every such event publishes.
pub proof fn law_every_nth_event_publishes(
    state: DcCkfModel,
    event: RouterEvent,
    after: DcCkfModel,
    outcome: OutcomeModel,
)
    requires
        state.inv(),
        state.may_apply(event, after, outcome),
        event.storage_tier == StorageTier::Device || event.event.data is Cleared,
    ensures
        outcome.publication_boundary == (state.pending_events + 1
            >= state.config.publish_every_n_events),
        outcome.publication_boundary ==> after.pending_events == 0 && after.published()
            == after.lane,
        !outcome.publication_boundary ==> {
            &&& outcome.delta is None
            &&& after.pending_events == state.pending_events + 1
            &&& after.published() == state.published()
            &&& after.sequence == state.sequence
        },
        after.pending_events < after.config.publish_every_n_events,
        after.config == state.config,
        state.config.publish_every_n_events == 1 ==> after.published() == after.lane,
{
    let choices = choose|choices: Choices| #[trigger]
        state.choices_fit(event, choices) && state.choices_answered(event, choices) && (
            after,
            outcome,
        ) == state.applied(event, choices);
    lemma_recorded(state, event, choices);
    let (changed, first_error, unknown) = state.counting_event().recorded(event, choices);
    let noted = changed.noting_unknown(unknown);
    assert(noted.published() == changed.published());
    assert(noted.inv());
    noted.lemma_drained();
}

/// An event of another tier that clears nothing leaves everything as it was,
/// and says so.
pub proof fn law_other_tiers_have_no_say(
    state: DcCkfModel,
    event: RouterEvent,
    after: DcCkfModel,
    outcome: OutcomeModel,
)
    requires
        state.may_apply(event, after, outcome),
        event.storage_tier != StorageTier::Device,
        !(event.event.data is Cleared),
    ensures
        after == state,
        outcome.first_error is None,
        outcome.delta is None,
        outcome.unknown_removals == 0,
        !outcome.publication_boundary,
{
}

/// A failed or successful store of one block leaves full buckets full and takes
/// no block from anyone.
proof fn lemma_store_step(state: DcCkfModel, key: u128, hash: u64, granted: bool)
    requires
        state.inv(),
        key < MEMBER_KEY_END,
    ensures
        ({
            let after = state.stored(key, hash, granted).0;
            &&& forall|place: int|
                0 <= place < state.lane.len() && is_full(#[trigger] state.lane[place]) ==> is_full(
                    after.lane[place],
                )
            &&& after.lane.len() == state.lane.len()
            &&& forall|other: u64|
                other != hash ==> #[trigger] after.refcount(other) == state.refcount(other)
            &&& state.refcount(hash) == u32::MAX ==> after.refcount(hash) == u32::MAX
        }),
{
    state.lemma_stored(key, hash, granted);
    assert forall|place: int|
        0 <= place < state.lane.len() && is_full(#[trigger] state.lane[place]) implies is_full(
        state.stored(key, hash, granted).0.lane[place],
    ) by {
        law_insertion_keeps_full_buckets_full(
            state.addressing,
            state.lane,
            hash,
            state.rng,
            state.config.max_kicks as nat,
            place,
        );
    }
}

/// Whether a block had to be turned down: the allocator refused room, its count
/// of owners is at the limit, or its two buckets are full.
pub open spec fn had_to_be_refused(state: DcCkfModel, hash: u64) -> bool {
    let probe = state.addressing.probe(hash);
    ||| store_room_refused()
    ||| state.refcount(hash) == u32::MAX
    ||| (is_full(state.lane[probe.bucket_a as int]) && is_full(state.lane[probe.bucket_b as int]))
}

/// Stores go on after a failure: each block is owned afterwards or had to be
/// refused, none is taken from anyone, and none is given to anyone else.
proof fn lemma_stored_one_by_one(
    state: DcCkfModel,
    key: u128,
    hashes: Seq<u64>,
    grants: Seq<bool>,
)
    requires
        state.inv(),
        key < MEMBER_KEY_END,
        grants.len() >= hashes.len(),
        grants_answered(grants),
    ensures
        ({
            let (after, error) = state.stored_all(key, hashes, grants);
            &&& forall|k: u128, h: u64| #[trigger]
                owns(state.members, k, h) ==> owns(after.members, k, h)
            &&& forall|k: u128, h: u64| #[trigger]
                owns(after.members, k, h) ==> owns(state.members, k, h) || (k == key
                    && hashes.contains(h))
            &&& forall|i: int|
                0 <= i < hashes.len() ==> owns(after.members, key, #[trigger] hashes[i])
                    || had_to_be_refused(after, hashes[i])
            &&& error is None ==> forall|i: int|
                0 <= i < hashes.len() ==> owns(after.members, key, #[trigger] hashes[i])
        }),
    decreases hashes.len(),
{
    if hashes.len() > 0 {
        let rest = hashes.drop_last();
        let last = hashes.last();
        let granted = grants[hashes.len() - 1];
        let (before, error) = state.stored_all(key, rest, grants);
        let (stored, result) = before.stored(key, last, granted);
        let after = state.stored_all(key, hashes, grants).0;
        lemma_stored_one_by_one(state, key, rest, grants);
        state.lemma_stored_all(key, rest, grants);
        before.lemma_stored(key, last, granted);
        lemma_with_block(before.members, key, last);
        lemma_store_step(before, key, last, granted);
        before.addressing.lemma_probe(last);
        if result is Err && granted {
            law_granted_store_fails_only_for_a_cause(before, key, last);
        }
        assert(owns(after.members, key, last) || had_to_be_refused(after, last));
        assert(hashes =~= rest.push(last));
        assert forall|h: u64| hashes.contains(h) == (rest.contains(h) || h == last) by {
            vstd::seq_lib::lemma_seq_contains_after_push(rest, last, h);
        }
        assert forall|i: int| 0 <= i < hashes.len() implies owns(
            after.members,
            key,
            #[trigger] hashes[i],
        ) || had_to_be_refused(after, hashes[i]) by {
            if i < rest.len() {
                assert(rest[i] == hashes[i]);
                before.addressing.lemma_probe(hashes[i]);
                if !owns(after.members, key, hashes[i]) && hashes[i] != last {
                    assert(after.refcount(hashes[i]) == stored.refcount(hashes[i]));
                    assert(had_to_be_refused(after, hashes[i]));
                }
            }
        }
        assert forall|i: int|
            0 <= i < hashes.len() && error is None && result is Ok implies owns(
            after.members,
            key,
            #[trigger] hashes[i],
        ) by {
            if i < rest.len() {
                assert(rest[i] == hashes[i]);
            }
        }
    }
}

/// A store event of the device tier gives its rank the blocks that it names, by
/// their sequence hashes, and nothing else to anyone: each of them is owned
/// afterwards, or had to be refused, which an event without an error never is.
/// No one loses a block.
pub proof fn law_store_event_gives_its_blocks(
    state: DcCkfModel,
    event: RouterEvent,
    store: KvCacheStoreData,
    after: DcCkfModel,
    outcome: OutcomeModel,
)
    requires
        state.inv(),
        state.may_apply(event, after, outcome),
        event.storage_tier == StorageTier::Device,
        event.event.data == KvCacheEventData::Stored(store),
    ensures
        forall|i: int|
            0 <= i < store.blocks@.len() ==> owns(
                after.members,
                key_of(event),
                (#[trigger] store.blocks@[i]).block_hash.0,
            ) || (outcome.first_error is Some && had_to_be_refused(
                after,
                store.blocks@[i].block_hash.0,
            )),
        forall|key: u128, hash: u64| #[trigger]
            owns(state.members, key, hash) ==> owns(after.members, key, hash),
        forall|key: u128, hash: u64| #[trigger]
            owns(after.members, key, hash) && !owns(state.members, key, hash) ==> key == key_of(
                event,
            ) && exists|i: int|
                0 <= i < store.blocks@.len() && (#[trigger] store.blocks@[i]).block_hash.0 == hash,
{
    let choices = choose|choices: Choices| #[trigger]
        state.choices_fit(event, choices) && state.choices_answered(event, choices) && (
            after,
            outcome,
        ) == state.applied(event, choices);
    lemma_recorded(state, event, choices);
    let key = event.member().spec_key();
    crate::protocol::law_member_keys_order_members(event.member(), event.member());
    assert(key == key_of(event));
    let hashes = store.hashes();
    let counted = state.counting_event();
    lemma_stored_one_by_one(counted, key, hashes, choices.grants);
    assert forall|i: int| 0 <= i < store.blocks@.len() implies owns(
        after.members,
        key_of(event),
        (#[trigger] store.blocks@[i]).block_hash.0,
    ) || (outcome.first_error is Some && had_to_be_refused(
        after,
        store.blocks@[i].block_hash.0,
    )) by {
        assert(hashes[i] == store.blocks@[i].block_hash.0);
    }
    assert forall|k: u128, hash: u64| #[trigger]
        owns(after.members, k, hash) && !owns(state.members, k, hash) implies k == key_of(event)
        && exists|i: int|
        0 <= i < store.blocks@.len() && (#[trigger] store.blocks@[i]).block_hash.0 == hash by {
        let i = choose|i: int| 0 <= i < hashes.len() && hashes[i] == hash;
        assert(store.blocks@[i].block_hash.0 == hash);
    }
}

/// Whether a block was turned down for the cause that an error names.
pub open spec fn refused_for(state: DcCkfModel, hash: u64, error: KvCacheEventError) -> bool {
    let probe = state.addressing.probe(hash);
    match error {
        KvCacheEventError::CapacityExhausted => {
            ||| store_room_refused()
            ||| (is_full(state.lane[probe.bucket_a as int]) && is_full(
                state.lane[probe.bucket_b as int],
            ))
        },
        KvCacheEventError::IndexerInvariantViolation => state.refcount(hash) == u32::MAX,
        _ => false,
    }
}

/// The error that is kept is that of the first block that was turned down.
proof fn lemma_first_error(state: DcCkfModel, key: u128, hashes: Seq<u64>, grants: Seq<bool>)
    requires
        state.inv(),
        key < MEMBER_KEY_END,
        grants.len() >= hashes.len(),
        grants_answered(grants),
    ensures
        ({
            let (after, error) = state.stored_all(key, hashes, grants);
            error matches Some(kept) ==> exists|i: int|
                {
                    &&& 0 <= i < hashes.len()
                    &&& refused_for(after, #[trigger] hashes[i], kept)
                    &&& forall|j: int|
                        0 <= j < i ==> owns(after.members, key, #[trigger] hashes[j])
                }
        }),
    decreases hashes.len(),
{
    if hashes.len() > 0 {
        let rest = hashes.drop_last();
        let last = hashes.last();
        let granted = grants[hashes.len() - 1];
        let (before, error) = state.stored_all(key, rest, grants);
        let (stored, result) = before.stored(key, last, granted);
        let after = state.stored_all(key, hashes, grants).0;
        lemma_first_error(state, key, rest, grants);
        lemma_stored_one_by_one(state, key, rest, grants);
        state.lemma_stored_all(key, rest, grants);
        before.lemma_stored(key, last, granted);
        lemma_with_block(before.members, key, last);
        lemma_store_step(before, key, last, granted);
        if let Some(kept) = error {
            let i = choose|i: int|
                {
                    &&& 0 <= i < rest.len()
                    &&& refused_for(before, #[trigger] rest[i], kept)
                    &&& forall|j: int|
                        0 <= j < i ==> owns(before.members, key, #[trigger] rest[j])
                };
            assert(rest[i] == hashes[i]);
            before.addressing.lemma_probe(hashes[i]);
            assert(after.refcount(hashes[i]) == stored.refcount(hashes[i]));
            assert(refused_for(after, hashes[i], kept));
            assert forall|j: int| 0 <= j < i implies owns(
                after.members,
                key,
                #[trigger] hashes[j],
            ) by {
                assert(rest[j] == hashes[j]);
            }
        } else if result is Err {
            before.addressing.lemma_probe(last);
            if granted {
                law_granted_store_fails_only_for_a_cause(before, key, last);
            }
            let i = hashes.len() - 1;
            assert(after.refcount(last) == stored.refcount(last));
            assert(refused_for(after, hashes[i], result->Err_0));
            assert forall|j: int| 0 <= j < i implies owns(
                after.members,
                key,
                #[trigger] hashes[j],
            ) by {
                assert(rest[j] == hashes[j]);
            }
        }
    }
}

/// The error that a store event reports is that of the first block that was
/// turned down: every block that the event lists before it is owned, and the
/// block was turned down for the cause that the error names.
pub proof fn law_store_event_reports_its_first_error(
    state: DcCkfModel,
    event: RouterEvent,
    store: KvCacheStoreData,
    after: DcCkfModel,
    outcome: OutcomeModel,
)
    requires
        state.inv(),
        state.may_apply(event, after, outcome),
        event.storage_tier == StorageTier::Device,
        event.event.data == KvCacheEventData::Stored(store),
    ensures
        outcome.first_error matches Some(error) ==> exists|i: int|
            {
                &&& 0 <= i < store.blocks@.len()
                &&& refused_for(after, (#[trigger] store.blocks@[i]).block_hash.0, error)
                &&& forall|j: int|
                    0 <= j < i ==> owns(
                        after.members,
                        key_of(event),
                        (#[trigger] store.blocks@[j]).block_hash.0,
                    )
            },
{
    let choices = choose|choices: Choices| #[trigger]
        state.choices_fit(event, choices) && state.choices_answered(event, choices) && (
            after,
            outcome,
        ) == state.applied(event, choices);
    lemma_recorded(state, event, choices);
    let key = event.member().spec_key();
    crate::protocol::law_member_keys_order_members(event.member(), event.member());
    let hashes = store.hashes();
    let counted = state.counting_event();
    let changed = counted.stored_all(key, hashes, choices.grants).0;
    lemma_first_error(counted, key, hashes, choices.grants);
    if let Some(error) = outcome.first_error {
        let i = choose|i: int|
            {
                &&& 0 <= i < hashes.len()
                &&& refused_for(changed, #[trigger] hashes[i], error)
                &&& forall|j: int| 0 <= j < i ==> owns(changed.members, key, #[trigger] hashes[j])
            };
        assert(hashes[i] == store.blocks@[i].block_hash.0);
        assert(refused_for(after, store.blocks@[i].block_hash.0, error));
        assert forall|j: int| 0 <= j < i implies owns(
            after.members,
            key_of(event),
            (#[trigger] store.blocks@[j]).block_hash.0,
        ) by {
            assert(hashes[j] == store.blocks@[j].block_hash.0);
        }
    }
}

/// Predicates that agree on a list pick the same of it.
proof fn lemma_filters_agree(
    hashes: Seq<u64>,
    first: spec_fn(u64) -> bool,
    second: spec_fn(u64) -> bool,
)
    requires
        forall|i: int| 0 <= i < hashes.len() ==> first(#[trigger] hashes[i]) == second(hashes[i]),
    ensures
        hashes.filter(first) == hashes.filter(second),
    decreases hashes.len(),
{
    reveal(Seq::filter);
    if hashes.len() > 0 {
        assert(first(hashes[hashes.len() - 1]) == second(hashes[hashes.len() - 1]));
        assert forall|i: int| 0 <= i < hashes.len() - 1 implies first(
            #[trigger] hashes.drop_last()[i],
        ) == second(hashes.drop_last()[i]) by {
            assert(hashes.drop_last()[i] == hashes[i]);
        }
        lemma_filters_agree(hashes.drop_last(), first, second);
    }
}

/// A number, or the largest counter value if it is larger.
pub open spec fn counted_up_to_limit(number: int) -> u64 {
    if number > u64::MAX {
        u64::MAX
    } else {
        number as u64
    }
}

/// Failures are counted block by block.
proof fn lemma_failures_counted(
    state: DcCkfModel,
    key: u128,
    hashes: Seq<u64>,
    grants: Seq<bool>,
)
    requires
        state.inv(),
        key < MEMBER_KEY_END,
        grants.len() >= hashes.len(),
        grants_answered(grants),
        hashes.no_duplicates(),
        !store_room_refused() || forall|i: int|
            0 <= i < hashes.len() ==> state.refcount(#[trigger] hashes[i]) < u32::MAX,
    ensures
        ({
            let (after, error) = state.stored_all(key, hashes, grants);
            let failed = hashes.filter(
                |hash: u64| !owns(after.members, key, hash) && state.refcount(hash) < u32::MAX,
            ).len();
            &&& after.telemetry.capacity_failures == counted_up_to_limit(
                state.telemetry.capacity_failures + failed,
            )
            &&& after.telemetry.unknown_removals == state.telemetry.unknown_removals
            &&& error is None <==> forall|i: int|
                0 <= i < hashes.len() ==> owns(after.members, key, #[trigger] hashes[i])
            &&& forall|hash: u64|
                !hashes.contains(hash) ==> #[trigger] after.refcount(hash) == state.refcount(hash)
        }),
    decreases hashes.len(),
{
    reveal(Seq::filter);
    if hashes.len() > 0 {
        let rest = hashes.drop_last();
        let last = hashes.last();
        let granted = grants[hashes.len() - 1];
        let (before, error) = state.stored_all(key, rest, grants);
        let (stored, result) = before.stored(key, last, granted);
        let after = state.stored_all(key, hashes, grants).0;
        if store_room_refused() {
            assert forall|i: int| 0 <= i < rest.len() implies state.refcount(#[trigger] rest[i])
                < u32::MAX by {
                assert(rest[i] == hashes[i]);
            }
        }
        lemma_failures_counted(state, key, rest, grants);
        state.lemma_stored_all(key, rest, grants);
        before.lemma_stored(key, last, granted);
        lemma_with_block(before.members, key, last);
        lemma_store_step(before, key, last, granted);
        assert(!rest.contains(last)) by {
            if rest.contains(last) {
                let i = choose|i: int| 0 <= i < rest.len() && rest[i] == last;
                assert(hashes[i] != hashes[hashes.len() - 1]);
            }
        }
        assert(before.refcount(last) == state.refcount(last));
        assert(store_room_refused() ==> state.refcount(hashes[hashes.len() - 1]) < u32::MAX);
        let failed_before = |hash: u64|
            !owns(before.members, key, hash) && state.refcount(hash) < u32::MAX;
        let failed_after = |hash: u64|
            !owns(after.members, key, hash) && state.refcount(hash) < u32::MAX;
        assert forall|i: int| 0 <= i < rest.len() implies failed_before(#[trigger] rest[i])
            == failed_after(rest[i]) by {
            assert(rest[i] != last);
        }
        lemma_filters_agree(rest, failed_before, failed_after);
        assert(hashes =~= rest.push(last));
        assert forall|hash: u64|
            !hashes.contains(hash) implies #[trigger] after.refcount(hash) == state.refcount(
            hash,
        ) by {
            vstd::seq_lib::lemma_seq_contains_after_push(rest, last, hash);
            assert(after.refcount(hash) == stored.refcount(hash));
        }
        assert(result is Err <==> !owns(after.members, key, last));
        lemma_all_owned(before, after, key, hashes);
    }
}

/// Everything listed is owned if what came before the last is, and the last.
proof fn lemma_all_owned(before: DcCkfModel, after: DcCkfModel, key: u128, hashes: Seq<u64>)
    requires
        hashes.len() > 0,
        hashes.no_duplicates(),
        forall|hash: u64|
            hash != hashes.last() ==> #[trigger] owns(after.members, key, hash) == owns(
                before.members,
                key,
                hash,
            ),
    ensures
        (forall|i: int| 0 <= i < hashes.len() ==> owns(after.members, key, #[trigger] hashes[i]))
            <==> (owns(after.members, key, hashes.last()) && forall|i: int|
            0 <= i < hashes.drop_last().len() ==> owns(
                before.members,
                key,
                #[trigger] hashes.drop_last()[i],
            )),
{
    let rest = hashes.drop_last();
    let last = hashes.last();
    if forall|i: int| 0 <= i < hashes.len() ==> owns(after.members, key, #[trigger] hashes[i]) {
        assert(owns(after.members, key, hashes[hashes.len() - 1]));
        assert forall|i: int| 0 <= i < rest.len() implies owns(
            before.members,
            key,
            #[trigger] rest[i],
        ) by {
            assert(owns(after.members, key, hashes[i]));
            assert(hashes[i] != hashes[hashes.len() - 1]);
        }
    }
    if owns(after.members, key, last) && forall|i: int|
        0 <= i < rest.len() ==> owns(before.members, key, #[trigger] rest[i]) {
        assert forall|i: int| 0 <= i < hashes.len() implies owns(
            after.members,
            key,
            #[trigger] hashes[i],
        ) by {
            if i < rest.len() {
                assert(owns(before.members, key, rest[i]));
                assert(hashes[i] != hashes[hashes.len() - 1]);
            }
        }
    }
}

/// A store event that lists no block twice adds to the failures exactly the
/// blocks that its rank does not own afterwards, except those that have as many
/// owners as can be counted, and reports an error exactly when it failed to give
/// a block. Where such a block is listed and the allocator refused room as well,
/// either may be the cause of a failure.
pub proof fn law_failed_stores_are_counted(
    state: DcCkfModel,
    event: RouterEvent,
    store: KvCacheStoreData,
    named: Seq<u64>,
    after: DcCkfModel,
    outcome: OutcomeModel,
)
    requires
        state.inv(),
        state.may_apply(event, after, outcome),
        event.storage_tier == StorageTier::Device,
        event.event.data == KvCacheEventData::Stored(store),
        named.len() == store.blocks@.len(),
        forall|i: int|
            0 <= i < named.len() ==> named[i] == (#[trigger] store.blocks@[i]).block_hash.0,
        named.no_duplicates(),
        !store_room_refused() || forall|i: int|
            0 <= i < named.len() ==> state.refcount(#[trigger] named[i]) < u32::MAX,
    ensures
        after.telemetry.capacity_failures == counted_up_to_limit(
            state.telemetry.capacity_failures + named.filter(
                |hash: u64|
                    !owns(after.members, key_of(event), hash) && state.refcount(hash) < u32::MAX,
            ).len(),
        ),
        outcome.first_error is None <==> forall|i: int|
            0 <= i < named.len() ==> owns(after.members, key_of(event), #[trigger] named[i]),
        outcome.unknown_removals == 0,
        after.telemetry.unknown_removals == state.telemetry.unknown_removals,
{
    let choices = choose|choices: Choices| #[trigger]
        state.choices_fit(event, choices) && state.choices_answered(event, choices) && (
            after,
            outcome,
        ) == state.applied(event, choices);
    lemma_recorded(state, event, choices);
    let key = event.member().spec_key();
    crate::protocol::law_member_keys_order_members(event.member(), event.member());
    assert(store.hashes() =~= named);
    let counted = state.counting_event();
    assert forall|i: int| 0 <= i < named.len() implies counted.refcount(#[trigger] named[i])
        == state.refcount(named[i]) by {
    }
    lemma_failures_counted(counted, key, named, choices.grants);
    let changed = counted.stored_all(key, named, choices.grants).0;
    assert(changed.members == after.members);
    lemma_filters_agree(
        named,
        |hash: u64| !owns(changed.members, key, hash) && counted.refcount(hash) < u32::MAX,
        |hash: u64| !owns(after.members, key_of(event), hash) && state.refcount(hash) < u32::MAX,
    );
}

/// A removal of the device tier takes from its rank the blocks that it names
/// and nothing else from anyone, and meets no error. What it names is taken or
/// counted as unknown; where it names no block twice, it counts those that the
/// rank did not own.
pub proof fn law_remove_event_takes_its_blocks(
    state: DcCkfModel,
    event: RouterEvent,
    remove: KvCacheRemoveData,
    named: Seq<u64>,
    after: DcCkfModel,
    outcome: OutcomeModel,
)
    requires
        state.inv(),
        state.may_apply(event, after, outcome),
        event.storage_tier == StorageTier::Device,
        event.event.data == KvCacheEventData::Removed(remove),
        named.len() == remove.block_hashes@.len(),
        forall|i: int| 0 <= i < named.len() ==> named[i] == (#[trigger] remove.block_hashes@[i]).0,
    ensures
        outcome.first_error is None,
        forall|key: u128, hash: u64| #[trigger]
            owns(after.members, key, hash) == (owns(state.members, key, hash) && !(key == key_of(
                event,
            ) && named.contains(hash))),
        named.no_duplicates() ==> outcome.unknown_removals == named.filter(
            |hash: u64| !owns(state.members, key_of(event), hash),
        ).len(),
        outcome.unknown_removals + named.to_set().filter(
            |hash: u64| owns(state.members, key_of(event), hash),
        ).len() == named.len(),
        after.telemetry.unknown_removals == state.telemetry.unknown_removals.saturating_add(
            outcome.unknown_removals as u64,
        ),
        after.telemetry.capacity_failures == state.telemetry.capacity_failures,
{
    let choices = choose|choices: Choices| #[trigger]
        state.choices_fit(event, choices) && state.choices_answered(event, choices) && (
            after,
            outcome,
        ) == state.applied(event, choices);
    lemma_recorded(state, event, choices);
    let key = event.member().spec_key();
    crate::protocol::law_member_keys_order_members(event.member(), event.member());
    assert(key == key_of(event));
    assert(remove.hashes() =~= named);
    let counted = state.counting_event();
    lemma_without_blocks(state.members, key, named);
    counted.lemma_removed_all(key, named);
    law_removals_are_found_or_unknown(counted, key, named);
    if named.no_duplicates() {
        law_unknown_removals_are_the_unowned_blocks(counted, key, named);
    }
    lemma_removals_count_nothing_else(counted, key, named);
}

/// Removals leave the counters of unknown removals and of failures to others.
proof fn lemma_removals_count_nothing_else(state: DcCkfModel, key: u128, hashes: Seq<u64>)
    ensures
        state.removed_all(key, hashes).0.telemetry.unknown_removals
            == state.telemetry.unknown_removals,
        state.removed_all(key, hashes).0.telemetry.capacity_failures
            == state.telemetry.capacity_failures,
    decreases hashes.len(),
{
    if hashes.len() > 0 {
        lemma_removals_count_nothing_else(state, key, hashes.drop_last());
    }
}

/// Clearing a worker takes everything from every rank of it, whatever tier and
/// rank the event names, and nothing from any other worker. A rank keeps what
/// it had, all of it, only where the allocator refused the room to list its
/// blocks, and then the event meets an error.
pub proof fn law_clear_event_takes_all_ranks(
    state: DcCkfModel,
    event: RouterEvent,
    after: DcCkfModel,
    outcome: OutcomeModel,
)
    requires
        state.inv(),
        state.may_apply(event, after, outcome),
        event.event.data is Cleared,
    ensures
        forall|key: u128, hash: u64|
            key as int / 0x1_0000_0000 != event.worker_id ==> #[trigger] owns(
                after.members,
                key,
                hash,
            ) == owns(state.members, key, hash),
        forall|key: u128, hash: u64|
            key as int / 0x1_0000_0000 == event.worker_id && #[trigger] owns(
                after.members,
                key,
                hash,
            ) ==> {
                &&& outcome.first_error is Some
                &&& listing_refused(state.members[key].len() as usize)
                &&& after.members[key] == state.members[key]
            },
{
    let choices = choose|choices: Choices| #[trigger]
        state.choices_fit(event, choices) && state.choices_answered(event, choices) && (
            after,
            outcome,
        ) == state.applied(event, choices);
    lemma_recorded(state, event, choices);
    let counted = state.counting_event();
    let order = choices.order;
    let count = order.len() as int;
    counted.lemma_swept_all(event.worker_id, order, choices.sweeps, count);
    assert(order.take(count) =~= order);
    lemma_sweeps_keep_the_rest(counted, event.worker_id, order, choices.sweeps, count);
    let changed = counted.swept_all(order, choices.sweeps).0;
    assert forall|key: u128, hash: u64|
        key as int / 0x1_0000_0000 != event.worker_id implies #[trigger] owns(
        after.members,
        key,
        hash,
    ) == owns(state.members, key, hash) by {
        if order.contains(key) {
            assert(order.to_set().contains(key));
        }
    }
    assert forall|key: u128, hash: u64|
        key as int / 0x1_0000_0000 == event.worker_id && #[trigger] owns(
            after.members,
            key,
            hash,
        ) implies {
        &&& outcome.first_error is Some
        &&& listing_refused(state.members[key].len() as usize)
        &&& after.members[key] == state.members[key]
    } by {
        assert(changed.members.contains_key(key));
        assert(members_of(state.members, event.worker_id).contains(key));
        assert(order.to_set().contains(key));
        let i = choose|i: int| 0 <= i < order.len() && order[i] == key;
        assert(choices.sweeps[i] is None);
    }
}

/// Sweeps leave alone whoever they do not name, and clear whoever they list.
pub proof fn lemma_sweeps_keep_the_rest(
    state: DcCkfModel,
    worker_id: u64,
    order: Seq<u128>,
    sweeps: Seq<Option<Seq<u64>>>,
    count: int,
)
    requires
        state.inv(),
        state.sweeps_fit(worker_id, order, sweeps),
        0 <= count <= sweeps.len(),
    ensures
        ({
            let after = state.swept_all(order.take(count), sweeps).0;
            &&& forall|key: u128|
                !order.contains(key) ==> (#[trigger] after.members.contains_key(key)
                    == state.members.contains_key(key))
            &&& forall|i: int|
                0 <= i < count && (#[trigger] sweeps[i]) is Some ==> !after.members.contains_key(
                    order[i],
                )
        }),
    decreases count,
{
    if count > 0 {
        let prefix = order.take(count);
        let shorter = order.take(count - 1);
        let key = order[count - 1];
        let before = state.swept_all(shorter, sweeps).0;
        lemma_sweeps_keep_the_rest(state, worker_id, order, sweeps, count - 1);
        state.lemma_swept_all(worker_id, order, sweeps, count - 1);
        assert(prefix.drop_last() =~= shorter);
        assert(prefix.last() == key);
        assert(before.members[order[count - 1]] == state.members[order[count - 1]]);
        before.lemma_swept(key, sweeps[count - 1]);
        assert(order.contains(key));
    }
}

} // verus!
