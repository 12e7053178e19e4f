//! What counters count over calls.
use crate::config::CkfConfig;
use crate::model::{Choices, DcCkfModel, DcCkfTelemetry};
use crate::protocol::{KvCacheEventError, RouterEvent};
use crate::publication::{DeltaModel, OutcomeModel};
use crate::runs::{CallStep, StateCall};
use vstd::prelude::*;
#[allow(unused_imports)]
use crate::addressing::CkfAddressing;
#[allow(unused_imports)]
use crate::config::lane_size;
#[allow(unused_imports)]
use crate::event_laws::counted_up_to_limit;
#[allow(unused_imports)]
use crate::mutator::insertion;
#[allow(unused_imports)]
use crate::ownership::owns;
#[allow(unused_imports)]
use crate::placement::{
    is_full, law_empty_slot_is_taken, law_more_kicks_find_the_same_place, lemma_placement_writes,
};
#[allow(unused_imports)]
use crate::protocol::{KvCacheEventData, MEMBER_KEY_END};
#[allow(unused_imports)]
use crate::runs::{may_call, may_call_all, state_after_calls};

verus! {

/// Whether no counter is lower than before.
pub open spec fn none_lower(before: DcCkfTelemetry, after: DcCkfTelemetry) -> bool {
    &&& before.unknown_removals <= after.unknown_removals
    &&& before.capacity_failures <= after.capacity_failures
    &&& before.physical_touches <= after.physical_touches
    &&& before.distinct_touched_buckets <= after.distinct_touched_buckets
    &&& before.emitted_images <= after.emitted_images
    &&& before.net_reverted_buckets <= after.net_reverted_buckets
    &&& before.reset_count <= after.reset_count
}

/// Whether no counter is lower than before, and no failure and no unknown
/// removal was counted.
pub open spec fn nothing_failed(before: DcCkfTelemetry, after: DcCkfTelemetry) -> bool {
    &&& none_lower(before, after)
    &&& after.unknown_removals == before.unknown_removals
    &&& after.capacity_failures == before.capacity_failures
}

/// Stores lower no counter and count no unknown removal.
proof fn lemma_stores_counted(state: DcCkfModel, key: u128, hashes: Seq<u64>, grants: Seq<bool>)
    ensures
        none_lower(state.telemetry, state.stored_all(key, hashes, grants).0.telemetry),
        state.stored_all(key, hashes, grants).0.telemetry.unknown_removals
            == state.telemetry.unknown_removals,
    decreases hashes.len(),
{
    if hashes.len() > 0 {
        lemma_stores_counted(state, key, hashes.drop_last(), grants);
    }
}

/// Removals lower no counter and count no failure by themselves.
proof fn lemma_removals_counted(state: DcCkfModel, key: u128, hashes: Seq<u64>)
    ensures
        nothing_failed(state.telemetry, state.removed_all(key, hashes).0.telemetry),
    decreases hashes.len(),
{
    if hashes.len() > 0 {
        lemma_removals_counted(state, key, hashes.drop_last());
    }
}

/// Sweeps lower no counter and count no failure.
proof fn lemma_sweeps_counted(
    state: DcCkfModel,
    order: Seq<u128>,
    sweeps: Seq<Option<Seq<u64>>>,
)
    ensures
        nothing_failed(state.telemetry, state.swept_all(order, sweeps).0.telemetry),
    decreases order.len(),
{
    if order.len() > 0 {
        lemma_sweeps_counted(state, order.drop_last(), sweeps);
        let before = state.swept_all(order.drop_last(), sweeps).0;
        if let Some(sweep) = sweeps[order.len() - 1] {
            lemma_removals_counted(before, order.last(), sweep);
        }
    }
}

/// Closing a window lowers no counter and counts no failure.
proof fn lemma_drain_counted(state: DcCkfModel)
    ensures
        nothing_failed(state.telemetry, state.drained().0.telemetry),
{
}

/// An event lowers no counter.
proof fn lemma_event_counted(
    before: DcCkfModel,
    event: RouterEvent,
    after: DcCkfModel,
    outcome: OutcomeModel,
)
    requires
        before.may_apply(event, after, outcome),
    ensures
        none_lower(before.telemetry, after.telemetry),
{
    let choices = choose|choices: Choices| #[trigger]
        before.choices_fit(event, choices) && before.choices_answered(event, choices) && (
            after,
            outcome,
        ) == before.applied(event, choices);
    let counted = before.counting_event();
    let key = event.member().spec_key();
    match event.event.data {
        KvCacheEventData::Stored(store) => {
            lemma_stores_counted(counted, key, store.hashes(), choices.grants);
        },
        KvCacheEventData::Removed(remove) => {
            lemma_removals_counted(counted, key, remove.hashes());
        },
        KvCacheEventData::Cleared => {
            lemma_sweeps_counted(counted, choices.order, choices.sweeps);
        },
    }
    let (changed, _, unknown) = counted.recorded(event, choices);
    lemma_drain_counted(changed.noting_unknown(unknown));
}

/// Removing a worker lowers no counter and counts no failure.
proof fn lemma_worker_removal_counted(
    before: DcCkfModel,
    worker_id: u64,
    after: DcCkfModel,
    result: Result<Option<DeltaModel>, KvCacheEventError>,
)
    requires
        before.may_remove_worker(worker_id, after, result),
    ensures
        nothing_failed(before.telemetry, after.telemetry),
{
    let (order, sweeps) = choose|order: Seq<u128>, sweeps: Seq<Option<Seq<u64>>>|
        #![trigger before.sweeps_fit(worker_id, order, sweeps)]
        {
            let (swept, error) = before.swept_all(order.take(sweeps.len() as int), sweeps);
            &&& before.sweeps_fit(worker_id, order, sweeps)
            &&& match result {
                Ok(delta) => (after, delta) == swept.drained(),
                Err(_) => after == swept,
            }
        };
    let named = order.take(sweeps.len() as int);
    lemma_sweeps_counted(before, named, sweeps);
    lemma_drain_counted(before.swept_all(named, sweeps).0);
}

/// Counters only ever grow, and only events count failures and unknown removals:
/// single stores, removing and replacing ranks and publishing leave both counts
/// alone.
pub proof fn law_counters_never_go_down(before: DcCkfModel, call: StateCall, after: DcCkfModel)
    requires
        may_call(before, call, after),
    ensures
        none_lower(before.telemetry, after.telemetry),
        !(call is Apply) ==> nothing_failed(before.telemetry, after.telemetry),
{
    match call {
        StateCall::Store { .. } => {},
        StateCall::Apply { event, outcome } => {
            lemma_event_counted(before, event, after, outcome);
        },
        StateCall::RemoveRank { key, result } => {
            if let Ok(delta) = result {
                let sweep = choose|sweep: Option<Seq<u64>>| #[trigger]
                    before.sweep_fits(key, sweep) && (after, delta) == before.swept(
                        key,
                        sweep,
                    ).0.drained();
                if let Some(order) = sweep {
                    lemma_removals_counted(before, key, order);
                }
                lemma_drain_counted(before.swept(key, sweep).0);
            }
        },
        StateCall::RemoveWorker { worker_id, result } => {
            lemma_worker_removal_counted(before, worker_id, after, result);
        },
        StateCall::ReplaceRank { key, hashes, result } => {
            if let Ok(delta) = result {
                let (pairs, grants, rebuilt) = choose|
                    pairs: Seq<(u128, u64)>,
                    grants: Seq<bool>,
                    rebuilt: DcCkfModel,
                | #[trigger]
                    before.is_accepted(key, hashes, pairs, grants, rebuilt) && (after, delta)
                        == before.replaced_by(rebuilt).drained();
                lemma_drain_counted(before.replaced_by(rebuilt));
            }
        },
        StateCall::Drain { .. } => {
            lemma_drain_counted(before);
        },
    }
}

/// Over any run of calls, counters only ever grow.
pub proof fn law_counters_grow_over_a_run(start: DcCkfModel, steps: Seq<CallStep>)
    requires
        may_call_all(start, steps),
    ensures
        none_lower(start.telemetry, state_after_calls(start, steps).telemetry),
    decreases steps.len(),
{
    if steps.len() > 0 {
        law_counters_grow_over_a_run(start, steps.drop_last());
        law_counters_never_go_down(
            state_after_calls(start, steps.drop_last()),
            steps.last().call,
            steps.last().after,
        );
    }
}

/// The first owner of a block touches the lane once if one of the block's
/// buckets has an empty slot, and otherwise at most once for every allowed kick
/// and once more; further owners and failed stores do not touch it.
pub proof fn law_store_counts_its_touches(state: DcCkfModel, key: u128, hash: u64, granted: bool)
    requires
        state.inv(),
        key < MEMBER_KEY_END,
        state.telemetry.physical_touches + state.config.max_kicks + 1 <= u64::MAX,
    ensures
        ({
            let (after, result) = state.stored(key, hash, granted);
            let probe = state.addressing.probe(hash);
            let touches = after.telemetry.physical_touches - state.telemetry.physical_touches;
            let first = result is Ok && !owns(state.members, key, hash) && state.refcount(hash)
                == 0;
            &&& !first ==> touches == 0
            &&& first ==> 1 <= touches <= state.config.max_kicks + 1
            &&& first && (!is_full(state.lane[probe.bucket_a as int]) || !is_full(
                state.lane[probe.bucket_b as int],
            )) ==> touches == 1
        }),
{
    let (after, result) = state.stored(key, hash, granted);
    let probe = state.addressing.probe(hash);
    let kicks = state.config.max_kicks as nat;
    let end = insertion(state.addressing, state.lane, hash, state.rng, kicks);
    if end.placed {
        law_more_kicks_find_the_same_place(
            state.addressing,
            state.lane,
            hash,
            state.rng,
            kicks,
            kicks,
        );
        lemma_placement_writes(state.addressing, state.lane, hash, state.rng, kicks);
    }
    if !is_full(state.lane[probe.bucket_a as int]) || !is_full(state.lane[probe.bucket_b as int]) {
        law_empty_slot_is_taken(state.addressing, state.lane, hash, state.rng, kicks);
    }
}

/// A store adds at most one block, and with it at least one touch.
proof fn lemma_store_counted(state: DcCkfModel, key: u128, hash: u64, granted: bool)
    requires
        state.inv(),
        state.config.max_kicks < u64::MAX,
    ensures
        ({
            let after = state.stored(key, hash, granted).0;
            let more = after.refcounts.dom().len() - state.refcounts.dom().len();
            &&& 0 <= more <= 1
            &&& after.telemetry.physical_touches >= counted_up_to_limit(
                state.telemetry.physical_touches + more,
            )
        }),
{
    let after = state.stored(key, hash, granted).0;
    let kicks = state.config.max_kicks as nat;
    let end = insertion(state.addressing, state.lane, hash, state.rng, kicks);
    if end.placed {
        lemma_placement_writes(state.addressing, state.lane, hash, state.rng, kicks);
        law_more_kicks_find_the_same_place(
            state.addressing,
            state.lane,
            hash,
            state.rng,
            kicks,
            kicks,
        );
    }
    if state.refcounts.contains_key(hash) {
        assert(after.refcounts.dom() =~= state.refcounts.dom());
    } else if after.refcounts != state.refcounts {
        assert(after.refcounts.dom() =~= state.refcounts.dom().insert(hash));
    }
}

/// Rebuilding touches the lane at least once for every block.
proof fn lemma_rebuilding_counted(
    config: CkfConfig,
    addressing: CkfAddressing,
    pairs: Seq<(u128, u64)>,
    grants: Seq<bool>,
)
    requires
        config.fault() is None,
        config.max_kicks < u64::MAX,
        addressing.wf(),
        addressing.seed() == config.seed,
        addressing.bucket_count() == lane_size(config.expected_blocks_per_dc),
        forall|i: int| 0 <= i < pairs.len() ==> (#[trigger] pairs[i]).0 < MEMBER_KEY_END,
    ensures
        ({
            let rebuilt = DcCkfModel::rebuilt(config, addressing, pairs, grants).0;
            rebuilt.telemetry.physical_touches >= counted_up_to_limit(
                rebuilt.refcounts.dom().len() as int,
            )
        }),
    decreases pairs.len(),
{
    if pairs.len() > 0 {
        let rest = pairs.drop_last();
        let (before, error) = DcCkfModel::rebuilt(config, addressing, rest, grants);
        let (key, hash) = pairs.last();
        let granted = grants[pairs.len() - 1];
        lemma_rebuilding_counted(config, addressing, rest, grants);
        DcCkfModel::lemma_rebuilt(config, addressing, rest, grants);
        assert(pairs[pairs.len() - 1].0 < MEMBER_KEY_END);
        lemma_store_counted(before, key, hash, granted);
    } else {
        assert(DcCkfModel::initial(config, addressing).refcounts.dom() =~= Set::empty());
    }
}

/// A replacement adds its touches of the lane to those before, at least one for
/// every block that is owned afterwards.
pub proof fn law_replacement_counts_its_touches(
    state: DcCkfModel,
    key: u128,
    hashes: Set<u64>,
    after: DcCkfModel,
    delta: Option<DeltaModel>,
)
    requires
        state.inv(),
        key < MEMBER_KEY_END,
        state.config.max_kicks < u64::MAX,
        state.may_replace_rank(key, hashes, after, Ok(delta)),
    ensures
        after.telemetry.physical_touches >= counted_up_to_limit(
            state.telemetry.physical_touches + after.refcounts.dom().len(),
        ),
{
    let (pairs, grants, rebuilt) = choose|
        pairs: Seq<(u128, u64)>,
        grants: Seq<bool>,
        rebuilt: DcCkfModel,
    | #[trigger]
        state.is_accepted(key, hashes, pairs, grants, rebuilt) && (after, delta)
            == state.replaced_by(rebuilt).drained();
    reveal(DcCkfModel::is_accepted);
    assert forall|i: int| 0 <= i < pairs.len() implies (#[trigger] pairs[i]).0
        < MEMBER_KEY_END by {
        assert(state.is_wanted(key, hashes, pairs[i]));
    }
    lemma_rebuilding_counted(state.config, state.addressing, pairs, grants);
}

} // verus!
