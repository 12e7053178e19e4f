//! What holds of an aggregation over any run of calls.
use crate::config::CkfConfig;
use crate::model::DcCkfModel;
use crate::protocol::{KvCacheEventError, RouterEvent};
use crate::publication::{DeltaModel, OutcomeModel};
use vstd::prelude::*;
#[allow(unused_imports)]
use crate::addressing::CkfAddressing;
#[allow(unused_imports)]
use crate::config::lane_size;
#[allow(unused_imports)]
use crate::laws::{
    continues, law_delta_brings_reader_up_to_date, law_deltas_chain, law_reader_follows_outcome,
    law_reader_follows_rank_removal, law_reader_follows_replacement,
    law_reader_follows_worker_removal, read, sequence_after,
};
#[allow(unused_imports)]
use crate::event_laws::law_every_nth_event_publishes;
#[allow(unused_imports)]
use crate::protocol::{StorageTier, MEMBER_KEY_END};
#[allow(unused_imports)]
use crate::rank_laws::law_replacement_trades_everything;

verus! {

/// One call on an aggregation with what it returned.
pub enum StateCall {
    /// A store with the room that was granted, if any.
    Store { key: u128, hash: u64, granted: bool },
    Apply { event: RouterEvent, outcome: OutcomeModel },
    RemoveRank { key: u128, result: Result<Option<DeltaModel>, KvCacheEventError> },
    RemoveWorker { worker_id: u64, result: Result<Option<DeltaModel>, KvCacheEventError> },
    ReplaceRank {
        key: u128,
        hashes: Set<u64>,
        result: Result<Option<DeltaModel>, KvCacheEventError>,
    },
    /// A flush, or a snapshot that was granted.
    Drain { delta: Option<DeltaModel> },
}

impl StateCall {
    /// What the call published.
    pub open spec fn delta(self) -> Option<DeltaModel> {
        match self {
            StateCall::Store { .. } => None,
            StateCall::Apply { outcome, .. } => outcome.delta,
            StateCall::RemoveRank { result: Ok(delta), .. } => delta,
            StateCall::RemoveWorker { result: Ok(delta), .. } => delta,
            StateCall::ReplaceRank { result: Ok(delta), .. } => delta,
            StateCall::Drain { delta } => delta,
            _ => None,
        }
    }
}

/// Whether a call may lead from one state to another.
pub open spec fn may_call(before: DcCkfModel, call: StateCall, after: DcCkfModel) -> bool {
    match call {
        StateCall::Store { key, hash, granted } => key < MEMBER_KEY_END && after == before.stored(
            key,
            hash,
            granted,
        ).0,
        StateCall::Apply { event, outcome } => before.may_apply(event, after, outcome),
        StateCall::RemoveRank { key, result } => before.may_remove_rank(key, after, result),
        StateCall::RemoveWorker { worker_id, result } => before.may_remove_worker(
            worker_id,
            after,
            result,
        ),
        StateCall::ReplaceRank { key, hashes, result } => key < MEMBER_KEY_END && hashes.finite()
            && before.may_replace_rank(key, hashes, after, result),
        StateCall::Drain { delta } => (after, delta) == before.drained(),
    }
}

/// Any call keeps the invariant, and a reader that applies what it publishes
/// stays in step, in content and in sequence.
pub proof fn law_reader_follows_call(before: DcCkfModel, call: StateCall, after: DcCkfModel)
    requires
        before.inv(),
        may_call(before, call, after),
    ensures
        after.inv(),
        read(before.published(), call.delta()) == after.published(),
        continues(before.sequence, call.delta()),
        after.sequence == sequence_after(before.sequence, call.delta()),
{
    match call {
        StateCall::Store { key, hash, granted } => {
            before.lemma_stored(key, hash, granted);
        },
        StateCall::Apply { event, outcome } => {
            law_reader_follows_outcome(before, event, after, outcome);
        },
        StateCall::RemoveRank { key, result } => {
            law_reader_follows_rank_removal(before, key, after, result);
        },
        StateCall::RemoveWorker { worker_id, result } => {
            law_reader_follows_worker_removal(before, worker_id, after, result);
        },
        StateCall::ReplaceRank { key, hashes, result } => {
            law_reader_follows_replacement(before, key, hashes, after, result);
        },
        StateCall::Drain { .. } => {
            before.lemma_drained();
            law_delta_brings_reader_up_to_date(before);
            law_deltas_chain(before);
        },
    }
}

/// One call with the state after it.
pub struct CallStep {
    pub call: StateCall,
    pub after: DcCkfModel,
}

/// The state after some calls.
pub open spec fn state_after_calls(start: DcCkfModel, steps: Seq<CallStep>) -> DcCkfModel {
    if steps.len() == 0 {
        start
    } else {
        steps.last().after
    }
}

/// Whether a state may go through some calls one after the other.
pub open spec fn may_call_all(start: DcCkfModel, steps: Seq<CallStep>) -> bool
    decreases steps.len(),
{
    if steps.len() == 0 {
        true
    } else {
        may_call_all(start, steps.drop_last()) && may_call(
            state_after_calls(start, steps.drop_last()),
            steps.last().call,
            steps.last().after,
        )
    }
}

/// What some calls published, in order, with nothing for those that published
/// nothing.
pub open spec fn call_deltas(steps: Seq<CallStep>) -> Seq<Option<DeltaModel>> {
    steps.map_values(|step: CallStep| step.call.delta())
}

/// The lane of a reader that started from a base and applied some deltas in
/// order.
pub open spec fn lane_after(base: Seq<u64>, deltas: Seq<Option<DeltaModel>>) -> Seq<u64>
    decreases deltas.len(),
{
    if deltas.len() == 0 {
        base
    } else {
        read(lane_after(base, deltas.drop_last()), deltas.last())
    }
}

/// The sequence of a reader that started from one and applied some deltas in
/// order.
pub open spec fn sequence_at_end(base: u64, deltas: Seq<Option<DeltaModel>>) -> u64
    decreases deltas.len(),
{
    if deltas.len() == 0 {
        base
    } else {
        sequence_after(sequence_at_end(base, deltas.drop_last()), deltas.last())
    }
}

/// Whether every delta continues where the one before it ended, the first at a
/// base.
pub open spec fn is_chain(base: u64, deltas: Seq<Option<DeltaModel>>) -> bool
    decreases deltas.len(),
{
    if deltas.len() == 0 {
        true
    } else {
        is_chain(base, deltas.drop_last()) && continues(
            sequence_at_end(base, deltas.drop_last()),
            deltas.last(),
        )
    }
}

/// Over any run of calls, a reader that applies every delta has what was last
/// published; every delta continues where the one before it ended; and nothing
/// but deltas moves the sequence.
pub proof fn law_reader_follows_run(start: DcCkfModel, steps: Seq<CallStep>)
    requires
        start.inv(),
        may_call_all(start, steps),
    ensures
        ({
            let end = state_after_calls(start, steps);
            let deltas = call_deltas(steps);
            &&& end.inv()
            &&& lane_after(start.published(), deltas) == end.published()
            &&& is_chain(start.sequence, deltas)
            &&& sequence_at_end(start.sequence, deltas) == end.sequence
        }),
    decreases steps.len(),
{
    if steps.len() > 0 {
        let before = state_after_calls(start, steps.drop_last());
        law_reader_follows_run(start, steps.drop_last());
        law_reader_follows_call(before, steps.last().call, steps.last().after);
        assert(call_deltas(steps).drop_last() =~= call_deltas(steps.drop_last()));
        assert(call_deltas(steps).last() == steps.last().call.delta());
    }
}

/// A snapshot is a base for everything after it: over any run of calls, the
/// deltas continue its sequence one after the other and rebuild the published
/// lane from its buckets, and the next flush completes the lane itself.
pub proof fn law_snapshot_is_a_base(state: DcCkfModel, steps: Seq<CallStep>)
    requires
        state.inv(),
        may_call_all(state.drained().0, steps),
    ensures
        ({
            let snapshot = state.drained().0.snapshot();
            let end = state_after_calls(state.drained().0, steps);
            let deltas = call_deltas(steps);
            &&& snapshot.buckets == state.lane
            &&& is_chain(snapshot.sequence, deltas.push(end.drained().1))
            &&& sequence_at_end(snapshot.sequence, deltas) == end.sequence
            &&& lane_after(snapshot.buckets, deltas) == end.published()
            &&& lane_after(snapshot.buckets, deltas.push(end.drained().1)) == end.lane
        }),
{
    let start = state.drained().0;
    let end = state_after_calls(start, steps);
    let deltas = call_deltas(steps);
    state.lemma_drained();
    law_reader_follows_run(start, steps);
    law_delta_brings_reader_up_to_date(end);
    law_deltas_chain(end);
    assert(deltas.push(end.drained().1).drop_last() =~= deltas);
}

/// Every state that calls lead to from a new aggregation satisfies the
/// invariant.
pub proof fn law_reachable_states_are_sound(
    config: CkfConfig,
    addressing: CkfAddressing,
    steps: Seq<CallStep>,
)
    requires
        config.fault() is None,
        addressing.wf(),
        addressing.seed() == config.seed,
        addressing.bucket_count() == lane_size(config.expected_blocks_per_dc),
        may_call_all(DcCkfModel::initial(config, addressing), steps),
    ensures
        state_after_calls(DcCkfModel::initial(config, addressing), steps).inv(),
{
    DcCkfModel::lemma_initial(config, addressing);
    law_reader_follows_run(DcCkfModel::initial(config, addressing), steps);
}

/// A call leaves fewer events pending than the publication interval.
proof fn lemma_pending_after_call(before: DcCkfModel, call: StateCall, after: DcCkfModel)
    requires
        before.inv(),
        may_call(before, call, after),
        before.pending_events < before.config.publish_every_n_events,
    ensures
        after.pending_events < after.config.publish_every_n_events,
        after.config == before.config,
{
    match call {
        StateCall::Store { key, hash, granted } => {
            before.lemma_stored(key, hash, granted);
        },
        StateCall::Apply { event, outcome } => {
            if event.storage_tier == StorageTier::Device || event.event.data is Cleared {
                law_every_nth_event_publishes(before, event, after, outcome);
            }
        },
        StateCall::RemoveRank { key, result } => {
            if let Ok(delta) = result {
                let sweep = choose|sweep: Option<Seq<u64>>| #[trigger]
                    before.sweep_fits(key, sweep) && (after, delta) == before.swept(
                        key,
                        sweep,
                    ).0.drained();
                before.lemma_swept(key, sweep);
                before.swept(key, sweep).0.lemma_drained();
            }
        },
        StateCall::RemoveWorker { worker_id, result } => {
            let (order, sweeps) = choose|order: Seq<u128>, sweeps: Seq<Option<Seq<u64>>>|
                #![trigger before.sweeps_fit(worker_id, order, sweeps)]
                {
                    let (swept, error) = before.swept_all(order.take(sweeps.len() as int), sweeps);
                    &&& before.sweeps_fit(worker_id, order, sweeps)
                    &&& match result {
                        Ok(delta) => (after, delta) == swept.drained(),
                        Err(_) => after == swept,
                    }
                };
            before.lemma_swept_all(worker_id, order, sweeps, sweeps.len() as int);
            before.swept_all(order.take(sweeps.len() as int), sweeps).0.lemma_drained();
        },
        StateCall::ReplaceRank { key, hashes, result } => {
            if let Ok(delta) = result {
                law_replacement_trades_everything(before, key, hashes, after, delta);
            }
        },
        StateCall::Drain { .. } => {
            before.lemma_drained();
        },
    }
}

/// Over any run of calls, subscribers are never owed as many events as the
/// publication interval; an aggregation that publishes after every event owes
/// them none.
pub proof fn law_fewer_events_are_pending_than_the_interval(
    start: DcCkfModel,
    steps: Seq<CallStep>,
)
    requires
        start.inv(),
        start.pending_events < start.config.publish_every_n_events,
        may_call_all(start, steps),
    ensures
        state_after_calls(start, steps).pending_events < start.config.publish_every_n_events,
        state_after_calls(start, steps).config == start.config,
    decreases steps.len(),
{
    if steps.len() > 0 {
        let before = state_after_calls(start, steps.drop_last());
        law_reader_follows_run(start, steps.drop_last());
        law_fewer_events_are_pending_than_the_interval(start, steps.drop_last());
        lemma_pending_after_call(before, steps.last().call, steps.last().after);
    }
}

} // verus!
