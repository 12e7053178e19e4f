//! What a relay's commands do, in terms of what they name.
use crate::actor::{ActorCommand, ActorModel, ActorReaction};
use crate::protocol::{
    KvCacheEventData, KvCacheRemoveData, KvCacheStoreData, RouterEvent, StorageTier,
    WorkerWithDpRank,
};
use crate::publication::OutcomeModel;
use crate::relay::{ActorCounters, KvDcRelayError};
use vstd::prelude::*;
#[allow(unused_imports)]
use crate::actor::{delivered_to, ActorReply};
#[allow(unused_imports)]
use crate::event_laws::{
    had_to_be_refused, key_of, law_clear_event_takes_all_ranks, law_every_nth_event_publishes,
    law_other_tiers_have_no_say, law_remove_event_takes_its_blocks,
    law_store_event_gives_its_blocks,
};
#[allow(unused_imports)]
use crate::fx::blocks_room_refused;
#[allow(unused_imports)]
use crate::occupancy::one_if;
#[allow(unused_imports)]
use crate::ownership::owns;
#[allow(unused_imports)]
use crate::publication::delta_model;
#[allow(unused_imports)]
use crate::rank_laws::{
    law_rank_removal_takes_everything, law_replacement_trades_everything,
    law_worker_removal_takes_everything,
};
#[allow(unused_imports)]
use crate::relay::{
    dump_fault, dump_hashes, faultless, lemma_dump_hashes_finite, may_refuse_dump, DumpFault,
};

verus! {

/// Whether an event says that a block is stored on the device: the block is one
/// of those that it lists, by its sequence hash.
pub open spec fn names(event: RouterEvent, hash: u64) -> bool {
    &&& event.storage_tier == StorageTier::Device
    &&& event.event.data matches KvCacheEventData::Stored(store) && exists|j: int|
        0 <= j < store.blocks@.len() && (#[trigger] store.blocks@[j]).block_hash.0 == hash
}

/// A dump stands for exactly the blocks that its events list as stored on the
/// device, by their sequence hashes.
pub proof fn law_dump_stands_for_its_device_blocks(events: Seq<RouterEvent>, hash: u64)
    ensures
        dump_hashes(events).contains(hash) <==> exists|i: int|
            0 <= i < events.len() && names(#[trigger] events[i], hash),
        dump_hashes(events).finite(),
    decreases events.len(),
{
    lemma_dump_hashes_finite(events);
    if events.len() > 0 {
        let rest = events.drop_last();
        let last = events.last();
        law_dump_stands_for_its_device_blocks(rest, hash);
        lemma_event_names(last, hash);
        if dump_hashes(rest).contains(hash) {
            let i = choose|i: int| 0 <= i < rest.len() && names(#[trigger] rest[i], hash);
            assert(names(events[i], hash));
        }
        if names(last, hash) {
            assert(names(events[events.len() - 1], hash));
        }
        if exists|i: int| 0 <= i < events.len() && names(#[trigger] events[i], hash) {
            let i = choose|i: int| 0 <= i < events.len() && names(#[trigger] events[i], hash);
            if i < rest.len() {
                assert(names(rest[i], hash));
            }
        }
    }
}

/// An event of a dump stands for the blocks that it names.
proof fn lemma_event_names(event: RouterEvent, hash: u64)
    ensures
        crate::relay::event_hashes(event).contains(hash) == names(event, hash),
{
    if let KvCacheEventData::Stored(store) = event.event.data {
        let hashes = store.hashes();
        if hashes.contains(hash) {
            let j = choose|j: int| 0 <= j < hashes.len() && hashes[j] == hash;
            assert(store.blocks@[j].block_hash.0 == hash);
        }
        if exists|j: int|
            0 <= j < store.blocks@.len() && (#[trigger] store.blocks@[j]).block_hash.0 == hash {
            let j = choose|j: int|
                0 <= j < store.blocks@.len() && (#[trigger] store.blocks@[j]).block_hash.0 == hash;
            assert(hashes[j] == hash);
        }
    }
}

/// Whether an event belongs into a dump of a rank: it speaks of that rank, and
/// on the device it reports stored blocks.
pub open spec fn belongs(worker: WorkerWithDpRank, event: RouterEvent) -> bool {
    &&& event.worker_id == worker.worker_id
    &&& event.event.dp_rank == worker.dp_rank
    &&& event.storage_tier == StorageTier::Device ==> event.event.data is Stored
}

/// A dump is in order exactly when every event belongs into it. An event of
/// another rank is told apart from one that reports something else than stored
/// blocks, and comes first.
pub proof fn law_dump_in_order_exactly_when_events_belong(
    worker: WorkerWithDpRank,
    events: Seq<RouterEvent>,
    event: RouterEvent,
)
    ensures
        faultless(worker, events, events.len() as int) <==> forall|i: int|
            0 <= i < events.len() ==> belongs(worker, #[trigger] events[i]),
        dump_fault(worker, event) is None <==> belongs(worker, event),
        dump_fault(worker, event) == Some(DumpFault::IdentityMismatch) <==> (event.worker_id
            != worker.worker_id || event.event.dp_rank != worker.dp_rank),
{
    assert forall|e: RouterEvent| (#[trigger] dump_fault(worker, e) is None) == belongs(
        worker,
        e,
    ) by {
    }
    if forall|i: int| 0 <= i < events.len() ==> belongs(worker, #[trigger] events[i]) {
        assert forall|i: int| 0 <= i < events.len() implies dump_fault(
            worker,
            #[trigger] events[i],
        ) is None by {
            assert(belongs(worker, events[i]));
        }
    }
    if faultless(worker, events, events.len() as int) {
        assert forall|i: int| 0 <= i < events.len() implies belongs(
            worker,
            #[trigger] events[i],
        ) by {
            assert(dump_fault(worker, events[i]) is None);
        }
    }
}

/// A dump is refused only for a cause: the error names the rank and the first
/// event that does not belong, or the allocator refused the room for the blocks
/// of an event before which, and with which, everything belongs.
pub proof fn law_dump_is_refused_only_for_a_cause(
    worker: WorkerWithDpRank,
    events: Seq<RouterEvent>,
    error: KvDcRelayError,
)
    requires
        may_refuse_dump(worker, events, error),
    ensures
        match error {
            KvDcRelayError::InvalidTreeDump { worker_id, dp_rank, .. } => {
                &&& worker_id == worker.worker_id
                &&& dp_rank == worker.dp_rank
                &&& exists|i: int|
                    #![trigger events[i]]
                    {
                        &&& 0 <= i < events.len()
                        &&& !belongs(worker, events[i])
                        &&& forall|j: int| 0 <= j < i ==> belongs(worker, #[trigger] events[j])
                    }
            },
            KvDcRelayError::Build(_) => exists|i: int|
                #![trigger events[i]]
                {
                    &&& 0 <= i < events.len()
                    &&& forall|j: int| 0 <= j <= i ==> belongs(worker, #[trigger] events[j])
                    &&& events[i].event.data matches KvCacheEventData::Stored(store)
                        && store.blocks@.len() > 0 && blocks_room_refused(
                        store.blocks@.len() as usize,
                    )
                },
            _ => false,
        },
{
    assert forall|e: RouterEvent| (#[trigger] dump_fault(worker, e) is None) == belongs(
        worker,
        e,
    ) by {
    }
    match error {
        KvDcRelayError::InvalidTreeDump { message, .. } => {
            let i = choose|i: int|
                #![trigger events[i]]
                {
                    &&& 0 <= i < events.len()
                    &&& faultless(worker, events, i)
                    &&& dump_fault(worker, events[i]) is Some
                    &&& message@ == dump_fault(worker, events[i]).unwrap().spec_message()
                };
            assert forall|j: int| 0 <= j < i implies belongs(worker, #[trigger] events[j]) by {
                assert(dump_fault(worker, events[j]) is None);
            }
            assert(!belongs(worker, events[i]));
        },
        KvDcRelayError::Build(_) => {
            let i = choose|i: int|
                #![trigger events[i]]
                {
                    &&& 0 <= i < events.len()
                    &&& faultless(worker, events, i + 1)
                    &&& events[i].storage_tier == StorageTier::Device
                    &&& events[i].event.data matches KvCacheEventData::Stored(store)
                        && store.blocks@.len() > 0 && blocks_room_refused(
                        store.blocks@.len() as usize,
                    )
                };
            assert forall|j: int| 0 <= j <= i implies belongs(worker, #[trigger] events[j]) by {
                assert(dump_fault(worker, events[j]) is None);
            }
        },
        _ => {},
    }
}

/// Whether a command was answered with success.
pub open spec fn succeeded(reaction: ActorReaction) -> bool {
    reaction.reply matches ActorReply::Done(Ok(_))
}

/// A command to apply a store event that is answered with success gave its rank
/// every block that the event lists. Under any answer, each of them is owned or
/// had to be refused. An aggregation that publishes after every event has told
/// subscribers by then.
pub proof fn law_apply_command_stores(
    before: ActorModel,
    event: RouterEvent,
    store: KvCacheStoreData,
    after: ActorModel,
    reaction: ActorReaction,
)
    requires
        before.state.inv(),
        before.may_handle(ActorCommand::Apply { event }, after, reaction),
        event.storage_tier == StorageTier::Device,
        event.event.data == KvCacheEventData::Stored(store),
    ensures
        reaction.reply is Done,
        succeeded(reaction) ==> forall|i: int|
            0 <= i < store.blocks@.len() ==> owns(
                after.state.members,
                key_of(event),
                (#[trigger] store.blocks@[i]).block_hash.0,
            ),
        reaction.reply matches ActorReply::Done(Err(error)) ==> error is Event,
        forall|i: int|
            0 <= i < store.blocks@.len() ==> owns(
                after.state.members,
                key_of(event),
                (#[trigger] store.blocks@[i]).block_hash.0,
            ) || had_to_be_refused(after.state, store.blocks@[i].block_hash.0),
        before.state.config.publish_every_n_events == 1 ==> {
            &&& after.state.published() == after.state.lane
            &&& reaction.unchanged == (reaction.publication is None)
        },
{
    let outcome = choose|outcome: OutcomeModel|
        {
            &&& #[trigger] before.state.may_apply(event, after.state, outcome)
            &&& reaction.reply == crate::actor::done_with(outcome.first_error)
            &&& delta_model(reaction.publication) == outcome.delta
            &&& reaction.unchanged == (outcome.publication_boundary && outcome.delta is None)
            &&& !reaction.degraded_reset
            &&& reaction.unknown_removals == outcome.unknown_removals
        };
    law_store_event_gives_its_blocks(before.state, event, store, after.state, outcome);
    law_every_nth_event_publishes(before.state, event, after.state, outcome);
}

/// A command to apply a removal of the device tier is always answered with
/// success; its rank owns none of the blocks that it names, and those it did not
/// own before are reported.
pub proof fn law_apply_command_removes(
    before: ActorModel,
    event: RouterEvent,
    remove: KvCacheRemoveData,
    named: Seq<u64>,
    after: ActorModel,
    reaction: ActorReaction,
)
    requires
        before.state.inv(),
        before.may_handle(ActorCommand::Apply { event }, after, reaction),
        event.storage_tier == StorageTier::Device,
        event.event.data == KvCacheEventData::Removed(remove),
        named.len() == remove.block_hashes@.len(),
        forall|i: int| 0 <= i < named.len() ==> named[i] == (#[trigger] remove.block_hashes@[i]).0,
    ensures
        succeeded(reaction),
        forall|key: u128, hash: u64| #[trigger]
            owns(after.state.members, key, hash) == (owns(before.state.members, key, hash) && !(key
                == key_of(event) && named.contains(hash))),
        reaction.unknown_removals + named.to_set().filter(
            |hash: u64| owns(before.state.members, key_of(event), hash),
        ).len() == named.len(),
        before.state.config.publish_every_n_events == 1 ==> {
            &&& after.state.published() == after.state.lane
            &&& reaction.unchanged == (reaction.publication is None)
        },
{
    let outcome = choose|outcome: OutcomeModel|
        {
            &&& #[trigger] before.state.may_apply(event, after.state, outcome)
            &&& reaction.reply == crate::actor::done_with(outcome.first_error)
            &&& delta_model(reaction.publication) == outcome.delta
            &&& reaction.unchanged == (outcome.publication_boundary && outcome.delta is None)
            &&& !reaction.degraded_reset
            &&& reaction.unknown_removals == outcome.unknown_removals
        };
    law_remove_event_takes_its_blocks(before.state, event, remove, named, after.state, outcome);
    law_every_nth_event_publishes(before.state, event, after.state, outcome);
}

/// A command to apply an event that clears a worker and that is answered with
/// success leaves the worker nothing; under any answer, other workers keep what
/// they had.
pub proof fn law_apply_command_clears(
    before: ActorModel,
    event: RouterEvent,
    after: ActorModel,
    reaction: ActorReaction,
)
    requires
        before.state.inv(),
        before.may_handle(ActorCommand::Apply { event }, after, reaction),
        event.event.data is Cleared,
    ensures
        reaction.reply is Done,
        reaction.reply matches ActorReply::Done(Err(error)) ==> error is Event,
        forall|key: u128, hash: u64|
            key as int / 0x1_0000_0000 != event.worker_id ==> #[trigger] owns(
                after.state.members,
                key,
                hash,
            ) == owns(before.state.members, key, hash),
        succeeded(reaction) ==> forall|key: u128, hash: u64|
            key as int / 0x1_0000_0000 == event.worker_id ==> !#[trigger] owns(
                after.state.members,
                key,
                hash,
            ),
        before.state.config.publish_every_n_events == 1 ==> {
            &&& after.state.published() == after.state.lane
            &&& reaction.unchanged == (reaction.publication is None)
        },
{
    let outcome = choose|outcome: OutcomeModel|
        {
            &&& #[trigger] before.state.may_apply(event, after.state, outcome)
            &&& reaction.reply == crate::actor::done_with(outcome.first_error)
            &&& delta_model(reaction.publication) == outcome.delta
            &&& reaction.unchanged == (outcome.publication_boundary && outcome.delta is None)
            &&& !reaction.degraded_reset
            &&& reaction.unknown_removals == outcome.unknown_removals
        };
    law_clear_event_takes_all_ranks(before.state, event, after.state, outcome);
    law_every_nth_event_publishes(before.state, event, after.state, outcome);
}

/// A command to apply any other event of another tier than the device is
/// answered with success and changes nothing.
pub proof fn law_apply_command_ignores_other_tiers(
    before: ActorModel,
    event: RouterEvent,
    after: ActorModel,
    reaction: ActorReaction,
)
    requires
        before.may_handle(ActorCommand::Apply { event }, after, reaction),
        event.storage_tier != StorageTier::Device,
        !(event.event.data is Cleared),
    ensures
        succeeded(reaction),
        after == before,
        reaction.publication is None,
        !reaction.unchanged,
        reaction.unknown_removals == 0,
{
    let outcome = choose|outcome: OutcomeModel|
        {
            &&& #[trigger] before.state.may_apply(event, after.state, outcome)
            &&& reaction.reply == crate::actor::done_with(outcome.first_error)
            &&& delta_model(reaction.publication) == outcome.delta
            &&& reaction.unchanged == (outcome.publication_boundary && outcome.delta is None)
            &&& !reaction.degraded_reset
            &&& reaction.unknown_removals == outcome.unknown_removals
        };
    law_other_tiers_have_no_say(before.state, event, after.state, outcome);
}

/// A command to replace a rank that is answered with success leaves the rank
/// exactly the blocks that the dump lists as stored on its device, and everyone
/// else what they had; the dump was in order, and subscribers have seen the
/// lane. Any other answer leaves everything as it was.
pub proof fn law_replace_command_trades_everything(
    before: ActorModel,
    worker: WorkerWithDpRank,
    events: Vec<RouterEvent>,
    after: ActorModel,
    reaction: ActorReaction,
)
    requires
        before.state.inv(),
        before.may_handle(
            ActorCommand::ReplaceRank {
                worker_id: worker.worker_id,
                dp_rank: worker.dp_rank,
                events,
            },
            after,
            reaction,
        ),
    ensures
        reaction.reply is Done,
        reaction.rebuild,
        !reaction.degraded_reset,
        succeeded(reaction) ==> {
            let key = (worker.worker_id * 0x1_0000_0000 + worker.dp_rank) as u128;
            &&& forall|i: int| 0 <= i < events@.len() ==> belongs(worker, #[trigger] events@[i])
            &&& forall|k: u128, h: u64| #[trigger]
                owns(after.state.members, k, h) == (if k == key {
                    exists|i: int| 0 <= i < events@.len() && names(#[trigger] events@[i], h)
                } else {
                    owns(before.state.members, k, h)
                })
            &&& after.state.published() == after.state.lane
            &&& reaction.unchanged == (reaction.publication is None)
        },
        !succeeded(reaction) ==> {
            &&& after.state == before.state
            &&& reaction.publication is None
            &&& !reaction.unchanged
        },
{
    if succeeded(reaction) {
        let key = worker.spec_key();
        let hashes = dump_hashes(events@);
        let delta = delta_model(reaction.publication);
        crate::protocol::law_member_keys_order_members(worker, worker);
        assert(WorkerWithDpRank { worker_id: worker.worker_id, dp_rank: worker.dp_rank } == worker);
        lemma_dump_hashes_finite(events@);
        law_replacement_trades_everything(before.state, key, hashes, after.state, delta);
        if events@.len() > 0 {
            law_dump_in_order_exactly_when_events_belong(worker, events@, events@[0]);
        }
        assert forall|k: u128, h: u64| #[trigger]
            owns(after.state.members, k, h) == (if k == key {
                exists|i: int| 0 <= i < events@.len() && names(#[trigger] events@[i], h)
            } else {
                owns(before.state.members, k, h)
            }) by {
            law_dump_stands_for_its_device_blocks(events@, h);
        }
    }
}

/// A command to remove a rank that is answered with success leaves the rank
/// nothing and everyone else what they had, and counts as a degraded reset
/// exactly when it was meant as one. Any other answer leaves everything as it
/// was.
pub proof fn law_remove_rank_command_takes_everything(
    before: ActorModel,
    worker: WorkerWithDpRank,
    degraded: bool,
    after: ActorModel,
    reaction: ActorReaction,
)
    requires
        before.state.inv(),
        before.may_handle(
            ActorCommand::RemoveRank {
                worker_id: worker.worker_id,
                dp_rank: worker.dp_rank,
                degraded,
            },
            after,
            reaction,
        ),
    ensures
        reaction.reply is Done,
        !reaction.rebuild,
        succeeded(reaction) ==> {
            let key = (worker.worker_id * 0x1_0000_0000 + worker.dp_rank) as u128;
            &&& forall|k: u128, h: u64| #[trigger]
                owns(after.state.members, k, h) == (owns(before.state.members, k, h) && k != key)
            &&& after.state.published() == after.state.lane
            &&& reaction.unchanged == (reaction.publication is None)
            &&& reaction.degraded_reset == degraded
        },
        !succeeded(reaction) ==> {
            &&& after.state == before.state
            &&& reaction.publication is None
            &&& !reaction.unchanged
            &&& !reaction.degraded_reset
        },
{
    let key = worker.spec_key();
    assert(WorkerWithDpRank { worker_id: worker.worker_id, dp_rank: worker.dp_rank } == worker);
    match reaction.reply {
        ActorReply::Done(Ok(())) => {
            let delta = delta_model(reaction.publication);
            law_rank_removal_takes_everything(before.state, key, after.state, Ok(delta));
        },
        ActorReply::Done(Err(KvDcRelayError::Event(error))) => {
            law_rank_removal_takes_everything(before.state, key, after.state, Err(error));
        },
        _ => {},
    }
}

/// A command to remove a worker takes nothing from other workers; answered with
/// success it leaves the worker nothing and has told subscribers.
pub proof fn law_remove_worker_command_takes_everything(
    before: ActorModel,
    worker_id: u64,
    after: ActorModel,
    reaction: ActorReaction,
)
    requires
        before.state.inv(),
        before.may_handle(ActorCommand::RemoveWorker { worker_id }, after, reaction),
    ensures
        reaction.reply is Done,
        !reaction.rebuild,
        !reaction.degraded_reset,
        forall|k: u128, h: u64|
            k as int / 0x1_0000_0000 != worker_id ==> #[trigger] owns(after.state.members, k, h)
                == owns(before.state.members, k, h),
        succeeded(reaction) ==> {
            &&& forall|k: u128, h: u64|
                k as int / 0x1_0000_0000 == worker_id ==> !#[trigger] owns(
                    after.state.members,
                    k,
                    h,
                )
            &&& after.state.published() == after.state.lane
            &&& reaction.unchanged == (reaction.publication is None)
        },
        !succeeded(reaction) ==> reaction.publication is None
            && !reaction.unchanged,
{
    match reaction.reply {
        ActorReply::Done(Ok(())) => {
            let delta = delta_model(reaction.publication);
            law_worker_removal_takes_everything(before.state, worker_id, after.state, Ok(delta));
        },
        ActorReply::Done(Err(KvDcRelayError::Event(error))) => {
            law_worker_removal_takes_everything(before.state, worker_id, after.state, Err(error));
        },
        _ => {},
    }
}

/// Flushing, and handing out a base, change no ownership; afterwards nothing is
/// pending and subscribers have seen the lane as it is. A base is that lane.
pub proof fn law_flush_and_base_only_publish(
    before: ActorModel,
    command: ActorCommand,
    after: ActorModel,
    reaction: ActorReaction,
)
    requires
        before.state.inv(),
        before.may_handle(command, after, reaction),
        command is Flush || command is Snapshot || command is Subscribe,
    ensures
        after.state.members == before.state.members,
        after.state.lane == before.state.lane,
        match reaction.reply {
            ActorReply::Done(Ok(())) => {
                &&& command is Flush
                &&& after.state.published() == after.state.lane
                &&& after.state.pending_events == 0
                &&& reaction.unchanged == (reaction.publication is None)
            },
            ActorReply::Snapshot(Ok(base)) => {
                &&& command is Snapshot
                &&& after.state.published() == after.state.lane
                &&& after.state.pending_events == 0
                &&& base.snapshot@.buckets == after.state.lane
                &&& base.snapshot@.sequence == after.state.sequence
            },
            ActorReply::Subscribed(Ok(snapshot)) => {
                &&& command is Subscribe
                &&& after.state.published() == after.state.lane
                &&& after.state.pending_events == 0
                &&& snapshot@.buckets == after.state.lane
                &&& snapshot@.sequence == after.state.sequence
            },
            ActorReply::Snapshot(Err(_)) => command is Snapshot && after.state == before.state,
            ActorReply::Subscribed(Err(_)) => command is Subscribe && after.state == before.state,
            _ => false,
        },
{
    before.state.lemma_drained();
}

/// Asking for counters, and asking to shut down, leave the aggregation alone and
/// publish nothing. The first request to shut down is answered later, and every
/// further one is refused.
pub proof fn law_stats_and_shutdown_change_nothing(
    before: ActorModel,
    command: ActorCommand,
    after: ActorModel,
    reaction: ActorReaction,
)
    requires
        before.may_handle(command, after, reaction),
        command is Stats || command is Shutdown,
    ensures
        after.state == before.state,
        reaction.publication is None,
        !reaction.unchanged,
        after.shutting_down <==> before.shutting_down || command is Shutdown,
        command is Stats ==> reaction.reply is Stats,
        command is Shutdown ==> (reaction.reply is Deferred <==> !before.shutting_down),
        command is Shutdown && before.shutting_down ==> reaction.reply == ActorReply::Done(
            Err(KvDcRelayError::ShuttingDown),
        ),
{
}

/// Whether a command gives up a rank because its recovery failed.
pub open spec fn is_degraded(command: ActorCommand) -> bool {
    command matches ActorCommand::RemoveRank { degraded, .. } && degraded
}

/// A command raises at most one of the counters of publications, and each by at
/// most one: the one of publications exactly when something was published, the
/// other when there was nothing to publish. Only a degraded reset raises the
/// counter of those, and waits and rebuilds are counted elsewhere.
pub proof fn law_command_is_counted_once(
    counters: ActorCounters,
    before: ActorModel,
    command: ActorCommand,
    after: ActorModel,
    reaction: ActorReaction,
)
    requires
        before.may_handle(command, after, reaction),
        counters.publications < u64::MAX,
        counters.unchanged_publications < u64::MAX,
        counters.degraded_resets < u64::MAX,
    ensures
        ({
            let counted = counters.after(reaction);
            &&& counted.publications == counters.publications || counted.unchanged_publications
                == counters.unchanged_publications
            &&& counted.publications == counters.publications + one_if(
                reaction.publication is Some,
            )
            &&& counted.unchanged_publications == counters.unchanged_publications + one_if(
                reaction.unchanged,
            )
            &&& counted.degraded_resets == counters.degraded_resets + one_if(
                succeeded(reaction) && is_degraded(command),
            )
            &&& counted.mailbox_wait_ns == counters.mailbox_wait_ns
            &&& counted.mailbox_max_wait_ns == counters.mailbox_max_wait_ns
            &&& counted.rebuild_count == counters.rebuild_count
            &&& counted.rebuild_ns == counters.rebuild_ns
            &&& counted.rebuild_max_ns == counters.rebuild_max_ns
        }),
{
}

/// Health reports tell the commands apart: two commands have the same name only
/// if they are of the same kind.
pub proof fn law_command_names_differ(first: ActorCommand, second: ActorCommand)
    requires
        first.spec_kind() == second.spec_kind(),
    ensures
        first is Apply <==> second is Apply,
        first is ReplaceRank <==> second is ReplaceRank,
        first is RemoveRank <==> second is RemoveRank,
        first is RemoveWorker <==> second is RemoveWorker,
        first is Flush <==> second is Flush,
        first is Snapshot <==> second is Snapshot,
        first is Stats <==> second is Stats,
        first is Subscribe <==> second is Subscribe,
        first is Shutdown <==> second is Shutdown,
{
    lemma_name(first);
    lemma_name(second);
}

/// The length and the third letter of a command's name.
proof fn lemma_name(command: ActorCommand)
    ensures
        ({
            let name = command.spec_kind();
            match command {
                ActorCommand::Apply { .. } => name.len() == 11 && name[2] == 'p',
                ActorCommand::ReplaceRank { .. } => name.len() == 12,
                ActorCommand::RemoveRank { .. } => name.len() == 11 && name[2] == 'm',
                ActorCommand::RemoveWorker { .. } => name.len() == 13,
                ActorCommand::Flush => name.len() == 5 && name[2] == 'u',
                ActorCommand::Snapshot => name.len() == 8 && name[2] == 'a',
                ActorCommand::Stats => name.len() == 5 && name[2] == 'a',
                ActorCommand::Subscribe => name.len() == 9,
                ActorCommand::Shutdown => name.len() == 8 && name[2] == 'u',
            }
        }),
{
    reveal_strlit("apply_event");
    reveal_strlit("replace_rank");
    reveal_strlit("remove_rank");
    reveal_strlit("remove_worker");
    reveal_strlit("flush");
    reveal_strlit("snapshot");
    reveal_strlit("stats");
    reveal_strlit("subscribe");
    reveal_strlit("shutdown");
}

/// The subscribers that are kept are those that took what was sent to them, each
/// as often as it stood there and in the same order.
pub proof fn law_kept_subscribers_keep_their_order<T>(subscribers: Seq<T>, delivered: Seq<bool>)
    requires
        delivered.len() == subscribers.len(),
    ensures
        delivered_to(subscribers, delivered) == Seq::new(
            subscribers.len(),
            |i: int| (subscribers[i], delivered[i]),
        ).filter(|sent: (T, bool)| sent.1).map_values(|sent: (T, bool)| sent.0),
{
    lemma_kept_in_order(subscribers, delivered);
}

/// The first subscribers that are kept are the first ones that took what was
/// sent to them.
proof fn lemma_kept_in_order<T>(subscribers: Seq<T>, delivered: Seq<bool>)
    requires
        delivered.len() >= subscribers.len(),
    ensures
        delivered_to(subscribers, delivered) == Seq::new(
            subscribers.len(),
            |i: int| (subscribers[i], delivered[i]),
        ).filter(|sent: (T, bool)| sent.1).map_values(|sent: (T, bool)| sent.0),
    decreases subscribers.len(),
{
    reveal(Seq::filter);
    let all = Seq::new(subscribers.len(), |i: int| (subscribers[i], delivered[i]));
    let took = |sent: (T, bool)| sent.1;
    let who = |sent: (T, bool)| sent.0;
    if subscribers.len() > 0 {
        let rest = subscribers.drop_last();
        lemma_kept_in_order(rest, delivered);
        let some = Seq::new(rest.len(), |i: int| (rest[i], delivered[i]));
        assert(all.drop_last() =~= some);
        assert(all.filter(took) == if took(all.last()) {
            some.filter(took).push(all.last())
        } else {
            some.filter(took)
        });
        assert(all.filter(took).map_values(who) =~= if took(all.last()) {
            some.filter(took).map_values(who).push(subscribers.last())
        } else {
            some.filter(took).map_values(who)
        });
    } else {
        assert(all.filter(took).map_values(who) =~= Seq::empty());
    }
}

} // verus!
