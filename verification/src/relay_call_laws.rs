//! What a caller of a relay's reports, counters and lists may rely on.
use crate::actor::retain_delivered;
use crate::protocol::{
    KvCacheEventData, KvCacheStoreData, RouterEvent, StorageTier, WorkerWithDpRank,
};
use crate::publication::{DcCkfSnapshot, DcCkfStats};
use crate::relay::{
    clamped, diagnostic_snapshot, dump_event, mailbox_depth, relay_config, relay_health,
    relay_stats, submission_result, take_store, ActorCounters, DumpFault,
    KvDcRelayDiagnosticSnapshot, KvDcRelayError, KvDcRelayHealth, KvDcRelayStats, MailboxRoom,
    RecoveryHealth,
};
use rustc_hash::FxHashSet;
use vstd::prelude::*;
#[allow(unused_imports)]
use crate::relay_laws::{
    belongs, law_dump_in_order_exactly_when_events_belong, law_kept_subscribers_keep_their_order,
};

verus! {

/// A relay publishes after every event, and its configuration is sound.
pub proof fn law_relay_publishes_after_every_event(config: crate::config::CkfConfig)
    requires
        call_ensures(relay_config, (), config),
    ensures
        config.publish_every_n_events == 1,
        config.expected_blocks_per_dc > 0,
        config.max_kicks > 0,
        config.fault() is None,
{
}

/// A caller is told of a shutdown exactly when the mailbox did not take the
/// command, of a stopped actor exactly when it took it and never answered, and
/// otherwise what was answered.
pub proof fn law_submission_tells_what_became_of_it<T>(
    accepted: bool,
    answer: Option<Result<T, KvDcRelayError>>,
    result: Result<T, KvDcRelayError>,
)
    requires
        call_ensures(submission_result::<T>, (accepted, answer), result),
    ensures
        !accepted ==> (result matches Err(error) && error is ShuttingDown),
        accepted && answer is None ==> (result matches Err(error) && error is ActorStopped),
        accepted && answer is Some ==> result == answer.unwrap(),
{
}

/// What waits in a mailbox and what it has room for make up what it can hold.
pub proof fn law_mailbox_depth_and_room_make_up_the_mailbox(
    max_capacity: usize,
    capacity: usize,
    depth: usize,
)
    requires
        call_ensures(mailbox_depth, (max_capacity, capacity), depth),
    ensures
        capacity <= max_capacity ==> depth + capacity == max_capacity,
        capacity > max_capacity ==> depth == 0,
{
}

/// A count that fits is kept, and a larger one becomes the largest that does.
pub proof fn law_clamping_keeps_what_fits(count: u128, kept: u64)
    requires
        call_ensures(clamped, (count,), kept),
    ensures
        count <= u64::MAX ==> kept == count,
        count > u64::MAX ==> kept == u64::MAX,
{
}

/// A wait is added to the sum and raises the maximum if it is the longest so
/// far; nothing else is counted.
pub proof fn law_waits_add_up(waited_ns: u128)
    ensures
        forall|counters: &mut ActorCounters| #[trigger]
            call_ensures(ActorCounters::record_wait, (counters, waited_ns), ()) && waited_ns
                + counters.mailbox_wait_ns <= u64::MAX ==> {
                let after = *final(counters);
                &&& after.mailbox_wait_ns == counters.mailbox_wait_ns + waited_ns
                &&& after.mailbox_max_wait_ns >= waited_ns
                &&& after.mailbox_max_wait_ns >= counters.mailbox_max_wait_ns
                &&& after.mailbox_max_wait_ns == waited_ns || after.mailbox_max_wait_ns
                    == counters.mailbox_max_wait_ns
                &&& after.degraded_resets == counters.degraded_resets
                &&& after.publications == counters.publications
                &&& after.unchanged_publications == counters.unchanged_publications
                &&& after.rebuild_count == counters.rebuild_count
                &&& after.rebuild_ns == counters.rebuild_ns
                &&& after.rebuild_max_ns == counters.rebuild_max_ns
            },
{
}

/// A rebuild is counted once, its time is added to the sum and raises the
/// maximum if it is the longest so far; nothing else is counted.
pub proof fn law_rebuilds_add_up(elapsed_ns: u128)
    ensures
        forall|counters: &mut ActorCounters| #[trigger]
            call_ensures(ActorCounters::record_rebuild, (counters, elapsed_ns), ()) && elapsed_ns
                + counters.rebuild_ns <= u64::MAX && counters.rebuild_count < u64::MAX ==> {
                let after = *final(counters);
                &&& after.rebuild_count == counters.rebuild_count + 1
                &&& after.rebuild_ns == counters.rebuild_ns + elapsed_ns
                &&& after.rebuild_max_ns >= elapsed_ns
                &&& after.rebuild_max_ns >= counters.rebuild_max_ns
                &&& after.rebuild_max_ns == elapsed_ns || after.rebuild_max_ns
                    == counters.rebuild_max_ns
                &&& after.degraded_resets == counters.degraded_resets
                &&& after.publications == counters.publications
                &&& after.unchanged_publications == counters.unchanged_publications
                &&& after.mailbox_wait_ns == counters.mailbox_wait_ns
                &&& after.mailbox_max_wait_ns == counters.mailbox_max_wait_ns
            },
{
}

/// A relay is healthy exactly when it neither shuts down nor has lost its
/// mailbox, and reports the command at hand, if any, with its age, what waits in
/// the mailbox, and how far recovery has come.
pub proof fn law_health_tells_what_is_at_hand(
    shutting_down: bool,
    mailbox_closed: bool,
    active: Option<(&str, u128)>,
    recovery: RecoveryHealth,
    mailbox: MailboxRoom,
    health: KvDcRelayHealth,
)
    requires
        call_ensures(
            relay_health,
            (shutting_down, mailbox_closed, active, recovery, mailbox),
            health,
        ),
    ensures
        health.healthy <==> !shutting_down && !mailbox_closed,
        health.shutting_down == shutting_down,
        active is None <==> health.active_command is None,
        active is None <==> health.active_command_age_ms is None,
        active matches Some((command, age)) ==> {
            &&& health.active_command.unwrap()@ == command@
            &&& age <= u64::MAX ==> health.active_command_age_ms.unwrap() == age
            &&& age > u64::MAX ==> health.active_command_age_ms.unwrap() == u64::MAX
        },
        mailbox.capacity <= mailbox.max_capacity ==> health.mailbox_depth + mailbox.capacity
            == mailbox.max_capacity,
        health.worker_count == recovery.worker_count,
        health.rank_count == recovery.rank_count,
        health.recovering_rank_count == recovery.recovering_rank_count,
        health.pending_live_event_count == recovery.pending_live_event_count,
        health.discovered_endpoint_count == recovery.discovered_endpoint_count,
{
}

/// A relay's report says of itself who it is, of every member what it owns, and
/// repeats each counter under its own name.
pub proof fn law_report_repeats_each_counter(
    dc_id: &str,
    model_name: &str,
    stats: DcCkfStats,
    members: Vec<(WorkerWithDpRank, usize)>,
    counters: ActorCounters,
    recovery: RecoveryHealth,
    mailbox: MailboxRoom,
    report: KvDcRelayStats,
)
    requires
        call_ensures(
            relay_stats,
            (dc_id, model_name, stats, members, counters, recovery, mailbox),
            report,
        ),
    ensures
        report.identity.dc_id@ == dc_id@,
        report.identity.model_name@ == model_name@,
        report.aggregation.members@.len() == members@.len(),
        forall|i: int|
            0 <= i < members@.len() ==> {
                &&& (#[trigger] report.aggregation.members@[i]).worker_id
                    == members@[i].0.worker_id
                &&& report.aggregation.members@[i].dp_rank == members@[i].0.dp_rank
                &&& report.aggregation.members@[i].blocks == members@[i].1
            },
        report.aggregation.member_count == stats.aggregation.member_count,
        report.aggregation.contribution_count == stats.aggregation.contribution_count,
        report.aggregation.unique_block_count == stats.aggregation.unique_block_count,
        report.aggregation.unknown_removals == stats.aggregation.unknown_removals,
        report.aggregation.capacity_failures == stats.aggregation.capacity_failures,
        report.aggregation.occupied_bucket_count == stats.aggregation.occupied_bucket_count,
        report.aggregation.occupied_slot_count == stats.aggregation.occupied_slot_count,
        report.publication.sequence == stats.publication.sequence,
        report.publication.pending_events == stats.publication.pending_events,
        report.publication.publication_count == counters.publications,
        report.publication.unchanged_publication_count == counters.unchanged_publications,
        report.publication.physical_touches == stats.publication.physical_touches,
        report.publication.distinct_touched_buckets == stats.publication.distinct_touched_buckets,
        report.publication.emitted_images == stats.publication.emitted_images,
        report.publication.net_reverted_buckets == stats.publication.net_reverted_buckets,
        report.publication.reset_count == stats.publication.reset_count,
        report.recovery.degraded_resets == counters.degraded_resets,
        report.recovery.rebuild_count == counters.rebuild_count,
        report.recovery.rebuild_ns == counters.rebuild_ns,
        report.recovery.rebuild_max_ns == counters.rebuild_max_ns,
        report.recovery.worker_count == recovery.worker_count,
        report.recovery.rank_count == recovery.rank_count,
        report.recovery.recovering_rank_count == recovery.recovering_rank_count,
        report.recovery.pending_live_event_count == recovery.pending_live_event_count,
        report.recovery.discovered_endpoint_count == recovery.discovered_endpoint_count,
        report.memory.filter_bytes == stats.memory.filter_bytes,
        report.memory.dirty_tracking_bytes == stats.memory.dirty_tracking_bytes,
        report.memory.member_set_capacity == stats.memory.member_set_capacity,
        report.memory.refcount_capacity == stats.memory.refcount_capacity,
        report.memory.insertion_scratch_capacity == stats.memory.insertion_scratch_capacity,
        report.actor.mailbox_capacity == mailbox.max_capacity,
        mailbox.capacity <= mailbox.max_capacity ==> report.actor.mailbox_depth
            + mailbox.capacity == mailbox.max_capacity,
        report.actor.mailbox_wait_ns == counters.mailbox_wait_ns,
        report.actor.mailbox_max_wait_ns == counters.mailbox_max_wait_ns,
{
}

/// A diagnostic snapshot is the snapshot with everything that is needed to read
/// it, and with the counts at the same moment.
pub proof fn law_diagnostic_snapshot_repeats_the_snapshot(
    dc_id: &str,
    model_name: &str,
    snapshot: DcCkfSnapshot,
    stats: DcCkfStats,
    report: KvDcRelayDiagnosticSnapshot,
)
    requires
        call_ensures(diagnostic_snapshot, (dc_id, model_name, &snapshot, stats), report),
    ensures
        report.dc_id@ == dc_id@,
        report.model_name@ == model_name@,
        report.buckets@ == snapshot@.buckets,
        report.sequence == snapshot@.sequence,
        report.seed == snapshot@.format.seed,
        report.bucket_count == snapshot@.format.bucket_count,
        report.format_version == snapshot@.format.format_version,
        report.fingerprint_bits == snapshot@.format.fingerprint_bits,
        report.slots_per_bucket == snapshot@.format.slots_per_bucket,
        report.member_count == stats.aggregation.member_count,
        report.contribution_count == stats.aggregation.contribution_count,
        report.unique_block_count == stats.aggregation.unique_block_count,
{
}

/// Of an event in a dump, the blocks are taken exactly if it belongs there and
/// is of the device tier; one of another tier is passed over, and one that does
/// not belong is refused.
pub proof fn law_dump_event_takes_device_stores(
    worker: WorkerWithDpRank,
    event: RouterEvent,
    result: Result<Option<&KvCacheStoreData>, DumpFault>,
)
    requires
        call_ensures(dump_event, (worker.worker_id, worker.dp_rank, &event), result),
    ensures
        result is Err <==> !belongs(worker, event),
        result matches Ok(taken) ==> (taken is Some <==> event.storage_tier
            == StorageTier::Device),
        result matches Ok(Some(store)) ==> event.event.data == KvCacheEventData::Stored(*store),
        result == Err::<Option<&KvCacheStoreData>, DumpFault>(DumpFault::IdentityMismatch) <==> (
        event.worker_id != worker.worker_id || event.event.dp_rank != worker.dp_rank),
{
    assert(WorkerWithDpRank { worker_id: worker.worker_id, dp_rank: worker.dp_rank } == worker);
    law_dump_in_order_exactly_when_events_belong(worker, Seq::empty(), event);
}

/// The blocks of a store event are added to a set, by their sequence hashes, if
/// the room for them was granted, and none otherwise.
pub proof fn law_take_store_adds_its_blocks(
    store: KvCacheStoreData,
    granted: bool,
    taken: bool,
    hash: u64,
)
    ensures
        forall|hashes: &mut FxHashSet<u64>| #[trigger]
            call_ensures(take_store, (hashes, &store, granted), taken) ==> {
                &&& taken == granted
                &&& (*final(hashes))@.contains(hash) <==> hashes@.contains(hash) || (granted
                    && exists|i: int|
                    0 <= i < store.blocks@.len() && (#[trigger] store.blocks@[i]).block_hash.0
                        == hash)
            },
{
}

/// The subscribers that are kept are those that took what was sent to them, in
/// their order.
pub proof fn law_retained_subscribers_took_what_was_sent<T>(
    subscribers: Vec<T>,
    delivered: Vec<bool>,
    kept: Vec<T>,
)
    requires
        delivered@.len() == subscribers@.len(),
        call_ensures(retain_delivered::<T>, (subscribers, &delivered), kept),
    ensures
        kept@ == Seq::new(
            subscribers@.len(),
            |i: int| (subscribers@[i], delivered@[i]),
        ).filter(|sent: (T, bool)| sent.1).map_values(|sent: (T, bool)| sent.0),
{
    law_kept_subscribers_keep_their_order(subscribers@, delivered@);
}

} // verus!
