//! What a relay of one model in one data center reports, and what it accepts
//! as a dump of a worker's blocks.
use crate::config::{CkfBuildError, CkfConfig};
use crate::fx::{set_insert, try_blocks};
use crate::protocol::{
    DpRank, KvCacheEventData, KvCacheEventError, KvCacheStoreData, RouterEvent, StorageTier,
    WorkerId, WorkerWithDpRank,
};
use crate::publication::{DcCkfSnapshot, DcCkfStats};
use rustc_hash::FxHashSet;
use vstd::prelude::*;
#[allow(unused_imports)]
use crate::fx::blocks_room_refused;

verus! {

/// Blocks that a relay is sized for.
pub const DEFAULT_EXPECTED_UNIQUE_BLOCKS: usize = 1_048_576;

/// Commands that wait in a relay's mailbox before senders have to.
pub const DEFAULT_MAILBOX_CAPACITY: usize = 1_024;

/// Deltas that wait for a subscriber before it counts as lagging.
pub const DEFAULT_SUBSCRIBER_CAPACITY: usize = 64;

/// Why a relay did not do what it was asked.
#[derive(Debug)]
pub enum KvDcRelayError {
    ShuttingDown,
    ActorStopped,
    InvalidTreeDump { worker_id: WorkerId, dp_rank: DpRank, message: String },
    Build(CkfBuildError),
    Event(KvCacheEventError),
}

impl From<CkfBuildError> for KvDcRelayError {
    fn from(error: CkfBuildError) -> (result: Self) {
        KvDcRelayError::Build(error)
    }
}

impl vstd::std_specs::convert::FromSpecImpl<CkfBuildError> for KvDcRelayError {
    open spec fn obeys_from_spec() -> bool {
        true
    }

    open spec fn from_spec(error: CkfBuildError) -> Self {
        KvDcRelayError::Build(error)
    }
}

impl From<KvCacheEventError> for KvDcRelayError {
    fn from(error: KvCacheEventError) -> (result: Self) {
        KvDcRelayError::Event(error)
    }
}

impl vstd::std_specs::convert::FromSpecImpl<KvCacheEventError> for KvDcRelayError {
    open spec fn obeys_from_spec() -> bool {
        true
    }

    open spec fn from_spec(error: KvCacheEventError) -> Self {
        KvDcRelayError::Event(error)
    }
}

/// The configuration that a relay aggregates under: it publishes after every
/// event.
pub fn relay_config() -> (config: CkfConfig)
    ensures
        config.expected_blocks_per_dc == DEFAULT_EXPECTED_UNIQUE_BLOCKS,
        config.publish_every_n_events == 1,
        config.seed == crate::config::DEFAULT_SEED,
        config.max_kicks == crate::config::DEFAULT_MAX_KICKS,
        config.fault() is None,
{
    let mut config = CkfConfig::new(DEFAULT_EXPECTED_UNIQUE_BLOCKS);
    config.publish_every_n_events = 1;
    config
}

/// What a relay answers a caller: a command that the mailbox did not take was
/// refused for shutdown, and an accepted one that was never answered was lost
/// with the actor.
pub fn submission_result<T>(accepted: bool, answer: Option<Result<T, KvDcRelayError>>) -> (result: Result<
    T,
    KvDcRelayError,
>)
    ensures
        match (accepted, answer) {
            (false, _) => result == Err::<T, KvDcRelayError>(KvDcRelayError::ShuttingDown),
            (true, None) => result == Err::<T, KvDcRelayError>(KvDcRelayError::ActorStopped),
            (true, Some(given)) => result == given,
        },
{
    if !accepted {
        return Err(KvDcRelayError::ShuttingDown);
    }
    match answer {
        Some(given) => given,
        None => Err(KvDcRelayError::ActorStopped),
    }
}

/// Commands that wait in a mailbox.
pub fn mailbox_depth(max_capacity: usize, capacity: usize) -> (depth: usize)
    ensures
        depth == (if max_capacity >= capacity {
            max_capacity - capacity
        } else {
            0
        }),
{
    max_capacity.saturating_sub(capacity)
}

/// A count of nanoseconds or milliseconds as far as it fits.
pub fn clamped(count: u128) -> (clamped: u64)
    ensures
        clamped == (if count > u64::MAX {
            u64::MAX as int
        } else {
            count as int
        }),
{
    if count > u64::MAX as u128 {
        u64::MAX
    } else {
        count as u64
    }
}

/// One member and the number of blocks that it owns.
#[derive(Debug, Clone, Copy, PartialEq, Eq, Structural)]
#[non_exhaustive]
pub struct KvDcRelayMemberStats {
    pub worker_id: WorkerId,
    pub dp_rank: DpRank,
    pub blocks: usize,
}

/// Everything that a relay reports of itself.
#[derive(Debug, Clone)]
#[non_exhaustive]
pub struct KvDcRelayStats {
    pub identity: KvDcRelayIdentityStats,
    pub aggregation: KvDcRelayAggregationStats,
    pub publication: KvDcRelayPublicationStats,
    pub recovery: KvDcRelayRecoveryStats,
    pub memory: KvDcRelayMemoryStats,
    pub actor: KvDcRelayActorStats,
}

#[derive(Debug, Clone)]
#[non_exhaustive]
pub struct KvDcRelayIdentityStats {
    pub dc_id: String,
    pub model_name: String,
}

#[derive(Debug, Clone)]
#[non_exhaustive]
pub struct KvDcRelayAggregationStats {
    pub members: Vec<KvDcRelayMemberStats>,
    pub member_count: usize,
    pub contribution_count: usize,
    pub unique_block_count: usize,
    pub unknown_removals: u64,
    pub capacity_failures: u64,
    pub occupied_bucket_count: usize,
    pub occupied_slot_count: usize,
}

#[derive(Debug, Clone, Copy, PartialEq, Eq, Structural)]
#[non_exhaustive]
pub struct KvDcRelayPublicationStats {
    pub sequence: u64,
    pub pending_events: usize,
    pub publication_count: u64,
    pub unchanged_publication_count: u64,
    pub physical_touches: u64,
    pub distinct_touched_buckets: u64,
    pub emitted_images: u64,
    pub net_reverted_buckets: u64,
    pub reset_count: u64,
}

#[derive(Debug, Clone, Copy, PartialEq, Eq, Structural)]
#[non_exhaustive]
pub struct KvDcRelayRecoveryStats {
    pub degraded_resets: u64,
    pub rebuild_count: u64,
    pub rebuild_ns: u64,
    pub rebuild_max_ns: u64,
    pub worker_count: usize,
    pub rank_count: usize,
    pub recovering_rank_count: usize,
    pub pending_live_event_count: usize,
    pub discovered_endpoint_count: usize,
}

#[derive(Debug, Clone, Copy, PartialEq, Eq, Structural)]
#[non_exhaustive]
pub struct KvDcRelayMemoryStats {
    pub filter_bytes: usize,
    pub dirty_tracking_bytes: usize,
    pub member_set_capacity: usize,
    pub refcount_capacity: usize,
    pub insertion_scratch_capacity: usize,
}

#[derive(Debug, Clone, Copy, PartialEq, Eq, Structural)]
#[non_exhaustive]
pub struct KvDcRelayActorStats {
    pub mailbox_depth: usize,
    pub mailbox_capacity: usize,
    pub mailbox_wait_ns: u64,
    pub mailbox_max_wait_ns: u64,
}

/// Whether a relay works, and on what.
#[derive(Debug, Clone)]
pub struct KvDcRelayHealth {
    pub healthy: bool,
    pub shutting_down: bool,
    pub active_command: Option<String>,
    pub active_command_age_ms: Option<u64>,
    pub mailbox_depth: usize,
    pub worker_count: usize,
    pub rank_count: usize,
    pub recovering_rank_count: usize,
    pub pending_live_event_count: usize,
    pub discovered_endpoint_count: usize,
}

/// A base for subscribers, with what a reader needs to interpret it.
#[derive(Debug, Clone)]
pub struct KvDcRelayDiagnosticSnapshot {
    pub dc_id: String,
    pub model_name: String,
    pub sequence: u64,
    pub member_count: usize,
    pub contribution_count: usize,
    pub unique_block_count: usize,
    pub format_version: u16,
    pub seed: u64,
    pub bucket_count: usize,
    pub fingerprint_bits: u8,
    pub slots_per_bucket: u8,
    pub buckets: Vec<u64>,
}

/// How far recovery of workers has come.
#[derive(Debug, Clone, Copy, PartialEq, Eq, Structural)]
pub struct RecoveryHealth {
    pub worker_count: usize,
    pub rank_count: usize,
    pub recovering_rank_count: usize,
    pub pending_live_event_count: usize,
    pub discovered_endpoint_count: usize,
}

/// How full a mailbox is: the commands that it can hold, and those for which
/// it has room left.
#[derive(Debug, Clone, Copy, PartialEq, Eq, Structural)]
pub struct MailboxRoom {
    pub max_capacity: usize,
    pub capacity: usize,
}

/// What happened in a relay's actor and mailbox. Counts and sums wrap around.
#[derive(Debug, Clone, Copy, PartialEq, Eq, Structural)]
pub struct ActorCounters {
    pub mailbox_wait_ns: u64,
    pub mailbox_max_wait_ns: u64,
    pub degraded_resets: u64,
    pub publications: u64,
    pub unchanged_publications: u64,
    pub rebuild_count: u64,
    pub rebuild_ns: u64,
    pub rebuild_max_ns: u64,
}

/// The larger of two numbers.
pub open spec fn larger(a: u64, b: u64) -> u64 {
    if a >= b {
        a
    } else {
        b
    }
}

impl Default for ActorCounters {
    fn default() -> (counters: Self)
        ensures
            counters == (ActorCounters {
                mailbox_wait_ns: 0,
                mailbox_max_wait_ns: 0,
                degraded_resets: 0,
                publications: 0,
                unchanged_publications: 0,
                rebuild_count: 0,
                rebuild_ns: 0,
                rebuild_max_ns: 0,
            }),
    {
        ActorCounters {
            mailbox_wait_ns: 0,
            mailbox_max_wait_ns: 0,
            degraded_resets: 0,
            publications: 0,
            unchanged_publications: 0,
            rebuild_count: 0,
            rebuild_ns: 0,
            rebuild_max_ns: 0,
        }
    }
}

impl ActorCounters {
    /// Notes how long a command waited for the mailbox to take it.
    pub fn record_wait(&mut self, waited_ns: u128)
        ensures
            ({
                let waited = (if waited_ns > u64::MAX {
                    u64::MAX
                } else {
                    waited_ns as u64
                });
                *final(self) == (ActorCounters {
                    mailbox_wait_ns: old(self).mailbox_wait_ns.wrapping_add(waited),
                    mailbox_max_wait_ns: larger(old(self).mailbox_max_wait_ns, waited),
                    ..*old(self)
                })
            }),
    {
        let waited: u64 = clamped(waited_ns);
        self.mailbox_wait_ns = self.mailbox_wait_ns.wrapping_add(waited);
        if self.mailbox_max_wait_ns < waited {
            self.mailbox_max_wait_ns = waited;
        }
    }

    /// Notes how long an attempt to replace a member took.
    pub fn record_rebuild(&mut self, elapsed_ns: u128)
        ensures
            ({
                let elapsed = (if elapsed_ns > u64::MAX {
                    u64::MAX
                } else {
                    elapsed_ns as u64
                });
                *final(self) == (ActorCounters {
                    rebuild_count: old(self).rebuild_count.wrapping_add(1),
                    rebuild_ns: old(self).rebuild_ns.wrapping_add(elapsed),
                    rebuild_max_ns: larger(old(self).rebuild_max_ns, elapsed),
                    ..*old(self)
                })
            }),
    {
        let elapsed: u64 = clamped(elapsed_ns);
        self.rebuild_count = self.rebuild_count.wrapping_add(1);
        self.rebuild_ns = self.rebuild_ns.wrapping_add(elapsed);
        if self.rebuild_max_ns < elapsed {
            self.rebuild_max_ns = elapsed;
        }
    }
}

/// What is reported of one member.
pub open spec fn member_stats(entry: (WorkerWithDpRank, usize)) -> KvDcRelayMemberStats {
    KvDcRelayMemberStats {
        worker_id: entry.0.worker_id,
        dp_rank: entry.0.dp_rank,
        blocks: entry.1,
    }
}

/// Puts together everything that a relay reports of itself.
pub fn relay_stats(
    dc_id: &str,
    model_name: &str,
    stats: DcCkfStats,
    members: Vec<(WorkerWithDpRank, usize)>,
    counters: ActorCounters,
    recovery: RecoveryHealth,
    mailbox: MailboxRoom,
) -> (report: KvDcRelayStats)
    ensures
        report.identity.dc_id@ == dc_id@,
        report.identity.model_name@ == model_name@,
        report.aggregation.members@ == members@.map_values(
            |entry: (WorkerWithDpRank, usize)| member_stats(entry),
        ),
        report.aggregation.member_count == stats.aggregation.member_count,
        report.aggregation.contribution_count == stats.aggregation.contribution_count,
        report.aggregation.unique_block_count == stats.aggregation.unique_block_count,
        report.aggregation.unknown_removals == stats.aggregation.unknown_removals,
        report.aggregation.capacity_failures == stats.aggregation.capacity_failures,
        report.aggregation.occupied_bucket_count == stats.aggregation.occupied_bucket_count,
        report.aggregation.occupied_slot_count == stats.aggregation.occupied_slot_count,
        report.publication == (KvDcRelayPublicationStats {
            sequence: stats.publication.sequence,
            pending_events: stats.publication.pending_events,
            publication_count: counters.publications,
            unchanged_publication_count: counters.unchanged_publications,
            physical_touches: stats.publication.physical_touches,
            distinct_touched_buckets: stats.publication.distinct_touched_buckets,
            emitted_images: stats.publication.emitted_images,
            net_reverted_buckets: stats.publication.net_reverted_buckets,
            reset_count: stats.publication.reset_count,
        }),
        report.recovery == (KvDcRelayRecoveryStats {
            degraded_resets: counters.degraded_resets,
            rebuild_count: counters.rebuild_count,
            rebuild_ns: counters.rebuild_ns,
            rebuild_max_ns: counters.rebuild_max_ns,
            worker_count: recovery.worker_count,
            rank_count: recovery.rank_count,
            recovering_rank_count: recovery.recovering_rank_count,
            pending_live_event_count: recovery.pending_live_event_count,
            discovered_endpoint_count: recovery.discovered_endpoint_count,
        }),
        report.memory == (KvDcRelayMemoryStats {
            filter_bytes: stats.memory.filter_bytes,
            dirty_tracking_bytes: stats.memory.dirty_tracking_bytes,
            member_set_capacity: stats.memory.member_set_capacity,
            refcount_capacity: stats.memory.refcount_capacity,
            insertion_scratch_capacity: stats.memory.insertion_scratch_capacity,
        }),
        report.actor == (KvDcRelayActorStats {
            mailbox_depth: mailbox.max_capacity.saturating_sub(mailbox.capacity),
            mailbox_capacity: mailbox.max_capacity,
            mailbox_wait_ns: counters.mailbox_wait_ns,
            mailbox_max_wait_ns: counters.mailbox_max_wait_ns,
        }),
{
    let mut reported: Vec<KvDcRelayMemberStats> = Vec::new();
    let mut index: usize = 0;
    while index < members.len()
        invariant
            index <= members@.len(),
            reported@ == members@.take(index as int).map_values(
                |entry: (WorkerWithDpRank, usize)| member_stats(entry),
            ),
        decreases members@.len() - index,
    {
        let (worker, blocks) = members[index];
        reported.push(
            KvDcRelayMemberStats { worker_id: worker.worker_id, dp_rank: worker.dp_rank, blocks },
        );
        index = index + 1;
        assert(reported@ =~= members@.take(index as int).map_values(
            |entry: (WorkerWithDpRank, usize)| member_stats(entry),
        ));
    }
    assert(members@.take(index as int) =~= members@);
    KvDcRelayStats {
        identity: KvDcRelayIdentityStats {
            dc_id: dc_id.to_string(),
            model_name: model_name.to_string(),
        },
        aggregation: KvDcRelayAggregationStats {
            members: reported,
            member_count: stats.aggregation().member_count(),
            contribution_count: stats.aggregation().contribution_count(),
            unique_block_count: stats.aggregation().unique_block_count(),
            unknown_removals: stats.aggregation().unknown_removals(),
            capacity_failures: stats.aggregation().capacity_failures(),
            occupied_bucket_count: stats.aggregation().occupied_bucket_count(),
            occupied_slot_count: stats.aggregation().occupied_slot_count(),
        },
        publication: KvDcRelayPublicationStats {
            sequence: stats.publication().sequence(),
            pending_events: stats.publication().pending_events(),
            publication_count: counters.publications,
            unchanged_publication_count: counters.unchanged_publications,
            physical_touches: stats.publication().physical_touches(),
            distinct_touched_buckets: stats.publication().distinct_touched_buckets(),
            emitted_images: stats.publication().emitted_images(),
            net_reverted_buckets: stats.publication().net_reverted_buckets(),
            reset_count: stats.publication().reset_count(),
        },
        recovery: KvDcRelayRecoveryStats {
            degraded_resets: counters.degraded_resets,
            rebuild_count: counters.rebuild_count,
            rebuild_ns: counters.rebuild_ns,
            rebuild_max_ns: counters.rebuild_max_ns,
            worker_count: recovery.worker_count,
            rank_count: recovery.rank_count,
            recovering_rank_count: recovery.recovering_rank_count,
            pending_live_event_count: recovery.pending_live_event_count,
            discovered_endpoint_count: recovery.discovered_endpoint_count,
        },
        memory: KvDcRelayMemoryStats {
            filter_bytes: stats.memory().filter_bytes(),
            dirty_tracking_bytes: stats.memory().dirty_tracking_bytes(),
            member_set_capacity: stats.memory().member_set_capacity(),
            refcount_capacity: stats.memory().refcount_capacity(),
            insertion_scratch_capacity: stats.memory().insertion_scratch_capacity(),
        },
        actor: KvDcRelayActorStats {
            mailbox_depth: mailbox_depth(mailbox.max_capacity, mailbox.capacity),
            mailbox_capacity: mailbox.max_capacity,
            mailbox_wait_ns: counters.mailbox_wait_ns,
            mailbox_max_wait_ns: counters.mailbox_max_wait_ns,
        },
    }
}

/// Puts together what a reader needs to interpret a base for subscribers.
pub fn diagnostic_snapshot(
    dc_id: &str,
    model_name: &str,
    snapshot: &DcCkfSnapshot,
    stats: DcCkfStats,
) -> (report: KvDcRelayDiagnosticSnapshot)
    ensures
        report.dc_id@ == dc_id@,
        report.model_name@ == model_name@,
        report.sequence == snapshot@.sequence,
        report.member_count == stats.aggregation.member_count,
        report.contribution_count == stats.aggregation.contribution_count,
        report.unique_block_count == stats.aggregation.unique_block_count,
        report.format_version == snapshot@.format.format_version,
        report.seed == snapshot@.format.seed,
        report.bucket_count == snapshot@.format.bucket_count,
        report.fingerprint_bits == snapshot@.format.fingerprint_bits,
        report.slots_per_bucket == snapshot@.format.slots_per_bucket,
        report.buckets@ == snapshot@.buckets,
{
    let format = snapshot.format();
    KvDcRelayDiagnosticSnapshot {
        dc_id: dc_id.to_string(),
        model_name: model_name.to_string(),
        sequence: snapshot.sequence(),
        member_count: stats.aggregation().member_count(),
        contribution_count: stats.aggregation().contribution_count(),
        unique_block_count: stats.aggregation().unique_block_count(),
        format_version: format.format_version(),
        seed: format.seed(),
        bucket_count: format.bucket_count(),
        fingerprint_bits: format.fingerprint_bits(),
        slots_per_bucket: format.slots_per_bucket(),
        buckets: vstd::slice::slice_to_vec(snapshot.buckets()),
    }
}

/// Puts together whether a relay works, and on what: it is healthy unless it
/// shuts down or its mailbox is closed. A command at hand comes with the
/// milliseconds that it has taken.
pub fn relay_health(
    shutting_down: bool,
    mailbox_closed: bool,
    active: Option<(&str, u128)>,
    recovery: RecoveryHealth,
    mailbox: MailboxRoom,
) -> (health: KvDcRelayHealth)
    ensures
        health.healthy == (!shutting_down && !mailbox_closed),
        health.shutting_down == shutting_down,
        health.active_command is Some <==> active is Some,
        health.active_command_age_ms is Some <==> active is Some,
        active matches Some((command, age)) ==> {
            &&& health.active_command.unwrap()@ == command@
            &&& health.active_command_age_ms.unwrap() == (if age > u64::MAX {
                u64::MAX as int
            } else {
                age as int
            })
        },
        health.mailbox_depth == mailbox.max_capacity.saturating_sub(mailbox.capacity),
        health.worker_count == recovery.worker_count,
        health.rank_count == recovery.rank_count,
        health.recovering_rank_count == recovery.recovering_rank_count,
        health.pending_live_event_count == recovery.pending_live_event_count,
        health.discovered_endpoint_count == recovery.discovered_endpoint_count,
{
    let (active_command, active_command_age_ms) = match active {
        Some((command, age)) => (Some(command.to_string()), Some(clamped(age))),
        None => (None, None),
    };
    KvDcRelayHealth {
        healthy: !shutting_down && !mailbox_closed,
        shutting_down,
        active_command,
        active_command_age_ms,
        mailbox_depth: mailbox_depth(mailbox.max_capacity, mailbox.capacity),
        worker_count: recovery.worker_count,
        rank_count: recovery.rank_count,
        recovering_rank_count: recovery.recovering_rank_count,
        pending_live_event_count: recovery.pending_live_event_count,
        discovered_endpoint_count: recovery.discovered_endpoint_count,
    }
}

/// What is wrong with an event in a dump of a member's blocks.
#[derive(Debug, Clone, Copy, PartialEq, Eq, Structural)]
pub enum DumpFault {
    /// It speaks of another member.
    IdentityMismatch,
    /// It is not a store event.
    NotStored,
}

impl DumpFault {
    /// The fault in words.
    pub open spec fn spec_message(self) -> Seq<char> {
        match self {
            DumpFault::IdentityMismatch => "event identity does not match replacement rank"@,
            DumpFault::NotStored => "tree dump contains a non-Stored event"@,
        }
    }

    /// Says the fault in words.
    pub fn message(self) -> (message: String)
        ensures
            message@ == self.spec_message(),
    {
        match self {
            DumpFault::IdentityMismatch => "event identity does not match replacement rank".to_string(),
            DumpFault::NotStored => "tree dump contains a non-Stored event".to_string(),
        }
    }
}

/// What is wrong with an event in a dump of a member's blocks, if anything.
/// Events of other tiers than the device only have to speak of the member.
pub open spec fn dump_fault(worker: WorkerWithDpRank, event: RouterEvent) -> Option<DumpFault> {
    if event.member() != worker {
        Some(DumpFault::IdentityMismatch)
    } else if event.storage_tier == StorageTier::Device && !(event.event.data is Stored) {
        Some(DumpFault::NotStored)
    } else {
        None
    }
}

/// Whether nothing is wrong with the first `count` events of a dump.
pub open spec fn faultless(worker: WorkerWithDpRank, events: Seq<RouterEvent>, count: int) -> bool {
    forall|i: int| 0 <= i < count ==> dump_fault(worker, #[trigger] events[i]) is None
}

/// The blocks that an event of a dump names.
pub open spec fn event_hashes(event: RouterEvent) -> Set<u64> {
    match event.event.data {
        KvCacheEventData::Stored(store) if event.storage_tier == StorageTier::Device =>
            store.hashes().to_set(),
        _ => Set::empty(),
    }
}

/// The blocks that a dump names.
pub open spec fn dump_hashes(events: Seq<RouterEvent>) -> Set<u64>
    decreases events.len(),
{
    if events.len() == 0 {
        Set::empty()
    } else {
        dump_hashes(events.drop_last()).union(event_hashes(events.last()))
    }
}

/// A dump names finitely many blocks.
pub proof fn lemma_dump_hashes_finite(events: Seq<RouterEvent>)
    ensures
        dump_hashes(events).finite(),
    decreases events.len(),
{
    if events.len() > 0 {
        lemma_dump_hashes_finite(events.drop_last());
        match events.last().event.data {
            KvCacheEventData::Stored(store) => {
                vstd::seq_lib::seq_to_set_is_finite(store.hashes());
            },
            _ => {},
        }
    }
}

/// Whether a dump may be refused with an error: for its first event with a
/// fault, or because the allocator refuses the room for the blocks of an event
/// before that.
pub open spec fn may_refuse_dump(
    worker: WorkerWithDpRank,
    events: Seq<RouterEvent>,
    error: KvDcRelayError,
) -> bool {
    match error {
        KvDcRelayError::InvalidTreeDump { worker_id, dp_rank, message } => {
            &&& worker_id == worker.worker_id
            &&& dp_rank == worker.dp_rank
            &&& exists|i: int|
                #![trigger events[i]]
                {
                    &&& 0 <= i < events.len()
                    &&& faultless(worker, events, i)
                    &&& dump_fault(worker, events[i]) is Some
                    &&& message@ == dump_fault(worker, events[i]).unwrap().spec_message()
                }
        },
        KvDcRelayError::Build(error) => {
            &&& error == CkfBuildError::AllocationFailed
            &&& exists|i: int|
                #![trigger events[i]]
                {
                    &&& 0 <= i < events.len()
                    &&& faultless(worker, events, i + 1)
                    &&& events[i].storage_tier == StorageTier::Device
                    &&& events[i].event.data matches KvCacheEventData::Stored(store)
                        && store.blocks@.len() > 0 && blocks_room_refused(store.blocks@.len() as usize)
                }
        },
        _ => false,
    }
}

/// The store event to take from an event of a dump, if there is one.
pub fn dump_event(worker_id: WorkerId, dp_rank: DpRank, event: &RouterEvent) -> (result: Result<
    Option<&KvCacheStoreData>,
    DumpFault,
>)
    ensures
        match result {
            Ok(Some(store)) => {
                &&& dump_fault(WorkerWithDpRank { worker_id, dp_rank }, *event) is None
                &&& event.storage_tier == StorageTier::Device
                &&& event.event.data == KvCacheEventData::Stored(*store)
            },
            Ok(None) => {
                &&& dump_fault(WorkerWithDpRank { worker_id, dp_rank }, *event) is None
                &&& event.storage_tier != StorageTier::Device
            },
            Err(fault) => dump_fault(WorkerWithDpRank { worker_id, dp_rank }, *event) == Some(
                fault,
            ),
        },
{
    if event.worker_id != worker_id || event.event.dp_rank != dp_rank {
        return Err(DumpFault::IdentityMismatch);
    }
    if event.storage_tier != StorageTier::Device {
        return Ok(None);
    }
    match &event.event.data {
        KvCacheEventData::Stored(store) => Ok(Some(store)),
        _ => Err(DumpFault::NotStored),
    }
}

/// Adds the blocks of a store event to a set if the room for them was granted,
/// and says whether it was.
pub fn take_store(hashes: &mut FxHashSet<u64>, store: &KvCacheStoreData, granted: bool) -> (taken:
    bool)
    ensures
        taken == granted,
        final(hashes)@ == (if granted {
            old(hashes)@.union(store.hashes().to_set())
        } else {
            old(hashes)@
        }),
        forall|hash: u64| #[trigger]
            final(hashes)@.contains(hash) <==> old(hashes)@.contains(hash) || (granted
                && exists|i: int|
                0 <= i < store.blocks@.len() && (#[trigger] store.blocks@[i]).block_hash.0 == hash),
{
    if !granted {
        return false;
    }
    let ghost before = hashes@;
    let ghost named = store.hashes();
    let mut index: usize = 0;
    assert(named.take(0).to_set() =~= Set::empty());
    while index < store.blocks.len()
        invariant
            index <= store.blocks@.len(),
            named == store.hashes(),
            hashes@ =~= before.union(named.take(index as int).to_set()),
        decreases store.blocks@.len() - index,
    {
        let hash: u64 = store.blocks[index].block_hash.0;
        set_insert(hashes, hash);
        proof {
            assert(named.take(index + 1) =~= named.take(index as int).push(hash));
            assert forall|h: u64| named.take(index + 1).to_set().contains(h) == (named.take(
                index as int,
            ).to_set().contains(h) || h == hash) by {
                vstd::seq_lib::lemma_seq_contains_after_push(named.take(index as int), hash, h);
            }
        }
        index = index + 1;
    }
    assert(named.take(index as int) =~= named);
    proof {
        assert forall|hash: u64| #[trigger] hashes@.contains(hash) <==> before.contains(hash)
            || exists|i: int|
            0 <= i < store.blocks@.len() && (#[trigger] store.blocks@[i]).block_hash.0 == hash by {
            if named.contains(hash) {
                let i = choose|i: int| 0 <= i < named.len() && named[i] == hash;
                assert(store.blocks@[i].block_hash.0 == hash);
            }
            if exists|i: int|
                0 <= i < store.blocks@.len() && (#[trigger] store.blocks@[i]).block_hash.0
                    == hash {
                let i = choose|i: int|
                    0 <= i < store.blocks@.len() && (#[trigger] store.blocks@[i]).block_hash.0
                        == hash;
                assert(named[i] == hash);
            }
        }
    }
    true
}

/// The blocks that a dump of a member names. The first event with a fault is
/// reported, unless the allocator refuses the room for an event before it.
pub fn replacement_hashes(
    worker_id: WorkerId,
    dp_rank: DpRank,
    events: &Vec<RouterEvent>,
) -> (result: Result<FxHashSet<u64>, KvDcRelayError>)
    ensures
        ({
            let worker = WorkerWithDpRank { worker_id, dp_rank };
            match result {
                Ok(hashes) => faultless(worker, events@, events@.len() as int) && hashes@
                    == dump_hashes(events@),
                Err(error) => may_refuse_dump(worker, events@, error),
            }
        }),
{
    let ghost worker = WorkerWithDpRank { worker_id, dp_rank };
    let mut hashes: FxHashSet<u64> = FxHashSet::default();
    let mut index: usize = 0;
    assert(events@.take(0) =~= Seq::empty());
    while index < events.len()
        invariant
            index <= events@.len(),
            worker == (WorkerWithDpRank { worker_id, dp_rank }),
            faultless(worker, events@, index as int),
            hashes@ == dump_hashes(events@.take(index as int)),
        decreases events@.len() - index,
    {
        let event = &events[index];
        proof {
            let next = events@.take(index + 1);
            assert(next.drop_last() =~= events@.take(index as int));
            assert(next.last() == events@[index as int]);
        }
        match dump_event(worker_id, dp_rank, event) {
            Ok(Some(store)) => {
                let granted: bool = store.blocks.len() == 0 || try_blocks(
                    &mut hashes,
                    store.blocks.len(),
                );
                if !take_store(&mut hashes, store, granted) {
                    assert(faultless(worker, events@, index + 1));
                    return Err(KvDcRelayError::Build(CkfBuildError::AllocationFailed));
                }
            },
            Ok(None) => {
                assert(dump_hashes(events@.take(index as int)).union(Set::empty()) =~= dump_hashes(
                    events@.take(index as int),
                ));
            },
            Err(fault) => {
                return Err(
                    KvDcRelayError::InvalidTreeDump {
                        worker_id,
                        dp_rank,
                        message: fault.message(),
                    },
                );
            },
        }
        index = index + 1;
    }
    assert(events@.take(index as int) =~= events@);
    Ok(hashes)
}

} // verus!
