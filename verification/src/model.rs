//! The aggregation state as a mathematical value, and its transitions.
//!
//! Two things are not decided by the state: whether the allocator grants room,
//! and in which order a hash table hands out its contents. Transitions take
//! them as arguments, and are exact for every value of them.
use crate::config::CkfConfig;
use crate::protocol::{KvCacheEventData, KvCacheEventError, RouterEvent, WorkerWithDpRank};
use crate::publication::{
    DcCkfAggregationStats, DcCkfBucketImage, DcCkfFormatIdentity, DcCkfPublicationStats,
    DcCkfStats, DeltaModel, OutcomeModel, SnapshotModel, FORMAT_VERSION,
};
use vstd::prelude::*;
#[allow(unused_imports)]
use crate::addressing::CkfAddressing;
#[allow(unused_imports)]
use crate::bucket::{FINGERPRINT_BITS, SLOTS_PER_BUCKET};
#[allow(unused_imports)]
use crate::config::lane_size;
#[allow(unused_imports)]
use crate::mutator::{initial_rng, insertion, removal, Write};
#[allow(unused_imports)]
use crate::occupancy::{is_empty_lane, lane_holds, represents};
#[allow(unused_imports)]
use crate::census::{buckets_in_use, slots_in_use};
#[allow(unused_imports)]
use crate::ownership::{
    contributions, is_ignored, members_of, members_wf, owners, owns, with_block, without_block, Members,
};
#[allow(unused_imports)]
use crate::fx::{blocks_room_refused, counts_room_refused, members_room_refused};
#[allow(unused_imports)]
use crate::memory::{listing_refused, room_refused};
#[allow(unused_imports)]
use crate::window::{
    distinct, in_lane, marked_all, published, tracking_bytes, window_room_refused, word_count,
};

verus! {

/// Counters that only ever grow.
#[derive(Debug, Clone, Copy, PartialEq, Eq, Structural)]
pub struct DcCkfTelemetry {
    pub unknown_removals: u64,
    pub capacity_failures: u64,
    pub physical_touches: u64,
    pub distinct_touched_buckets: u64,
    pub emitted_images: u64,
    pub net_reverted_buckets: u64,
    pub reset_count: u64,
}

impl DcCkfTelemetry {
    /// Short of saturation, every touched bucket of a closed window was
    /// emitted or had reverted, except where a reset named no buckets.
    pub open spec fn is_balanced(self) -> bool {
        self.distinct_touched_buckets < u64::MAX ==> {
            &&& self.emitted_images + self.net_reverted_buckets <= self.distinct_touched_buckets
            &&& self.reset_count == 0 ==> self.emitted_images + self.net_reverted_buckets
                == self.distinct_touched_buckets
        }
    }

    /// All counters at zero.
    pub open spec fn zero() -> Self {
        DcCkfTelemetry {
            unknown_removals: 0,
            capacity_failures: 0,
            physical_touches: 0,
            distinct_touched_buckets: 0,
            emitted_images: 0,
            net_reverted_buckets: 0,
            reset_count: 0,
        }
    }
}

impl Default for DcCkfTelemetry {
    fn default() -> (telemetry: Self)
        ensures
            telemetry == Self::zero(),
    {
        DcCkfTelemetry {
            unknown_removals: 0,
            capacity_failures: 0,
            physical_touches: 0,
            distinct_touched_buckets: 0,
            emitted_images: 0,
            net_reverted_buckets: 0,
            reset_count: 0,
        }
    }
}

/// Every owned block is counted once per owner, and no other block is counted.
pub open spec fn refcounts_match(members: Members, refcounts: Map<u64, u32>) -> bool {
    &&& refcounts.dom().finite()
    &&& forall|hash: u64| #[trigger]
        refcounts.contains_key(hash) == (owners(members, hash).len() > 0)
    &&& forall|hash: u64| #[trigger]
        refcounts.contains_key(hash) ==> refcounts[hash] == owners(members, hash).len()
}

/// The images of the touched buckets whose words differ from the published
/// ones, in order of first touch.
pub open spec fn changed_images(lane: Seq<u64>, touched: Seq<Write>) -> Seq<DcCkfBucketImage>
    decreases touched.len(),
{
    if touched.len() == 0 {
        Seq::empty()
    } else {
        let rest = changed_images(lane, touched.drop_last());
        let (bucket, original) = touched.last();
        if lane[bucket as int] != original {
            rest.push(DcCkfBucketImage { bucket, value: lane[bucket as int] })
        } else {
            rest
        }
    }
}

/// The first error of two.
pub open spec fn first_of(
    before: Option<KvCacheEventError>,
    next: Option<KvCacheEventError>,
) -> Option<KvCacheEventError> {
    if before is Some {
        before
    } else {
        next
    }
}

/// A number, or the largest `usize` if it is larger.
pub open spec fn saturated(number: int) -> usize {
    if number > usize::MAX {
        usize::MAX
    } else {
        number as usize
    }
}

/// The sum of some numbers.
pub open spec fn total(numbers: Seq<usize>) -> int
    decreases numbers.len(),
{
    if numbers.len() == 0 {
        0
    } else {
        total(numbers.drop_last()) + numbers.last()
    }
}

/// Every element of a set once, in some order.
pub open spec fn enumerates<A>(order: Seq<A>, set: Set<A>) -> bool {
    order.no_duplicates() && order.to_set() == set
}

/// Whether the room that one more block asks for was refused: in a member's
/// set, in the table of members or in the table of counts.
pub open spec fn store_room_refused() -> bool {
    ||| blocks_room_refused(1)
    ||| members_room_refused(1)
    ||| counts_room_refused(1)
}

/// Whether a store goes without room only where the allocator refused it.
pub open spec fn grants_answered(grants: Seq<bool>) -> bool {
    forall|i: int| 0 <= i < grants.len() && !#[trigger] grants[i] ==> store_room_refused()
}

/// Whether the room for a part of a new aggregation was refused: for the
/// expected counts and removals, the lane, the writes of an insertion or the
/// window.
pub open spec fn build_room_refused(config: CkfConfig) -> bool {
    let bucket_count = lane_size(config.expected_blocks_per_dc) as usize;
    ||| counts_room_refused(config.expected_blocks_per_dc)
    ||| room_refused::<u64>(config.expected_blocks_per_dc)
    ||| room_refused::<u64>(bucket_count)
    ||| room_refused::<Write>(config.max_kicks.saturating_add(1))
    ||| window_room_refused(bucket_count)
}

/// What the machine decides while an event is applied.
pub struct Choices {
    /// For each block of a store event, whether the allocator grants room.
    pub grants: Seq<bool>,
    /// The order in which a cleared worker's members come out of their table.
    pub order: Seq<u128>,
    /// For each of those members, the order in which its blocks come out of
    /// their table, or nothing if the allocator grants no room for them.
    pub sweeps: Seq<Option<Seq<u64>>>,
}

/// The aggregation state of one data center.
#[verifier::ext_equal]
pub struct DcCkfModel {
    pub config: CkfConfig,
    pub addressing: CkfAddressing,
    pub members: Members,
    pub refcounts: Map<u64, u32>,
    pub lane: Seq<u64>,
    pub rng: u64,
    pub touched: Seq<Write>,
    pub sequence: u64,
    pub pending_events: usize,
    pub published_nonempty: bool,
    pub telemetry: DcCkfTelemetry,
}

impl DcCkfModel {
    /// What every reachable state satisfies.
    pub open spec fn inv(self) -> bool {
        &&& self.config.fault() is None
        &&& self.addressing.wf()
        &&& self.addressing.seed() == self.config.seed
        &&& self.lane.len() == lane_size(self.config.expected_blocks_per_dc)
        &&& members_wf(self.members)
        &&& refcounts_match(self.members, self.refcounts)
        &&& lane_holds(self.addressing, self.lane, self.refcounts.dom())
        &&& slots_in_use(self.lane) == self.refcounts.dom().len()
        &&& distinct(self.touched)
        &&& in_lane(self.touched, self.lane.len() as int)
        &&& self.published_nonempty == !is_empty_lane(self.published())
        &&& self.telemetry.is_balanced()
    }

    /// The state of a new aggregation.
    pub open spec fn initial(config: CkfConfig, addressing: CkfAddressing) -> Self {
        DcCkfModel {
            config,
            addressing,
            members: Map::empty(),
            refcounts: Map::empty(),
            lane: Seq::new(
                lane_size(config.expected_blocks_per_dc) as nat,
                |i: int| 0u64,
            ),
            rng: initial_rng(config.seed, 0),
            touched: Seq::empty(),
            sequence: 0,
            pending_events: 0,
            published_nonempty: false,
            telemetry: DcCkfTelemetry::zero(),
        }
    }

    /// How published buckets are to be read.
    pub open spec fn format(self) -> DcCkfFormatIdentity {
        DcCkfFormatIdentity {
            format_version: FORMAT_VERSION,
            seed: self.config.seed,
            bucket_count: self.lane.len() as usize,
            fingerprint_bits: FINGERPRINT_BITS,
            slots_per_bucket: SLOTS_PER_BUCKET,
        }
    }

    /// The lane that subscribers last saw.
    pub open spec fn published(self) -> Seq<u64> {
        published(self.lane, self.touched)
    }

    /// Owners of a block.
    pub open spec fn refcount(self, hash: u64) -> u32 {
        if self.refcounts.contains_key(hash) {
            self.refcounts[hash]
        } else {
            0
        }
    }

    /// The state after some writes to the lane.
    pub open spec fn written(self, lane: Seq<u64>, writes: Seq<Write>) -> Self {
        DcCkfModel {
            lane,
            touched: marked_all(self.touched, writes),
            telemetry: DcCkfTelemetry {
                physical_touches: self.telemetry.physical_touches.saturating_add(
                    writes.len() as u64,
                ),
                ..self.telemetry
            },
            ..self
        }
    }

    /// A member takes a block. `granted` says whether the allocator grants the
    /// room that it asks for.
    pub open spec fn stored(self, key: u128, hash: u64, granted: bool) -> (
        Self,
        Result<bool, KvCacheEventError>,
    ) {
        if owns(self.members, key, hash) {
            (self, Ok(false))
        } else if !granted {
            (self, Err(KvCacheEventError::CapacityExhausted))
        } else if self.refcount(hash) == u32::MAX {
            (self, Err(KvCacheEventError::IndexerInvariantViolation))
        } else if self.refcount(hash) == 0 {
            let end = insertion(
                self.addressing,
                self.lane,
                hash,
                self.rng,
                self.config.max_kicks as nat,
            );
            if end.placed {
                (
                    DcCkfModel {
                        members: with_block(self.members, key, hash),
                        refcounts: self.refcounts.insert(hash, 1),
                        rng: end.rng,
                        ..self.written(end.lane, end.writes)
                    },
                    Ok(true),
                )
            } else {
                (
                    DcCkfModel { rng: end.rng, ..self },
                    Err(KvCacheEventError::CapacityExhausted),
                )
            }
        } else {
            (
                DcCkfModel {
                    members: with_block(self.members, key, hash),
                    refcounts: self.refcounts.insert(hash, (self.refcount(hash) + 1) as u32),
                    ..self
                },
                Ok(true),
            )
        }
    }

    /// A member gives up a block, if it owns it.
    pub open spec fn removed(self, key: u128, hash: u64) -> (Self, bool) {
        if !owns(self.members, key, hash) {
            (self, false)
        } else if self.refcount(hash) == 1 {
            let (write, lane) = removal(self.addressing, self.lane, hash).unwrap();
            (
                DcCkfModel {
                    members: without_block(self.members, key, hash),
                    refcounts: self.refcounts.remove(hash),
                    ..self.written(lane, seq![write])
                },
                true,
            )
        } else {
            (
                DcCkfModel {
                    members: without_block(self.members, key, hash),
                    refcounts: self.refcounts.insert(hash, (self.refcount(hash) - 1) as u32),
                    ..self
                },
                true,
            )
        }
    }

    /// The state with one more failure for want of capacity, if there was one.
    pub open spec fn noting_failure(self, result: Result<bool, KvCacheEventError>) -> Self {
        if result == Err::<bool, KvCacheEventError>(KvCacheEventError::CapacityExhausted) {
            DcCkfModel {
                telemetry: DcCkfTelemetry {
                    capacity_failures: self.telemetry.capacity_failures.saturating_add(1),
                    ..self.telemetry
                },
                ..self
            }
        } else {
            self
        }
    }

    /// A member takes blocks one after the other; the first error is kept.
    pub open spec fn stored_all(self, key: u128, hashes: Seq<u64>, grants: Seq<bool>) -> (
        Self,
        Option<KvCacheEventError>,
    )
        decreases hashes.len(),
    {
        if hashes.len() == 0 {
            (self, None)
        } else {
            let (before, error) = self.stored_all(key, hashes.drop_last(), grants);
            let (after, result) = before.stored(
                key,
                hashes.last(),
                grants[hashes.len() - 1],
            );
            (
                after.noting_failure(result),
                first_of(
                    error,
                    match result {
                        Ok(_) => None,
                        Err(next) => Some(next),
                    },
                ),
            )
        }
    }

    /// A member gives up blocks one after the other; those that it did not own
    /// are counted.
    pub open spec fn removed_all(self, key: u128, hashes: Seq<u64>) -> (Self, int)
        decreases hashes.len(),
    {
        if hashes.len() == 0 {
            (self, 0)
        } else {
            let (before, unknown) = self.removed_all(key, hashes.drop_last());
            let (after, found) = before.removed(key, hashes.last());
            (
                after,
                if found {
                    unknown
                } else {
                    unknown + 1
                },
            )
        }
    }

    /// A member gives up everything, in the order of a sweep; without a sweep
    /// nothing happens.
    pub open spec fn swept(self, key: u128, sweep: Option<Seq<u64>>) -> (
        Self,
        Option<KvCacheEventError>,
    ) {
        if !self.members.contains_key(key) {
            (self, None)
        } else {
            match sweep {
                Some(order) => (self.removed_all(key, order).0, None),
                None => (self, Some(KvCacheEventError::CapacityExhausted)),
            }
        }
    }

    /// Whether a sweep can come out of the table for a member.
    pub open spec fn sweep_fits(self, key: u128, sweep: Option<Seq<u64>>) -> bool {
        self.members.contains_key(key) && sweep is Some ==> enumerates(
            sweep.unwrap(),
            self.members[key],
        )
    }

    /// Whether a sweep is missing only where the allocator refused the room to
    /// list the member's blocks.
    pub open spec fn sweep_answered(self, key: u128, sweep: Option<Seq<u64>>) -> bool {
        self.members.contains_key(key) && sweep is None ==> listing_refused(
            self.members[key].len() as usize,
        )
    }

    /// Whether sweeps are missing only where the allocator refused the room to
    /// list the members' blocks.
    pub open spec fn sweeps_answered(
        self,
        order: Seq<u128>,
        sweeps: Seq<Option<Seq<u64>>>,
    ) -> bool {
        forall|i: int|
            0 <= i < sweeps.len() && (#[trigger] sweeps[i]) is None ==> listing_refused(
                self.members[order[i]].len() as usize,
            )
    }

    /// Members give up everything one after the other; the first error is
    /// kept.
    pub open spec fn swept_all(self, order: Seq<u128>, sweeps: Seq<Option<Seq<u64>>>) -> (
        Self,
        Option<KvCacheEventError>,
    )
        decreases order.len(),
    {
        if order.len() == 0 {
            (self, None)
        } else {
            let (before, error) = self.swept_all(order.drop_last(), sweeps);
            let (after, next) = before.swept(order.last(), sweeps[order.len() - 1]);
            (after, first_of(error, next))
        }
    }

    /// Whether an order of a worker's members, and sweeps for the first of
    /// them, can come out of the tables.
    pub open spec fn sweeps_fit(
        self,
        worker_id: u64,
        order: Seq<u128>,
        sweeps: Seq<Option<Seq<u64>>>,
    ) -> bool {
        &&& enumerates(order, members_of(self.members, worker_id))
        &&& sweeps.len() <= order.len()
        &&& forall|i: int|
            0 <= i < sweeps.len() ==> ((#[trigger] sweeps[i]) is Some ==> enumerates(
                sweeps[i].unwrap(),
                self.members[order[i]],
            ))
    }

    /// Closes the publication window: what changed since subscribers last saw
    /// the lane becomes a delta, unless nothing did.
    pub open spec fn drained(self) -> (Self, Option<DeltaModel>) {
        if self.pending_events == 0 && self.touched.len() == 0 {
            (self, None)
        } else {
            let nothing_owned = self.refcounts.dom().is_empty();
            let reset = nothing_owned && self.published_nonempty;
            let images = if reset {
                Seq::empty()
            } else {
                changed_images(self.lane, self.touched)
            };
            let distinct_touched = self.touched.len() as u64;
            let image_count = images.len() as u64;
            let emits = reset || images.len() > 0;
            let sequence = if emits {
                self.sequence.saturating_add(1)
            } else {
                self.sequence
            };
            (
                DcCkfModel {
                    touched: Seq::empty(),
                    sequence,
                    pending_events: 0,
                    published_nonempty: !nothing_owned,
                    telemetry: DcCkfTelemetry {
                        distinct_touched_buckets:
                            self.telemetry.distinct_touched_buckets.saturating_add(
                            distinct_touched,
                        ),
                        emitted_images: self.telemetry.emitted_images.saturating_add(image_count),
                        reset_count: if reset {
                            self.telemetry.reset_count.saturating_add(1)
                        } else {
                            self.telemetry.reset_count
                        },
                        net_reverted_buckets: if reset {
                            self.telemetry.net_reverted_buckets
                        } else {
                            self.telemetry.net_reverted_buckets.saturating_add(
                                distinct_touched.saturating_sub(image_count),
                            )
                        },
                        ..self.telemetry
                    },
                    ..self
                },
                if emits {
                    Some(DeltaModel { base_sequence: self.sequence, sequence, reset, images })
                } else {
                    None
                },
            )
        }
    }

    /// Whether choices fit an event.
    pub open spec fn choices_fit(self, event: RouterEvent, choices: Choices) -> bool {
        match event.event.data {
            KvCacheEventData::Stored(store) => choices.grants.len() == store.hashes().len(),
            KvCacheEventData::Removed(_) => true,
            KvCacheEventData::Cleared => self.sweeps_fit(
                event.worker_id,
                choices.order,
                choices.sweeps,
            ) && choices.sweeps.len() == choices.order.len(),
        }
    }

    /// Whether choices go against an event only where the allocator did.
    pub open spec fn choices_answered(self, event: RouterEvent, choices: Choices) -> bool {
        match event.event.data {
            KvCacheEventData::Stored(_) => grants_answered(choices.grants),
            KvCacheEventData::Removed(_) => true,
            KvCacheEventData::Cleared => self.sweeps_answered(choices.order, choices.sweeps),
        }
    }

    /// The ownership changes of an event: the state after them, the first
    /// error, and how many removals named blocks that were not owned.
    pub open spec fn recorded(self, event: RouterEvent, choices: Choices) -> (
        Self,
        Option<KvCacheEventError>,
        int,
    ) {
        let key = event.member().spec_key();
        match event.event.data {
            KvCacheEventData::Stored(store) => {
                let (after, error) = self.stored_all(key, store.hashes(), choices.grants);
                (after, error, 0)
            },
            KvCacheEventData::Removed(remove) => {
                let (after, unknown) = self.removed_all(key, remove.hashes());
                (after, None, unknown)
            },
            KvCacheEventData::Cleared => {
                let (after, error) = self.swept_all(choices.order, choices.sweeps);
                (after, error, 0)
            },
        }
    }

    /// The state with unknown removals added to the counters.
    pub open spec fn noting_unknown(self, unknown: int) -> Self {
        DcCkfModel {
            telemetry: DcCkfTelemetry {
                unknown_removals: self.telemetry.unknown_removals.saturating_add(unknown as u64),
                ..self.telemetry
            },
            ..self
        }
    }

    /// The state with one more pending event.
    pub open spec fn counting_event(self) -> Self {
        DcCkfModel { pending_events: self.pending_events.saturating_add(1), ..self }
    }

    /// Whether enough events are pending for a publication.
    pub open spec fn publication_due(self) -> bool {
        self.pending_events >= self.config.publish_every_n_events
    }

    /// Applies an event: its ownership changes, and a publication if one is
    /// due.
    pub open spec fn applied(self, event: RouterEvent, choices: Choices) -> (Self, OutcomeModel) {
        if is_ignored(event) {
            (
                self,
                OutcomeModel {
                    first_error: None,
                    delta: None,
                    unknown_removals: 0,
                    publication_boundary: false,
                },
            )
        } else {
            let (changed, first_error, unknown) = self.counting_event().recorded(event, choices);
            let noted = changed.noting_unknown(unknown);
            let due = noted.publication_due();
            let (after, delta) = if due {
                noted.drained()
            } else {
                (noted, None)
            };
            (
                after,
                OutcomeModel {
                    first_error,
                    delta,
                    unknown_removals: unknown,
                    publication_boundary: due,
                },
            )
        }
    }

    /// Whether some owned block has the fingerprint and the buckets of a hash.
    pub open spec fn may_contain(self, hash: u64) -> bool {
        let probe = self.addressing.probe(hash);
        exists|held: u64|
            self.refcounts.contains_key(held) && #[trigger] represents(
                self.addressing,
                held,
                probe.bucket_a,
                probe.fingerprint,
            )
    }

    /// Counters of what is owned and of what the lane holds.
    pub open spec fn aggregation_stats(self) -> DcCkfAggregationStats {
        DcCkfAggregationStats {
            member_count: self.members.dom().len() as usize,
            contribution_count: saturated(contributions(self.members).len() as int),
            unique_block_count: self.refcounts.dom().len() as usize,
            unknown_removals: self.telemetry.unknown_removals,
            capacity_failures: self.telemetry.capacity_failures,
            occupied_bucket_count: buckets_in_use(self.lane) as usize,
            occupied_slot_count: slots_in_use(self.lane) as usize,
        }
    }

    /// Counters of what was published and of what is pending.
    pub open spec fn publication_stats(self) -> DcCkfPublicationStats {
        DcCkfPublicationStats {
            sequence: self.sequence,
            pending_events: self.pending_events,
            physical_touches: self.telemetry.physical_touches,
            distinct_touched_buckets: self.telemetry.distinct_touched_buckets,
            emitted_images: self.telemetry.emitted_images,
            net_reverted_buckets: self.telemetry.net_reverted_buckets,
            reset_count: self.telemetry.reset_count,
        }
    }

    /// Whether these are the counters and sizes of this state. How much room
    /// the tables and lists have beyond what they hold is up to the machine.
    pub open spec fn is_stats(self, stats: DcCkfStats) -> bool {
        &&& stats.aggregation == self.aggregation_stats()
        &&& stats.publication == self.publication_stats()
        &&& stats.memory.member_set_capacity >= stats.aggregation.contribution_count
        &&& stats.memory.refcount_capacity >= stats.aggregation.unique_block_count
        &&& stats.memory.filter_bytes == 8 * self.lane.len()
        &&& exists|bucket_room: usize, original_room: usize|
            bucket_room >= self.touched.len() && original_room >= self.touched.len()
                && stats.memory.dirty_tracking_bytes == #[trigger] tracking_bytes(
                word_count(self.lane.len() as int),
                bucket_room as int,
                original_room as int,
            )
    }

    /// Whether these are all members with the numbers of their blocks, ordered
    /// by worker first and by rank second.
    pub open spec fn is_member_counts(self, counts: Seq<(WorkerWithDpRank, usize)>) -> bool {
        &&& forall|i: int|
            0 <= i < counts.len() ==> self.members.contains_key(
                (#[trigger] counts[i]).0.spec_key(),
            ) && counts[i].1 == self.members[counts[i].0.spec_key()].len()
        &&& forall|key: u128| #[trigger]
            self.members.contains_key(key) ==> exists|i: int|
                0 <= i < counts.len() && (#[trigger] counts[i]).0.spec_key() == key
        &&& forall|i: int, j: int|
            0 <= i < j < counts.len() ==> (#[trigger] counts[i]).0.spec_key() < (
            #[trigger] counts[j]).0.spec_key()
    }

    /// A snapshot of the lane under the current sequence.
    pub open spec fn snapshot(self) -> SnapshotModel {
        SnapshotModel { sequence: self.sequence, format: self.format(), buckets: self.lane }
    }
}

} // verus!
