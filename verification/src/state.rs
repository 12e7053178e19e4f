//! Exact aggregation of block ownership for one model in one data center, with
//! a filter over all owned blocks.
//!
//! Replay is idempotent in what it means: an ordered history, applied through
//! the same point, leads to the same owners and the same counts. It is not
//! idempotent in bytes. Where a fingerprint ends up depends on what was there
//! before and on the generator, so churn and reconstruction may lead to another
//! valid layout. A snapshot is therefore the base of one physical layout, and
//! only the deltas of the same producer, in order, extend it byte for byte.
use crate::addressing::{CkfAddressing, CkfProbe};
use crate::bucket::{OwnedPackedCkfLane, PackedBucket, FINGERPRINT_BITS, SLOTS_PER_BUCKET};
use crate::config::{bucket_count, validate_config, CkfBuildError, CkfConfig};
use crate::fx::{
    map_capacity, map_get, map_get_mut, map_insert, map_keys, map_len, map_remove, set_append_to,
    set_capacity, set_contains, set_insert, set_len, set_remove, try_blocks, try_counts,
    try_members,
};
use crate::memory::{if_granted, try_list, try_room};
use crate::model::{DcCkfModel, DcCkfTelemetry};
use crate::mutator::{lane_rng_seed, CuckooInsertionScratch, CuckooMutator, Write};
use crate::protocol::{
    ExternalSequenceBlockHash, KvCacheEventData, KvCacheEventError, KvCacheRemoveData,
    KvCacheStoreData, RouterEvent, StorageTier, WorkerId, WorkerWithDpRank,
};
use crate::publication::{
    DcCkfAggregationStats, DcCkfBucketImage, DcCkfDelta, DcCkfEventOutcome, DcCkfFormatIdentity,
    DcCkfMemoryStats, DcCkfPublicationStats, DcCkfSnapshot, DcCkfStats, FORMAT_VERSION,
};
use crate::sorting::sort_distinct;
use crate::window::PublicationWindow;
use rustc_hash::{FxHashMap, FxHashSet};
use vstd::prelude::*;
#[allow(unused_imports)]
use crate::census::{buckets_in_use, slots_in_use};
#[allow(unused_imports)]
use crate::config::{lane_size, lemma_lane_size};
#[allow(unused_imports)]
use crate::model::{changed_images, enumerates, first_of, saturated, Choices};
#[allow(unused_imports)]
use crate::memory::room_refused;
#[allow(unused_imports)]
use crate::model::{build_room_refused, grants_answered, store_room_refused};
#[allow(unused_imports)]
use crate::mutator::insertion;
#[allow(unused_imports)]
use crate::occupancy::{lemma_lookup, lemma_removal};
#[allow(unused_imports)]
use crate::ownership::{
    contributions, contributions_of, lemma_contributions_of_all, lemma_contributions_of_one_more,
    lemma_no_contributions, members_of, members_wf, owns,
};
#[allow(unused_imports)]
use crate::protocol::{law_member_keys_order_members, member_worker, MEMBER_KEY_END};
#[allow(unused_imports)]
use crate::publication::delta_model;
#[allow(unused_imports)]
use crate::replacement::{carried, differing, lemma_carried, lemma_differing, listed, rebased};
#[allow(unused_imports)]
use crate::transitions::result_model;
#[allow(unused_imports)]
use crate::upkeep::lemma_insertion_writes_in_lane;
#[allow(unused_imports)]
use crate::window::{distinct, in_lane, marked, marked_all, touches};

verus! {

/// Exact and physical state for one model-local aggregation domain.
#[derive(Debug)]
pub struct DcCkfState {
    member_blocks: FxHashMap<u128, FxHashSet<u64>>,
    dc_refcounts: FxHashMap<u64, u32>,
    filter: OwnedPackedCkfLane,
    addressing: CkfAddressing,
    config: CkfConfig,
    format: DcCkfFormatIdentity,
    rng: u64,
    insertion_scratch: CuckooInsertionScratch,
    publication: PublicationWindow,
    telemetry: DcCkfTelemetry,
    remove_scratch: Vec<u64>,
}

/// The memory that an aggregation starts with.
struct StateMemory {
    dc_refcounts: FxHashMap<u64, u32>,
    filter: OwnedPackedCkfLane,
    insertion_scratch: CuckooInsertionScratch,
    publication: PublicationWindow,
    remove_scratch: Vec<u64>,
}

impl StateMemory {
    /// Nothing is counted, no bucket is in use and nothing is pending.
    spec fn fits(self, bucket_count: int) -> bool {
        &&& self.dc_refcounts@ == Map::<u64, u32>::empty()
        &&& self.filter@ == Seq::new(bucket_count as nat, |i: int| 0u64)
        &&& self.publication.dirty.wf()
        &&& self.publication.dirty.bucket_count() == bucket_count
        &&& self.publication.dirty@ == Seq::<Write>::empty()
        &&& self.publication.sequence == 0
        &&& self.publication.pending_events == 0
        &&& !self.publication.published_nonempty
    }

    /// Asks for memory: for the expected counts and removals, for the lane, for
    /// the writes of an insertion and for the window, up to the first refusal.
    /// Whether it is granted is up to the machine.
    fn reserve(config: CkfConfig, bucket_count: usize) -> (memory: Option<Self>)
        ensures
            memory is Some ==> memory.unwrap().fits(bucket_count as int),
            memory is None && bucket_count == lane_size(config.expected_blocks_per_dc)
                ==> build_room_refused(config),
    {
        let mut dc_refcounts: FxHashMap<u64, u32> = FxHashMap::default();
        let mut remove_scratch: Vec<u64> = Vec::new();
        let granted: bool = try_counts(&mut dc_refcounts, config.expected_blocks_per_dc)
            && try_room(&mut remove_scratch, config.expected_blocks_per_dc);
        let filter = if granted {
            OwnedPackedCkfLane::new(bucket_count).ok()
        } else {
            None
        };
        let insertion_scratch = if filter.is_some() {
            CuckooInsertionScratch::new(config.max_kicks)
        } else {
            None
        };
        let publication = if insertion_scratch.is_some() {
            PublicationWindow::new(bucket_count).ok()
        } else {
            None
        };
        Self::collect(dc_refcounts, remove_scratch, granted, filter, insertion_scratch, publication)
    }

    /// The memory, for each answer to the requests for its parts: all of them
    /// if all were granted, and nothing if one was refused.
    fn collect(
        dc_refcounts: FxHashMap<u64, u32>,
        remove_scratch: Vec<u64>,
        granted: bool,
        filter: Option<OwnedPackedCkfLane>,
        insertion_scratch: Option<CuckooInsertionScratch>,
        publication: Option<PublicationWindow>,
    ) -> (memory: Option<Self>)
        ensures
            memory is Some <==> granted && filter is Some && insertion_scratch is Some
                && publication is Some,
            memory is Some ==> memory.unwrap() == (StateMemory {
                dc_refcounts,
                filter: filter.unwrap(),
                insertion_scratch: insertion_scratch.unwrap(),
                publication: publication.unwrap(),
                remove_scratch,
            }),
    {
        if !granted {
            return None;
        }
        match (filter, insertion_scratch, publication) {
            (Some(filter), Some(insertion_scratch), Some(publication)) => Some(
                StateMemory {
                    dc_refcounts,
                    filter,
                    insertion_scratch,
                    publication,
                    remove_scratch,
                },
            ),
            _ => None,
        }
    }
}

/// The blocks in a list, if there is one.
spec fn listed_blocks(listed: Option<&Vec<u64>>) -> Option<Seq<u64>> {
    match listed {
        Some(hashes) => Some(hashes@),
        None => None,
    }
}

/// The contents of a table of sets.
spec fn contents(table: Map<u128, FxHashSet<u64>>) -> Map<u128, Set<u64>> {
    table.map_values(|set: FxHashSet<u64>| set@)
}

impl View for DcCkfState {
    type V = DcCkfModel;

    closed spec fn view(&self) -> DcCkfModel {
        DcCkfModel {
            config: self.config,
            addressing: self.addressing,
            members: contents(self.member_blocks@),
            refcounts: self.dc_refcounts@,
            lane: self.filter@,
            rng: self.rng,
            touched: self.publication.dirty@,
            sequence: self.publication.sequence,
            pending_events: self.publication.pending_events,
            published_nonempty: self.publication.published_nonempty,
            telemetry: self.telemetry,
        }
    }
}

impl DcCkfState {
    /// The parts that repeat what others say agree with them.
    pub closed spec fn parts_agree(&self) -> bool {
        &&& self.publication.dirty.wf()
        &&& self.publication.dirty.bucket_count() == self.filter@.len()
        &&& self.format == self@.format()
    }

    /// Writes that the last insertion recorded.
    pub closed spec fn recorded_writes(&self) -> nat {
        self.insertion_scratch@.len()
    }

    /// What every constructed state satisfies, and every method keeps.
    pub open spec fn wf(&self) -> bool {
        self@.inv() && self.parts_agree()
    }

    /// An empty aggregation for a sound configuration, unless the allocator
    /// refuses it.
    pub fn new(config: CkfConfig) -> (result: Result<Self, CkfBuildError>)
        ensures
            match result {
                Ok(state) => {
                    &&& config.fault() is None
                    &&& state.wf()
                    &&& state@ == DcCkfModel::initial(config, state@.addressing)
                },
                Err(error) => match config.fault() {
                    Some(fault) => error == fault,
                    None => error == CkfBuildError::AllocationFailed && build_room_refused(config),
                },
            },
    {
        if let Err(error) = validate_config(config) {
            return Err(error);
        }
        let bucket_count: usize = match bucket_count(config.expected_blocks_per_dc) {
            Ok(count) => count,
            Err(error) => {
                return Err(error);
            },
        };
        match StateMemory::reserve(config, bucket_count) {
            Some(memory) => Ok(Self::assemble(config, memory)),
            None => Err(CkfBuildError::AllocationFailed),
        }
    }

    /// An empty aggregation in memory that was granted for it.
    fn assemble(config: CkfConfig, memory: StateMemory) -> (state: Self)
        requires
            config.fault() is None,
            memory.fits(lane_size(config.expected_blocks_per_dc)),
        ensures
            state.wf(),
            state@ == DcCkfModel::initial(config, state@.addressing),
    {
        proof {
            lemma_lane_size(config.expected_blocks_per_dc);
        }
        let bucket_count: usize = memory.filter.len();
        let addressing = CkfAddressing::new(bucket_count, config.seed);
        let state = DcCkfState {
            member_blocks: FxHashMap::default(),
            dc_refcounts: memory.dc_refcounts,
            filter: memory.filter,
            addressing,
            config,
            format: DcCkfFormatIdentity {
                format_version: FORMAT_VERSION,
                seed: config.seed,
                bucket_count,
                fingerprint_bits: FINGERPRINT_BITS,
                slots_per_bucket: SLOTS_PER_BUCKET,
            },
            rng: lane_rng_seed(config.seed, 0),
            insertion_scratch: memory.insertion_scratch,
            publication: memory.publication,
            telemetry: DcCkfTelemetry::default(),
            remove_scratch: memory.remove_scratch,
        };
        proof {
            assert(state@.members =~= Map::empty());
            assert(state@ =~= DcCkfModel::initial(config, addressing));
            DcCkfModel::lemma_initial(config, addressing);
        }
        state
    }

    /// How published buckets are to be read.
    pub fn format(&self) -> (format: DcCkfFormatIdentity)
        requires
            self.wf(),
        ensures
            format == self@.format(),
    {
        self.format
    }

    /// Whether a member owns a block.
    fn is_owner(&self, key: u128, hash: u64) -> (found: bool)
        ensures
            found == owns(self@.members, key, hash),
    {
        match map_get(&self.member_blocks, key) {
            Some(member) => set_contains(member, hash),
            None => false,
        }
    }

    /// Owners of a block.
    pub fn refcount(&self, hash: ExternalSequenceBlockHash) -> (count: u32)
        ensures
            count == self@.refcount(hash.0),
    {
        match map_get(&self.dc_refcounts, hash.0) {
            Some(count) => *count,
            None => 0,
        }
    }

    /// Asks for the room that a member needs to take a block: in its own set,
    /// or in the table of members and in a set that is handed back for it, and
    /// in the table of counts if nobody owns the block yet. Whether room is
    /// granted is up to the machine.
    fn reserve(&mut self, key: u128, hash: u64) -> (room: Option<FxHashSet<u64>>)
        ensures
            final(self)@ == old(self)@,
            old(self).parts_agree() ==> final(self).parts_agree(),
            room is Some ==> room.unwrap()@ == Set::<u64>::empty(),
            room is None ==> store_room_refused(),
    {
        let mut room: FxHashSet<u64> = FxHashSet::default();
        let ghost before = *self;
        let granted: bool = match map_get_mut(&mut self.member_blocks, key) {
            Some(member) => try_blocks(member, 1),
            None => try_members(&mut self.member_blocks, 1) && try_blocks(&mut room, 1),
        };
        proof {
            assert(self@.members =~= before@.members);
        }
        let counted: bool = granted && (self.refcount(ExternalSequenceBlockHash(hash)) != 0
            || try_counts(&mut self.dc_refcounts, 1));
        if_granted(room, counted)
    }

    /// Records the writes of the last insertion.
    fn record_writes(&mut self)
        requires
            old(self).parts_agree(),
            in_lane(old(self).insertion_scratch@, old(self)@.lane.len() as int),
        ensures
            final(self).parts_agree(),
            final(self)@ == old(self)@.written(
                old(self)@.lane,
                old(self).insertion_scratch@,
            ),
            final(self).member_blocks == old(self).member_blocks,
            final(self).dc_refcounts == old(self).dc_refcounts,
            final(self).insertion_scratch@ == old(self).insertion_scratch@,
    {
        let ghost before = *self;
        let ghost writes = self.insertion_scratch@;
        let count: usize = self.insertion_scratch.len();
        let mut index: usize = 0;
        while index < count
            invariant
                index <= count,
                count == writes.len(),
                self.insertion_scratch@ == writes,
                self.publication.dirty.wf(),
                self.publication.dirty.bucket_count() == before.publication.dirty.bucket_count(),
                before.publication.dirty.bucket_count() == before@.lane.len(),
                in_lane(writes, before@.lane.len() as int),
                self.publication.dirty@ == marked_all(
                    before@.touched,
                    writes.take(index as int),
                ),
                self.publication.sequence == before.publication.sequence,
                self.publication.pending_events == before.publication.pending_events,
                self.publication.published_nonempty == before.publication.published_nonempty,
                self.member_blocks == before.member_blocks,
                self.dc_refcounts == before.dc_refcounts,
                self.filter == before.filter,
                self.addressing == before.addressing,
                self.config == before.config,
                self.format == before.format,
                self.rng == before.rng,
                self.telemetry == before.telemetry,
            decreases count - index,
        {
            let write: Write = self.insertion_scratch.write(index);
            self.publication.dirty.mark(write.0, PackedBucket(write.1));
            proof {
                let next = writes.take(index + 1);
                assert(next.drop_last() =~= writes.take(index as int));
                assert(next.last() == writes[index as int]);
            }
            index = index + 1;
        }
        self.telemetry.physical_touches =
        self.telemetry.physical_touches.saturating_add(count as u64);
        proof {
            assert(writes.take(count as int) =~= writes);
            assert(self@ =~= before@.written(before@.lane, writes));
        }
    }

    /// A member takes a block, with the room that it was granted, if any.
    pub fn store_granted(
        &mut self,
        worker: WorkerWithDpRank,
        hash: ExternalSequenceBlockHash,
        room: Option<FxHashSet<u64>>,
    ) -> (result: Result<bool, KvCacheEventError>)
        requires
            old(self).wf(),
            room is Some ==> room.unwrap()@ == Set::<u64>::empty(),
        ensures
            final(self).wf(),
            ({
                let (after, expected) = old(self)@.stored(worker.spec_key(), hash.0, room is Some);
                final(self)@ == after && result == expected
            }),
            final(self).recorded_writes() == (if !owns(
                old(self)@.members,
                worker.spec_key(),
                hash.0,
            ) && room is Some && old(self)@.refcount(hash.0) == 0 {
                insertion(
                    old(self)@.addressing,
                    old(self)@.lane,
                    hash.0,
                    old(self)@.rng,
                    old(self)@.config.max_kicks as nat,
                ).writes.len()
            } else {
                old(self).recorded_writes()
            }),
    {
        let key: u128 = worker.key();
        let ghost before = *self;
        proof {
            before@.lemma_stored(key, hash.0, room is Some);
            before@.addressing.lemma_bucket_count();
        }
        if self.is_owner(key, hash.0) {
            return Ok(false);
        }
        let mut room = match room {
            Some(room) => room,
            None => {
                return Err(KvCacheEventError::CapacityExhausted);
            },
        };
        let current: u32 = self.refcount(hash);
        if current == u32::MAX {
            return Err(KvCacheEventError::IndexerInvariantViolation);
        }
        if current == 0 {
            let mutator = CuckooMutator::new(self.addressing, self.config.max_kicks);
            let placed: bool = mutator.insert_with_originals(
                &mut self.filter,
                hash.0,
                &mut self.rng,
                &mut self.insertion_scratch,
            );
            if !placed {
                proof {
                    assert(self@.lane =~= before@.lane);
                }
                return Err(KvCacheEventError::CapacityExhausted);
            }
            proof {
                lemma_insertion_writes_in_lane(
                    before@.addressing,
                    before@.lane,
                    hash.0,
                    before@.rng,
                    before@.config.max_kicks as nat,
                );
            }
            self.record_writes();
            map_insert(&mut self.dc_refcounts, hash.0, 1);
        } else {
            map_insert(&mut self.dc_refcounts, hash.0, current + 1);
        }
        match map_get_mut(&mut self.member_blocks, key) {
            Some(member) => {
                set_insert(member, hash.0);
            },
            None => {
                set_insert(&mut room, hash.0);
                map_insert(&mut self.member_blocks, key, room);
            },
        }
        proof {
            let after = before@.stored(key, hash.0, true).0;
            assert(self@.members =~~= after.members);
            assert(self@ =~= after);
        }
        Ok(true)
    }

    /// A member takes a block. Whether the room for it is granted is up to the
    /// machine; everything else follows.
    fn store(&mut self, worker: WorkerWithDpRank, hash: ExternalSequenceBlockHash) -> (result: Result<
        bool,
        KvCacheEventError,
    >)
        requires
            old(self).wf(),
        ensures
            final(self).wf(),
            exists|granted: bool|
                (final(self)@, result) == #[trigger] old(self)@.stored(
                    worker.spec_key(),
                    hash.0,
                    granted,
                ) && (granted || store_room_refused()),
    {
        let ghost before = self@;
        let key: u128 = worker.key();
        if self.is_owner(key, hash.0) {
            assert((self@, Ok::<bool, KvCacheEventError>(false)) == before.stored(
                key,
                hash.0,
                true,
            ));
            return Ok(false);
        }
        let room = self.reserve(key, hash.0);
        let ghost granted = room is Some;
        let result = self.store_granted(worker, hash, room);
        assert((self@, result) == before.stored(key, hash.0, granted));
        result
    }

    /// A member gives up a block, and says whether it owned it.
    fn remove(&mut self, worker: WorkerWithDpRank, hash: ExternalSequenceBlockHash) -> (found: bool)
        requires
            old(self).wf(),
        ensures
            final(self).wf(),
            (final(self)@, found) == old(self)@.removed(worker.spec_key(), hash.0),
    {
        let key: u128 = worker.key();
        let ghost before = *self;
        proof {
            before@.lemma_removed(key, hash.0);
            before@.addressing.lemma_bucket_count();
        }
        if !self.is_owner(key, hash.0) {
            return false;
        }
        let current: u32 = self.refcount(hash);
        if current == 1 {
            let mutator = CuckooMutator::new(self.addressing, self.config.max_kicks);
            if let Some(write) = mutator.remove_with_original(&mut self.filter, hash.0) {
                proof {
                    lemma_removal(
                        before@.addressing,
                        before@.lane,
                        before@.refcounts.dom(),
                        hash.0,
                    );
                    assert(seq![write].drop_last() =~= Seq::empty());
                    assert(marked_all(before@.touched, seq![write].drop_last())
                        == before@.touched);
                }
                self.telemetry.physical_touches = self.telemetry.physical_touches.saturating_add(1);
                self.publication.dirty.mark(write.0, PackedBucket(write.1));
            }
            map_remove(&mut self.dc_refcounts, hash.0);
        } else {
            map_insert(&mut self.dc_refcounts, hash.0, current - 1);
        }
        let mut is_empty: bool = false;
        if let Some(member) = map_get_mut(&mut self.member_blocks, key) {
            set_remove(member, hash.0);
            is_empty = member.is_empty();
        }
        if is_empty {
            map_remove(&mut self.member_blocks, key);
        }
        proof {
            let after = before@.removed(key, hash.0).0;
            assert(self@.members =~~= after.members);
            assert(self@ =~= after);
        }
        true
    }

    /// A member gives up everything, unless the allocator refuses the room to
    /// list its blocks. The order in which they leave is up to the table.
    fn remove_member(&mut self, worker: WorkerWithDpRank) -> (result: Result<(), KvCacheEventError>)
        requires
            old(self).wf(),
        ensures
            final(self).wf(),
            exists|sweep: Option<Seq<u64>>|
                {
                    &&& #[trigger] old(self)@.sweep_fits(worker.spec_key(), sweep)
                    &&& old(self)@.sweep_answered(worker.spec_key(), sweep)
                    &&& final(self)@ == old(self)@.swept(worker.spec_key(), sweep).0
                    &&& result == (match old(self)@.swept(worker.spec_key(), sweep).1 {
                        Some(error) => Err(error),
                        None => Ok::<(), KvCacheEventError>(()),
                    })
                },
    {
        let ghost before = self@;
        let ghost key = worker.spec_key();
        let mut scratch: Vec<u64> = Vec::new();
        std::mem::swap(&mut scratch, &mut self.remove_scratch);
        scratch.clear();
        let granted: bool = match map_get(&self.member_blocks, worker.key()) {
            Some(member) => {
                if try_list(&mut scratch, set_len(member)) {
                    set_append_to(member, &mut scratch);
                    assert(scratch@.skip(0) =~= scratch@);
                    true
                } else {
                    false
                }
            },
            None => true,
        };
        let listed: Option<&Vec<u64>> = if granted {
            Some(&scratch)
        } else {
            None
        };
        assert(before.sweep_fits(key, listed_blocks(listed)));
        assert(before.sweep_answered(key, listed_blocks(listed)));
        let result = self.remove_listed(worker, listed);
        scratch.clear();
        self.remove_scratch = scratch;
        result
    }

    /// A member gives up everything in the order of a list of its blocks, or
    /// nothing if there was no room for such a list.
    fn remove_listed(&mut self, worker: WorkerWithDpRank, listed: Option<&Vec<u64>>) -> (result: Result<
        (),
        KvCacheEventError,
    >)
        requires
            old(self).wf(),
            old(self)@.sweep_fits(worker.spec_key(), listed_blocks(listed)),
        ensures
            final(self).wf(),
            final(self)@ == old(self)@.swept(worker.spec_key(), listed_blocks(listed)).0,
            result == (match old(self)@.swept(worker.spec_key(), listed_blocks(listed)).1 {
                Some(error) => Err(error),
                None => Ok::<(), KvCacheEventError>(()),
            }),
    {
        let key: u128 = worker.key();
        let ghost before = self@;
        if map_get(&self.member_blocks, key).is_none() {
            return Ok(());
        }
        let hashes = match listed {
            Some(hashes) => hashes,
            None => {
                return Err(KvCacheEventError::CapacityExhausted);
            },
        };
        let ghost order = hashes@;
        assert(order.take(0) =~= Seq::empty());
        let mut index: usize = 0;
        while index < hashes.len()
            invariant
                index <= order.len(),
                hashes@ == order,
                self.wf(),
                key == worker.spec_key(),
                self@ == before.removed_all(key, order.take(index as int)).0,
            decreases order.len() - index,
        {
            let hash: u64 = hashes[index];
            self.remove(worker, ExternalSequenceBlockHash(hash));
            proof {
                let next = order.take(index + 1);
                assert(next.drop_last() =~= order.take(index as int));
                assert(next.last() == hash);
            }
            index = index + 1;
        }
        assert(order.take(index as int) =~= order);
        Ok(())
    }

    /// Closes the publication window: what changed since subscribers last saw
    /// the lane becomes a delta, unless nothing did.
    fn drain_publication(&mut self) -> (delta: Option<DcCkfDelta>)
        requires
            old(self).wf(),
        ensures
            final(self).wf(),
            final(self)@ == old(self)@.drained().0,
            delta_model(delta) == old(self)@.drained().1,
    {
        let ghost before = self@;
        proof {
            before.lemma_drained();
            self.publication.dirty.lemma_wf();
        }
        let count: usize = self.publication.dirty.len();
        if self.publication.pending_events == 0 && count == 0 {
            assert(self@.touched =~= Seq::empty());
            return None;
        }
        let nothing_owned: bool = self.dc_refcounts.is_empty();
        let reset: bool = nothing_owned && self.publication.published_nonempty;
        let mut images: Vec<DcCkfBucketImage> = Vec::with_capacity(count);
        if !reset {
            let mut index: usize = 0;
            assert(before.touched.take(0) =~= Seq::empty());
            while index < count
                invariant
                    index <= count,
                    count == before.touched.len(),
                    self.wf(),
                    self@ == before,
                    images@ == changed_images(before.lane, before.touched.take(index as int)),
                decreases count - index,
            {
                let (bucket, original) = self.publication.dirty.touched_with_originals(index);
                let value: u64 = self.filter.load_bucket(bucket).0;
                proof {
                    let next = before.touched.take(index + 1);
                    assert(next.drop_last() =~= before.touched.take(index as int));
                    assert(next.last() == before.touched[index as int]);
                }
                if value != original.0 {
                    images.push(DcCkfBucketImage { bucket, value });
                }
                index = index + 1;
            }
            assert(before.touched.take(count as int) =~= before.touched);
        }
        let distinct_touched: u64 = count as u64;
        let image_count: u64 = images.len() as u64;
        self.publication.dirty.clear();
        self.telemetry.distinct_touched_buckets =
        self.telemetry.distinct_touched_buckets.saturating_add(distinct_touched);
        self.telemetry.emitted_images = self.telemetry.emitted_images.saturating_add(image_count);
        if reset {
            self.telemetry.reset_count = self.telemetry.reset_count.saturating_add(1);
        } else {
            self.telemetry.net_reverted_buckets =
            self.telemetry.net_reverted_buckets.saturating_add(
                distinct_touched.saturating_sub(image_count),
            );
        }
        self.publication.pending_events = 0;
        self.publication.published_nonempty = !nothing_owned;
        if !reset && images.len() == 0 {
            assert(self@ =~= before.drained().0);
            return None;
        }
        let base_sequence: u64 = self.publication.sequence;
        self.publication.sequence = base_sequence.saturating_add(1);
        assert(self@ =~= before.drained().0);
        Some(DcCkfDelta::new(base_sequence, self.publication.sequence, reset, images))
    }

    /// The members of a worker, in an order that is up to the table.
    fn worker_members(&self, worker_id: WorkerId) -> (members: Vec<u128>)
        requires
            self.wf(),
        ensures
            enumerates(members@, members_of(self@.members, worker_id)),
            forall|i: int| 0 <= i < members@.len() ==> #[trigger] members@[i] < MEMBER_KEY_END,
    {
        let keys: Vec<u128> = map_keys(&self.member_blocks);
        let mut members: Vec<u128> = Vec::new();
        let mut index: usize = 0;
        assert(self.member_blocks@.dom() =~= self@.members.dom());
        while index < keys.len()
            invariant
                index <= keys@.len(),
                keys@.no_duplicates(),
                keys@.to_set() == self@.members.dom(),
                members_wf(self@.members),
                members@.no_duplicates(),
                forall|key: u128| #[trigger]
                    members@.contains(key) == (keys@.take(index as int).contains(key)
                        && member_worker(key) == worker_id),
                forall|i: int|
                    0 <= i < members@.len() ==> #[trigger] members@[i] < MEMBER_KEY_END,
            decreases keys@.len() - index,
        {
            let key: u128 = keys[index];
            let ghost before = members@;
            assert(keys@.to_set().contains(key));
            assert(self@.members.contains_key(key));
            if WorkerWithDpRank::from_key(key).worker_id == worker_id {
                members.push(key);
            }
            proof {
                let taken = keys@.take(index as int);
                assert(keys@.take(index + 1) =~= taken.push(key));
                assert forall|other: u128| #[trigger]
                    members@.contains(other) == (keys@.take(index + 1).contains(other)
                        && member_worker(other) == worker_id) by {
                    vstd::seq_lib::lemma_seq_contains_after_push(taken, key, other);
                    vstd::seq_lib::lemma_seq_contains_after_push(before, key, other);
                }
                if before.contains(key) {
                    assert(taken.contains(key));
                    let i = choose|i: int| 0 <= i < taken.len() && taken[i] == key;
                    assert(keys@[i] == keys@[index as int]);
                }
            }
            index = index + 1;
        }
        proof {
            assert(keys@.take(index as int) =~= keys@);
            assert forall|key: u128| members@.to_set().contains(key) == members_of(
                self@.members,
                worker_id,
            ).contains(key) by {
                assert(members@.contains(key) == (keys@.contains(key) && member_worker(key)
                    == worker_id));
                assert(keys@.to_set().contains(key) == keys@.contains(key));
            }
            assert(members@.to_set() =~= members_of(self@.members, worker_id));
        }
        members
    }

    /// A member takes blocks one after the other; the first error is kept.
    fn store_blocks(
        &mut self,
        worker: WorkerWithDpRank,
        store: &KvCacheStoreData,
    ) -> (first_error: Option<KvCacheEventError>)
        requires
            old(self).wf(),
        ensures
            final(self).wf(),
            exists|grants: Seq<bool>|
                grants.len() == store.hashes().len() && grants_answered(grants) && (
                    final(self)@,
                    first_error,
                ) == #[trigger] old(self)@.stored_all(
                    worker.spec_key(),
                    store.hashes(),
                    grants,
                ),
    {
        let ghost before = self@;
        let ghost key = worker.spec_key();
        let ghost hashes = store.hashes();
        let ghost mut grants: Seq<bool> = Seq::empty();
        let mut first_error: Option<KvCacheEventError> = None;
        let mut index: usize = 0;
        assert(hashes.take(0) =~= Seq::empty());
        while index < store.blocks.len()
            invariant
                index <= store.blocks@.len(),
                self.wf(),
                hashes == store.hashes(),
                key == worker.spec_key(),
                grants.len() == index,
                grants_answered(grants),
                (self@, first_error) == before.stored_all(
                    key,
                    hashes.take(index as int),
                    grants,
                ),
            decreases store.blocks@.len() - index,
        {
            let hash = store.blocks[index].block_hash;
            let ghost current = self@;
            let result = self.store(worker, hash);
            let ghost granted = choose|granted: bool|
                (self@, result) == #[trigger] current.stored(key, hash.0, granted) && (granted
                    || store_room_refused());
            let ghost stored = self@;
            if let Err(error) = result {
                if error == KvCacheEventError::CapacityExhausted {
                    self.telemetry.capacity_failures =
                    self.telemetry.capacity_failures.saturating_add(1);
                }
                retain_first_error(&mut first_error, error);
            }
            proof {
                let next = hashes.take(index + 1);
                assert(next.drop_last() =~= hashes.take(index as int));
                assert(next.last() == hash.0);
                before.lemma_stored_all_grants(
                    key,
                    hashes.take(index as int),
                    grants,
                    grants.push(granted),
                );
                grants = grants.push(granted);
                assert(self@ =~= stored.noting_failure(result));
                assert(self@.published() == stored.published());
            }
            index = index + 1;
        }
        assert(hashes.take(index as int) =~= hashes);
        first_error
    }

    /// A member gives up blocks one after the other; those that it did not own
    /// are counted.
    fn remove_blocks(&mut self, worker: WorkerWithDpRank, remove: &KvCacheRemoveData) -> (unknown:
        usize)
        requires
            old(self).wf(),
        ensures
            final(self).wf(),
            final(self)@ == old(self)@.removed_all(worker.spec_key(), remove.hashes()).0,
            unknown == old(self)@.removed_all(worker.spec_key(), remove.hashes()).1,
    {
        let ghost before = self@;
        let ghost key = worker.spec_key();
        let ghost hashes = remove.hashes();
        let mut unknown: usize = 0;
        let mut index: usize = 0;
        assert(hashes.take(0) =~= Seq::empty());
        while index < remove.block_hashes.len()
            invariant
                index <= remove.block_hashes@.len(),
                unknown <= index,
                self.wf(),
                hashes == remove.hashes(),
                key == worker.spec_key(),
                self@ == before.removed_all(key, hashes.take(index as int)).0,
                unknown == before.removed_all(key, hashes.take(index as int)).1,
            decreases remove.block_hashes@.len() - index,
        {
            let hash = remove.block_hashes[index];
            let found: bool = self.remove(worker, hash);
            if !found {
                unknown = unknown + 1;
            }
            proof {
                let next = hashes.take(index + 1);
                assert(next.drop_last() =~= hashes.take(index as int));
                assert(next.last() == hash.0);
            }
            index = index + 1;
        }
        assert(hashes.take(index as int) =~= hashes);
        unknown
    }

    /// Members of a worker give up everything one after the other; the first
    /// error is kept. With `stop` no further member is tried after it.
    fn clear_worker(&mut self, worker_id: WorkerId, stop: bool) -> (first_error: Option<
        KvCacheEventError,
    >)
        requires
            old(self).wf(),
        ensures
            final(self).wf(),
            exists|order: Seq<u128>, sweeps: Seq<Option<Seq<u64>>>|
                {
                    &&& #[trigger] old(self)@.sweeps_fit(worker_id, order, sweeps)
                    &&& old(self)@.sweeps_answered(order, sweeps)
                    &&& (final(self)@, first_error) == old(self)@.swept_all(
                        order.take(sweeps.len() as int),
                        sweeps,
                    )
                    &&& first_error is None || !stop ==> sweeps.len() == order.len()
                    &&& stop ==> forall|i: int|
                        0 <= i < sweeps.len() - 1 ==> (#[trigger] sweeps[i]) is Some
                },
    {
        let ghost before = self@;
        let members: Vec<u128> = self.worker_members(worker_id);
        let ghost order = members@;
        let ghost mut sweeps: Seq<Option<Seq<u64>>> = Seq::empty();
        let mut first_error: Option<KvCacheEventError> = None;
        let mut index: usize = 0;
        assert(order.take(0) =~= Seq::empty());
        while index < members.len() && !(stop && first_error.is_some())
            invariant
                index <= members@.len(),
                before.inv(),
                self.wf(),
                members@ == order,
                before.sweeps_fit(worker_id, order, sweeps),
                before.sweeps_answered(order, sweeps),
                sweeps.len() == index,
                (self@, first_error) == before.swept_all(order.take(index as int), sweeps),
                forall|i: int| 0 <= i < members@.len() ==> #[trigger] members@[i] < MEMBER_KEY_END,
                stop ==> forall|i: int|
                    0 <= i < sweeps.len() - 1 ==> (#[trigger] sweeps[i]) is Some,
            decreases members@.len() - index,
        {
            let worker = WorkerWithDpRank::from_key(members[index]);
            let ghost key = members@[index as int];
            let ghost current = self@;
            proof {
                before.lemma_swept_all(worker_id, order, sweeps, index as int);
                assert(current.members[order[index as int]] == before.members[order[index as int]]);
            }
            let result = self.remove_member(worker);
            let ghost sweep = choose|sweep: Option<Seq<u64>>|
                {
                    &&& #[trigger] current.sweep_fits(key, sweep)
                    &&& current.sweep_answered(key, sweep)
                    &&& self@ == current.swept(key, sweep).0
                    &&& result == (match current.swept(key, sweep).1 {
                        Some(error) => Err(error),
                        None => Ok::<(), KvCacheEventError>(()),
                    })
                };
            if let Err(error) = result {
                retain_first_error(&mut first_error, error);
            }
            proof {
                let next = order.take(index + 1);
                assert(next.drop_last() =~= order.take(index as int));
                assert(next.last() == key);
                let extended = sweeps.push(sweep);
                before.lemma_swept_all_sweeps(order.take(index as int), sweeps, extended);
                sweeps = extended;
            }
            index = index + 1;
        }
        assert(before.sweeps_fit(worker_id, order, sweeps));
        first_error
    }

    /// Whether enough events are pending for a publication.
    fn publication_due(&self) -> (due: bool)
        ensures
            due == self@.publication_due(),
    {
        self.publication.pending_events >= self.config.publish_every_n_events
    }

    /// Carries out the ownership changes of an event: the first error, and how
    /// many removals named blocks that were not owned.
    fn record_event(&mut self, event: &RouterEvent) -> (recorded: (
        Option<KvCacheEventError>,
        usize,
    ))
        requires
            old(self).wf(),
        ensures
            final(self).wf(),
            exists|choices: Choices| #[trigger]
                old(self)@.choices_fit(*event, choices) && old(self)@.choices_answered(
                    *event,
                    choices,
                ) && (
                    final(self)@,
                    recorded.0,
                    recorded.1 as int,
                ) == old(self)@.recorded(*event, choices),
    {
        let ghost before = self@;
        let worker = WorkerWithDpRank::new(event.worker_id, event.event.dp_rank);
        let ghost none = Choices {
            grants: Seq::empty(),
            order: Seq::empty(),
            sweeps: Seq::empty(),
        };
        match &event.event.data {
            KvCacheEventData::Stored(store) => {
                let first_error = self.store_blocks(worker, store);
                proof {
                    let grants = choose|grants: Seq<bool>|
                        grants.len() == store.hashes().len() && grants_answered(grants) && (
                            self@,
                            first_error,
                        ) == #[trigger] before.stored_all(
                            worker.spec_key(),
                            store.hashes(),
                            grants,
                        );
                    assert(before.choices_fit(*event, Choices { grants, ..none }));
                }
                (first_error, 0)
            },
            KvCacheEventData::Removed(remove) => {
                let unknown: usize = self.remove_blocks(worker, remove);
                assert(before.choices_fit(*event, none));
                (None, unknown)
            },
            KvCacheEventData::Cleared => {
                let first_error = self.clear_worker(event.worker_id, false);
                proof {
                    let (order, sweeps) = choose|order: Seq<u128>, sweeps: Seq<Option<Seq<u64>>>|
                        {
                            &&& #[trigger] before.sweeps_fit(event.worker_id, order, sweeps)
                            &&& before.sweeps_answered(order, sweeps)
                            &&& (self@, first_error) == before.swept_all(
                                order.take(sweeps.len() as int),
                                sweeps,
                            )
                            &&& sweeps.len() == order.len()
                        };
                    assert(order.take(sweeps.len() as int) =~= order);
                    assert(before.choices_fit(*event, Choices { order, sweeps, ..none }));
                }
                (first_error, 0)
            },
        }
    }

    /// Applies one event: its ownership changes, and a publication if one is
    /// due. What the allocator grants and in which order tables hand out
    /// their contents is up to the machine; everything else follows.
    pub fn apply_event(&mut self, event: RouterEvent) -> (outcome: DcCkfEventOutcome)
        requires
            old(self).wf(),
        ensures
            final(self).wf(),
            old(self)@.may_apply(event, final(self)@, outcome@),
    {
        let ghost before = self@;
        let is_cleared: bool = match &event.event.data {
            KvCacheEventData::Cleared => true,
            _ => false,
        };
        if event.storage_tier != StorageTier::Device && !is_cleared {
            proof {
                let choices = Choices {
                    grants: match event.event.data {
                        KvCacheEventData::Stored(store) => Seq::new(
                            store.hashes().len(),
                            |i: int| true,
                        ),
                        _ => Seq::empty(),
                    },
                    order: Seq::empty(),
                    sweeps: Seq::empty(),
                };
                assert(before.choices_fit(event, choices));
            }
            return DcCkfEventOutcome::new(None, None, 0, false);
        }
        self.publication.pending_events = self.publication.pending_events.saturating_add(1);
        let ghost counted = self@;
        proof {
            assert(counted =~= before.counting_event());
            assert(counted.published() == before.published());
        }
        let (first_error, unknown_removals) = self.record_event(&event);
        let ghost recorded = self@;
        let ghost choices = choose|choices: Choices| #[trigger]
            counted.choices_fit(event, choices) && counted.choices_answered(event, choices) && (
                recorded,
                first_error,
                unknown_removals as int,
            ) == counted.recorded(event, choices);
        proof {
            assert(before.choices_fit(event, choices) && before.choices_answered(event, choices));
            before.lemma_applied(event, choices);
        }
        self.telemetry.unknown_removals =
        self.telemetry.unknown_removals.saturating_add(unknown_removals as u64);
        proof {
            assert(self@ =~= recorded.noting_unknown(unknown_removals as int));
            assert(self@.published() == recorded.published());
        }
        let publication_boundary: bool = self.publication_due();
        let delta = if publication_boundary {
            self.drain_publication()
        } else {
            None
        };
        DcCkfEventOutcome::new(first_error, delta, unknown_removals, publication_boundary)
    }

    /// Takes everything from one member and publishes what changed. If the
    /// allocator refuses the room to list the member's blocks, nothing
    /// changes.
    pub fn remove_rank(&mut self, worker: WorkerWithDpRank) -> (result: Result<
        Option<DcCkfDelta>,
        KvCacheEventError,
    >)
        requires
            old(self).wf(),
        ensures
            final(self).wf(),
            old(self)@.may_remove_rank(worker.spec_key(), final(self)@, result_model(result)),
    {
        let ghost before = self@;
        let ghost key = worker.spec_key();
        let result = self.remove_member(worker);
        proof {
            let sweep = choose|sweep: Option<Seq<u64>>|
                {
                    &&& #[trigger] before.sweep_fits(key, sweep)
                    &&& before.sweep_answered(key, sweep)
                    &&& self@ == before.swept(key, sweep).0
                    &&& result == (match before.swept(key, sweep).1 {
                        Some(error) => Err(error),
                        None => Ok::<(), KvCacheEventError>(()),
                    })
                };
            before.lemma_swept(key, sweep);
            assert(before.sweep_fits(key, sweep));
            self@.lemma_drained();
        }
        match result {
            Ok(()) => Ok(self.drain_publication()),
            Err(error) => Err(error),
        }
    }

    /// Takes everything from every member of a worker and publishes what
    /// changed. If the allocator refuses the room to list a member's blocks,
    /// that member and those after it keep theirs, and nothing is published.
    pub fn remove_worker(&mut self, worker_id: WorkerId) -> (result: Result<
        Option<DcCkfDelta>,
        KvCacheEventError,
    >)
        requires
            old(self).wf(),
        ensures
            final(self).wf(),
            old(self)@.may_remove_worker(worker_id, final(self)@, result_model(result)),
    {
        let ghost before = self@;
        let first_error = self.clear_worker(worker_id, true);
        proof {
            let (order, sweeps) = choose|order: Seq<u128>, sweeps: Seq<Option<Seq<u64>>>|
                {
                    &&& #[trigger] before.sweeps_fit(worker_id, order, sweeps)
                    &&& before.sweeps_answered(order, sweeps)
                    &&& (self@, first_error) == before.swept_all(
                        order.take(sweeps.len() as int),
                        sweeps,
                    )
                    &&& first_error is None ==> sweeps.len() == order.len()
                    &&& forall|i: int|
                        0 <= i < sweeps.len() - 1 ==> (#[trigger] sweeps[i]) is Some
                };
            assert(before.sweeps_fit(worker_id, order, sweeps));
            before.lemma_swept_all(worker_id, order, sweeps, sweeps.len() as int);
            self@.lemma_drained();
            if first_error is None {
                assert(order.take(sweeps.len() as int) =~= order);
            } else {
                assert(sweeps.len() > 0);
                assert(order.to_set().contains(order[0]));
            }
        }
        match first_error {
            None => Ok(self.drain_publication()),
            Some(error) => Err(error),
        }
    }

    /// Publishes what changed since subscribers last saw the lane.
    pub fn flush(&mut self) -> (delta: Option<DcCkfDelta>)
        requires
            old(self).wf(),
        ensures
            final(self).wf(),
            (final(self)@, delta_model(delta)) == old(self)@.drained(),
    {
        self.drain_publication()
    }

    /// A complete base for subscribers, with the delta that leads up to it. If
    /// the allocator refuses the room for it, nothing changes.
    pub fn snapshot(&mut self) -> (result: Result<
        (Option<DcCkfDelta>, DcCkfSnapshot),
        CkfBuildError,
    >)
        requires
            old(self).wf(),
        ensures
            final(self).wf(),
            match result {
                Ok((delta, snapshot)) => {
                    &&& (final(self)@, delta_model(delta)) == old(self)@.drained()
                    &&& snapshot@ == final(self)@.snapshot()
                },
                Err(error) => {
                    &&& error == CkfBuildError::AllocationFailed
                    &&& room_refused::<u64>(old(self)@.lane.len() as usize)
                    &&& final(self)@ == old(self)@
                },
            },
    {
        let mut room: Vec<u64> = Vec::new();
        if !try_room(&mut room, self.format.bucket_count) {
            return Err(CkfBuildError::AllocationFailed);
        }
        Ok(self.snapshot_into(room))
    }

    /// A complete base for subscribers in memory that was granted for it, with
    /// the delta that leads up to it.
    pub fn snapshot_into(&mut self, room: Vec<u64>) -> (result: (
        Option<DcCkfDelta>,
        DcCkfSnapshot,
    ))
        requires
            old(self).wf(),
            room@.len() == 0,
        ensures
            final(self).wf(),
            (final(self)@, delta_model(result.0)) == old(self)@.drained(),
            result.1@ == final(self)@.snapshot(),
    {
        let ghost before = self@;
        let count: usize = self.format.bucket_count;
        proof {
            before.addressing.lemma_bucket_count();
            before.lemma_drained();
        }
        let mut buckets: Vec<u64> = room;
        let mut bucket: usize = 0;
        while bucket < count
            invariant
                bucket <= count,
                count == before.lane.len(),
                self@ == before,
                self.wf(),
                buckets@ == before.lane.take(bucket as int),
            decreases count - bucket,
        {
            buckets.push(self.filter.load_bucket(bucket).0);
            bucket = bucket + 1;
            assert(buckets@ =~= before.lane.take(bucket as int));
        }
        assert(before.lane.take(count as int) =~= before.lane);
        let delta = self.drain_publication();
        (delta, DcCkfSnapshot::new(self.publication.sequence, self.format, buckets))
    }

    /// Blocks that a member owns.
    pub fn member_block_count(&self, worker: WorkerWithDpRank) -> (count: usize)
        ensures
            count == (if self@.members.contains_key(worker.spec_key()) {
                self@.members[worker.spec_key()].len()
            } else {
                0
            }),
    {
        match map_get(&self.member_blocks, worker.key()) {
            Some(member) => set_len(member),
            None => 0,
        }
    }

    /// The blocks that a member owns, in an order that is up to the table.
    pub fn member_hashes(&self, worker: WorkerWithDpRank) -> (hashes: Vec<u64>)
        ensures
            enumerates(
                hashes@,
                if self@.members.contains_key(worker.spec_key()) {
                    self@.members[worker.spec_key()]
                } else {
                    Set::empty()
                },
            ),
    {
        let mut hashes: Vec<u64> = Vec::new();
        if let Some(member) = map_get(&self.member_blocks, worker.key()) {
            set_append_to(member, &mut hashes);
            assert(hashes@.skip(0) =~= hashes@);
        } else {
            assert(hashes@.to_set() =~= Set::empty());
        }
        hashes
    }

    /// How blocks are mapped to buckets of the lane.
    pub fn addressing(&self) -> (addressing: CkfAddressing)
        ensures
            addressing == self@.addressing,
    {
        self.addressing
    }

    /// Whether the lane may hold a block: always for an owned one, and for
    /// another only if it shares fingerprint and buckets with an owned one.
    pub fn contains(&self, hash: ExternalSequenceBlockHash) -> (found: bool)
        requires
            self.wf(),
        ensures
            found == self@.may_contain(hash.0),
            self@.refcounts.contains_key(hash.0) ==> found,
    {
        proof {
            self@.addressing.lemma_probe(hash.0);
            lemma_lookup(self@.addressing, self@.lane, self@.refcounts.dom(), hash.0);
        }
        let probe: CkfProbe = self.addressing.prepare(hash.0);
        self.filter.load_bucket(probe.bucket_a).contains(probe.fingerprint)
            || self.filter.load_bucket(probe.bucket_b).contains(probe.fingerprint)
    }

    /// A member takes blocks one after the other into a state that is being
    /// rebuilt, up to the first error.
    fn store_listed(
        &mut self,
        worker: WorkerWithDpRank,
        hashes: &Vec<u64>,
        Ghost(pairs): Ghost<Seq<(u128, u64)>>,
        Ghost(grants): Ghost<Seq<bool>>,
    ) -> (refused: Option<KvCacheEventError>)
        requires
            old(self).wf(),
            old(self)@.is_rebuilt_from(pairs, worker.spec_key(), hashes@, 0, grants, None),
        ensures
            final(self).wf(),
            final(self)@.config == old(self)@.config,
            final(self)@.addressing == old(self)@.addressing,
            exists|count: int, all_grants: Seq<bool>| #[trigger]
                final(self)@.is_rebuilt_from(
                    pairs,
                    worker.spec_key(),
                    hashes@,
                    count,
                    all_grants,
                    refused,
                ) && (refused is None ==> count == hashes@.len()),
    {
        let ghost key = worker.spec_key();
        let ghost mut all_grants = grants;
        let mut index: usize = 0;
        while index < hashes.len()
            invariant
                index <= hashes@.len(),
                self.wf(),
                self@.config == old(self)@.config,
                self@.addressing == old(self)@.addressing,
                key == worker.spec_key(),
                self@.is_rebuilt_from(pairs, key, hashes@, index as int, all_grants, None),
            decreases hashes@.len() - index,
        {
            let hash: u64 = hashes[index];
            let ghost before = self@;
            proof {
                law_member_keys_order_members(worker, worker);
            }
            let result = self.store(worker, ExternalSequenceBlockHash(hash));
            proof {
                let granted = choose|granted: bool|
                    (self@, result) == #[trigger] before.stored(key, hash, granted) && (granted
                        || store_room_refused());
                before.lemma_rebuilt_further(
                    pairs,
                    key,
                    hashes@,
                    index as int,
                    all_grants,
                    granted,
                );
                all_grants = all_grants.push(granted);
            }
            if let Err(error) = result {
                assert(self@.is_rebuilt_from(
                    pairs,
                    key,
                    hashes@,
                    index + 1,
                    all_grants,
                    Some(error),
                ));
                return Some(error);
            }
            index = index + 1;
        }
        None
    }

    /// Makes the window of a rebuilt state show its lane against what
    /// subscribers last saw of the state that it replaces.
    fn rebase_window(&mut self, replaced: &Self)
        requires
            old(self).wf(),
            replaced.wf(),
            old(self)@.lane.len() == replaced@.lane.len(),
        ensures
            final(self).parts_agree(),
            final(self)@ == (DcCkfModel {
                touched: rebased(replaced@.touched, replaced@.lane, old(self)@.lane),
                ..old(self)@
            }),
    {
        let ghost before = *self;
        let ghost touched = replaced@.touched;
        let ghost lane = self@.lane;
        proof {
            replaced@.addressing.lemma_bucket_count();
        }
        self.publication.dirty.clear();
        let count: usize = replaced.publication.dirty.len();
        let mut index: usize = 0;
        assert(touched.take(0) =~= Seq::empty());
        while index < count
            invariant
                index <= count,
                count == touched.len(),
                touched == replaced@.touched,
                lane == before@.lane,
                replaced.wf(),
                lane.len() == replaced@.lane.len(),
                self.parts_agree(),
                self@ == (DcCkfModel {
                    touched: carried(touched.take(index as int), lane),
                    ..before@
                }),
            decreases count - index,
        {
            let (bucket, published) = replaced.publication.dirty.touched_with_originals(index);
            proof {
                let done = touched.take(index as int);
                let next = touched.take(index + 1);
                assert(next.drop_last() =~= done);
                assert(next.last() == touched[index as int]);
                assert(distinct(done));
                lemma_carried(done, lane);
                if touches(carried(done, lane), bucket) {
                    let i = choose|i: int|
                        0 <= i < carried(done, lane).len() && #[trigger] carried(done, lane)[i].0
                            == bucket;
                    assert(carried(done, lane).contains(carried(done, lane)[i]));
                    let j = choose|j: int|
                        0 <= j < done.len() && done[j] == carried(done, lane)[i];
                    assert(touched[j].0 != touched[index as int].0);
                }
            }
            if self.filter.load_bucket(bucket).0 != published.0 {
                self.publication.dirty.mark(bucket, published);
            }
            index = index + 1;
            assert(self@ =~= (DcCkfModel {
                touched: carried(touched.take(index as int), lane),
                ..before@
            }));
        }
        assert(touched.take(count as int) =~= touched);
        let bucket_count: usize = replaced.format.bucket_count;
        let mut bucket: usize = 0;
        assert(carried(touched, lane) + differing(touched, replaced@.lane, lane, 0) =~= carried(
            touched,
            lane,
        ));
        while bucket < bucket_count
            invariant
                bucket <= bucket_count,
                bucket_count == lane.len(),
                touched == replaced@.touched,
                lane == before@.lane,
                replaced.wf(),
                lane.len() == replaced@.lane.len(),
                self.parts_agree(),
                self@ == (DcCkfModel {
                    touched: carried(touched, lane) + differing(
                        touched,
                        replaced@.lane,
                        lane,
                        bucket as int,
                    ),
                    ..before@
                }),
            decreases bucket_count - bucket,
        {
            let ghost done = carried(touched, lane) + differing(
                touched,
                replaced@.lane,
                lane,
                bucket as int,
            );
            if !replaced.publication.dirty.contains(bucket) {
                let word: PackedBucket = replaced.filter.load_bucket(bucket);
                if word.0 != self.filter.load_bucket(bucket).0 {
                    proof {
                        lemma_carried(touched, lane);
                        lemma_differing(touched, replaced@.lane, lane, bucket as int);
                        if touches(done, bucket) {
                            let i = choose|i: int|
                                0 <= i < done.len() && #[trigger] done[i].0 == bucket;
                            let kept = carried(touched, lane);
                            let added = differing(touched, replaced@.lane, lane, bucket as int);
                            if i < kept.len() {
                                assert(kept.contains(kept[i]));
                                let j = choose|j: int|
                                    0 <= j < touched.len() && touched[j] == kept[i];
                                assert(touched[j].0 == bucket);
                            } else {
                                assert(added.contains(added[i - kept.len()]));
                            }
                        }
                    }
                    self.publication.dirty.mark(bucket, word);
                    assert(marked(done, (bucket, word.0)) == done.push((bucket, word.0)));
                }
            }
            bucket = bucket + 1;
            assert(self@ =~= (DcCkfModel {
                touched: carried(touched, lane) + differing(
                    touched,
                    replaced@.lane,
                    lane,
                    bucket as int,
                ),
                ..before@
            }));
        }
    }

    /// Copies what every member but one owns into a state that is being
    /// rebuilt, up to the first error.
    fn copy_others(&self, key: u128, replacement: &mut Self, Ghost(wanted): Ghost<Set<u64>>) -> (refused: Option<
        KvCacheEventError,
    >)
        requires
            self.wf(),
            old(replacement).wf(),
            old(replacement)@ == DcCkfModel::initial(self@.config, self@.addressing),
        ensures
            final(replacement).wf(),
            final(replacement)@.config == self@.config,
            final(replacement)@.addressing == self@.addressing,
            match refused {
                None => exists|done: Seq<u128>, pairs: Seq<(u128, u64)>, grants: Seq<bool>|
                    done.to_set() == self@.members.dom() && #[trigger] self@.is_copied(
                        key,
                        done,
                        pairs,
                        grants,
                        final(replacement)@,
                    ),
                Some(error) => exists|pairs: Seq<(u128, u64)>, grants: Seq<bool>| #[trigger]
                    self@.is_refused(key, wanted, pairs, grants, error),
            },
    {
        let ghost mut pairs: Seq<(u128, u64)> = Seq::empty();
        let ghost mut grants: Seq<bool> = Seq::empty();
        let keys: Vec<u128> = map_keys(&self.member_blocks);
        let mut index: usize = 0;
        proof {
            self@.lemma_copied_nothing(key);
            assert(self.member_blocks@.dom() =~= self@.members.dom());
            assert(keys@.take(0) =~= Seq::empty());
        }
        while index < keys.len()
            invariant
                index <= keys@.len(),
                keys@.no_duplicates(),
                keys@.to_set() == self@.members.dom(),
                self.wf(),
                replacement.wf(),
                self@.is_copied(key, keys@.take(index as int), pairs, grants, replacement@),
            decreases keys@.len() - index,
        {
            let member: u128 = keys[index];
            let ghost done = keys@.take(index as int);
            let ghost before = replacement@;
            proof {
                assert(keys@.to_set().contains(member));
                assert(self@.members.contains_key(member));
                assert(keys@.take(index + 1) =~= done.push(member));
            }
            if member == key {
                proof {
                    self@.lemma_copied_skip(key, done, pairs, grants, replacement@);
                }
            } else {
                let owner = WorkerWithDpRank::from_key(member);
                let blocks: Vec<u64> = self.member_hashes(owner);
                proof {
                    self@.lemma_copied_state(
                        key,
                        done,
                        pairs,
                        grants,
                        replacement@,
                        member,
                        blocks@,
                    );
                }
                let refused = replacement.store_listed(
                    owner,
                    &blocks,
                    Ghost(pairs),
                    Ghost(grants),
                );
                proof {
                    let (count, all_grants) = choose|count: int, all_grants: Seq<bool>| #[trigger]
                        replacement@.is_rebuilt_from(
                            pairs,
                            member,
                            blocks@,
                            count,
                            all_grants,
                            refused,
                        ) && (refused is None ==> count == blocks@.len());
                    if done.contains(member) {
                        let i = choose|i: int| 0 <= i < done.len() && done[i] == member;
                        assert(keys@[i] == keys@[index as int]);
                    }
                    self@.lemma_copied_member(
                        key,
                        wanted,
                        done,
                        pairs,
                        grants,
                        before,
                        member,
                        blocks@,
                        count,
                        all_grants,
                        refused,
                        replacement@,
                    );
                    pairs = pairs + listed(member, blocks@.take(count));
                    grants = all_grants;
                }
                if refused.is_some() {
                    return refused;
                }
            }
            index = index + 1;
        }
        proof {
            assert(keys@.take(index as int) =~= keys@);
            self@.lemma_copied_state(key, keys@, pairs, grants, replacement@, key, Seq::empty());
        }
        None
    }

    /// Builds the state in which a member owns other blocks, up to the first
    /// error.
    fn rebuild(&self, worker: WorkerWithDpRank, hashes: &FxHashSet<u64>) -> (result: Result<
        Self,
        KvCacheEventError,
    >)
        requires
            self.wf(),
        ensures
            hashes@.finite() || result is Err,
            match result {
                Ok(replacement) => {
                    &&& replacement.wf()
                    &&& exists|pairs: Seq<(u128, u64)>, grants: Seq<bool>| #[trigger]
                        self@.is_accepted(
                            worker.spec_key(),
                            hashes@,
                            pairs,
                            grants,
                            replacement@,
                        )
                },
                Err(error) => (error == KvCacheEventError::CapacityExhausted && build_room_refused(
                    self@.config,
                )) || exists|pairs: Seq<(u128, u64)>, grants: Seq<bool>| #[trigger]
                    self@.is_refused(worker.spec_key(), hashes@, pairs, grants, error),
            },
    {
        let replacement = match Self::new(self.config) {
            Ok(replacement) => replacement,
            Err(_) => {
                return Err(KvCacheEventError::CapacityExhausted);
            },
        };
        proof {
            replacement@.addressing.lemma_determined(self@.addressing);
        }
        self.rebuild_in(replacement, worker, hashes)
    }

    /// Builds the state in which a member owns other blocks in a new one, up
    /// to the first error.
    fn rebuild_in(
        &self,
        replacement: Self,
        worker: WorkerWithDpRank,
        hashes: &FxHashSet<u64>,
    ) -> (result: Result<Self, KvCacheEventError>)
        requires
            self.wf(),
            replacement.wf(),
            replacement@ == DcCkfModel::initial(self@.config, self@.addressing),
        ensures
            hashes@.finite() || result is Err,
            match result {
                Ok(rebuilt) => {
                    &&& rebuilt.wf()
                    &&& exists|pairs: Seq<(u128, u64)>, grants: Seq<bool>| #[trigger]
                        self@.is_accepted(
                            worker.spec_key(),
                            hashes@,
                            pairs,
                            grants,
                            rebuilt@,
                        )
                },
                Err(error) => exists|pairs: Seq<(u128, u64)>, grants: Seq<bool>| #[trigger]
                    self@.is_refused(worker.spec_key(), hashes@, pairs, grants, error),
            },
    {
        let key: u128 = worker.key();
        let mut replacement = replacement;
        if let Some(error) = self.copy_others(key, &mut replacement, Ghost(hashes@)) {
            proof {
                let (pairs, grants) = choose|pairs: Seq<(u128, u64)>, grants: Seq<bool>| #[trigger]
                    self@.is_refused(key, hashes@, pairs, grants, error);
                assert(self@.is_refused(worker.spec_key(), hashes@, pairs, grants, error));
            }
            return Err(error);
        }
        let ghost before = replacement@;
        let ghost (done, pairs, grants) = choose|
            done: Seq<u128>,
            pairs: Seq<(u128, u64)>,
            grants: Seq<bool>,
        |
            done.to_set() == self@.members.dom() && #[trigger] self@.is_copied(
                key,
                done,
                pairs,
                grants,
                before,
            );
        let mut blocks: Vec<u64> = Vec::new();
        set_append_to(hashes, &mut blocks);
        proof {
            assert(blocks@.skip(0) =~= blocks@);
            self@.lemma_copied_state(key, done, pairs, grants, before, key, blocks@);
        }
        let refused = replacement.store_listed(worker, &blocks, Ghost(pairs), Ghost(grants));
        proof {
            let (count, all_grants) = choose|count: int, all_grants: Seq<bool>| #[trigger]
                replacement@.is_rebuilt_from(
                    pairs,
                    key,
                    blocks@,
                    count,
                    all_grants,
                    refused,
                ) && (refused is None ==> count == blocks@.len());
            self@.lemma_copied_all(
                key,
                hashes@,
                done,
                pairs,
                grants,
                before,
                blocks@,
                count,
                all_grants,
                refused,
                replacement@,
            );
            let all = pairs + listed(key, blocks@.take(count));
            match refused {
                None => {
                    assert(self@.is_accepted(
                        worker.spec_key(),
                        hashes@,
                        all,
                        all_grants,
                        replacement@,
                    ));
                },
                Some(error) => {
                    assert(self@.is_refused(
                        worker.spec_key(),
                        hashes@,
                        all,
                        all_grants,
                        error,
                    ));
                },
            }
        }
        match refused {
            None => Ok(replacement),
            Some(error) => Err(error),
        }
    }

    /// Replaces everything that a member owns and publishes what changed. The
    /// new state is built aside: if the allocator or the lane refuses it,
    /// nothing changes.
    pub fn replace_rank(&mut self, worker: WorkerWithDpRank, hashes: FxHashSet<u64>) -> (result: Result<
        Option<DcCkfDelta>,
        KvCacheEventError,
    >)
        requires
            old(self).wf(),
        ensures
            final(self).wf(),
            old(self)@.may_replace_rank(
                worker.spec_key(),
                hashes@,
                final(self)@,
                result_model(result),
            ),
    {
        let ghost before = self@;
        let ghost key = worker.spec_key();
        let replacement = match self.rebuild(worker, &hashes) {
            Ok(replacement) => replacement,
            Err(error) => {
                return Err(error);
            },
        };
        let ghost rebuilt = replacement@;
        let ghost (pairs, grants) = choose|pairs: Seq<(u128, u64)>, grants: Seq<bool>| #[trigger]
            before.is_accepted(key, hashes@, pairs, grants, rebuilt);
        proof {
            law_member_keys_order_members(worker, worker);
            before.lemma_replaced(key, hashes@, pairs, grants, rebuilt);
            before.replaced_by(rebuilt).lemma_drained();
            assert(before.is_accepted(key, hashes@, pairs, grants, rebuilt));
        }
        Ok(self.install(replacement))
    }

    /// Takes over a rebuilt state and publishes what changed for subscribers.
    fn install(&mut self, replacement: Self) -> (delta: Option<DcCkfDelta>)
        requires
            old(self).wf(),
            replacement.wf(),
            replacement@.lane.len() == old(self)@.lane.len(),
            old(self)@.replaced_by(replacement@).inv(),
        ensures
            final(self).wf(),
            (final(self)@, delta_model(delta)) == old(self)@.replaced_by(replacement@).drained(),
    {
        let ghost before = self@;
        let ghost rebuilt = replacement@;
        let mut replacement = replacement;
        replacement.rebase_window(self);
        replacement.publication.sequence = self.publication.sequence;
        replacement.publication.published_nonempty = self.publication.published_nonempty;
        replacement.publication.pending_events = 1;
        let physical_touches: u64 = self.telemetry.physical_touches.saturating_add(
            replacement.telemetry.physical_touches,
        );
        replacement.telemetry = self.telemetry;
        replacement.telemetry.physical_touches = physical_touches;
        assert(replacement@ =~= before.replaced_by(rebuilt));
        *self = replacement;
        self.drain_publication()
    }

    /// Counts every owned block once per owner, and the room in all members'
    /// sets. Sums that a `usize` cannot hold count as the largest one.
    fn count_contributions(&self) -> (counts: (usize, usize))
        requires
            self.wf(),
        ensures
            counts.0 == saturated(contributions(self@.members).len() as int),
            counts.1 >= counts.0,
    {
        let keys: Vec<u128> = map_keys(&self.member_blocks);
        let mut blocks: usize = 0;
        let mut room: usize = 0;
        let mut index: usize = 0;
        proof {
            assert(self.member_blocks@.dom() =~= self@.members.dom());
            assert(keys@.take(0) =~= Seq::empty());
            lemma_no_contributions(self@.members);
        }
        while index < keys.len()
            invariant
                index <= keys@.len(),
                self.wf(),
                keys@.no_duplicates(),
                keys@.to_set() == self@.members.dom(),
                contributions_of(self@.members, keys@.take(index as int)).finite(),
                blocks == saturated(
                    contributions_of(self@.members, keys@.take(index as int)).len() as int,
                ),
                room >= blocks,
            decreases keys@.len() - index,
        {
            let key: u128 = keys[index];
            proof {
                let done = keys@.take(index as int);
                assert(keys@.to_set().contains(key));
                assert(self@.members.contains_key(key));
                assert(keys@.take(index + 1) =~= done.push(key));
                if done.contains(key) {
                    let i = choose|i: int| 0 <= i < done.len() && done[i] == key;
                    assert(keys@[i] == keys@[index as int]);
                }
                lemma_contributions_of_one_more(self@.members, done, key);
            }
            if let Some(member) = map_get(&self.member_blocks, key) {
                blocks = blocks.saturating_add(set_len(member));
                room = room.saturating_add(set_capacity(member));
            }
            index = index + 1;
        }
        proof {
            assert(keys@.take(index as int) =~= keys@);
            lemma_contributions_of_all(self@.members, keys@);
        }
        (blocks, room)
    }

    /// Counts the buckets and the slots that are in use.
    fn count_occupied(&self) -> (counts: (usize, usize))
        requires
            self.wf(),
        ensures
            counts.0 == buckets_in_use(self@.lane),
            counts.1 == slots_in_use(self@.lane),
    {
        let ghost lane = self@.lane;
        let count: usize = self.format.bucket_count;
        let mut buckets: usize = 0;
        let mut slots: usize = 0;
        let mut bucket: usize = 0;
        proof {
            self@.addressing.lemma_bucket_count();
            assert(lane.take(0) =~= Seq::empty());
        }
        while bucket < count
            invariant
                bucket <= count,
                count == lane.len(),
                count <= usize::MAX / 64,
                lane == self@.lane,
                buckets <= bucket,
                slots <= 4 * bucket,
                buckets == buckets_in_use(lane.take(bucket as int)),
                slots == slots_in_use(lane.take(bucket as int)),
            decreases count - bucket,
        {
            let value: PackedBucket = self.filter.load_bucket(bucket);
            proof {
                let next = lane.take(bucket + 1);
                assert(next.drop_last() =~= lane.take(bucket as int));
                assert(next.last() == value.0);
            }
            if value.0 != 0 {
                buckets = buckets + 1;
            }
            slots = slots + value.occupied();
            bucket = bucket + 1;
        }
        assert(lane.take(count as int) =~= lane);
        (buckets, slots)
    }

    /// Counters and sizes. How much room the tables and lists have beyond
    /// what they hold is up to the machine.
    pub fn stats(&self) -> (stats: DcCkfStats)
        requires
            self.wf(),
        ensures
            self@.is_stats(stats),
            stats.memory.insertion_scratch_capacity >= self.recorded_writes(),
    {
        proof {
            self@.addressing.lemma_bucket_count();
            assert(self.member_blocks@.dom() =~= self@.members.dom());
        }
        let (contribution_count, member_set_capacity) = self.count_contributions();
        let (occupied_bucket_count, occupied_slot_count) = self.count_occupied();
        DcCkfStats {
            aggregation: DcCkfAggregationStats {
                member_count: map_len(&self.member_blocks),
                contribution_count,
                unique_block_count: map_len(&self.dc_refcounts),
                unknown_removals: self.telemetry.unknown_removals,
                capacity_failures: self.telemetry.capacity_failures,
                occupied_bucket_count,
                occupied_slot_count,
            },
            publication: DcCkfPublicationStats {
                sequence: self.publication.sequence,
                pending_events: self.publication.pending_events,
                physical_touches: self.telemetry.physical_touches,
                distinct_touched_buckets: self.telemetry.distinct_touched_buckets,
                emitted_images: self.telemetry.emitted_images,
                net_reverted_buckets: self.telemetry.net_reverted_buckets,
                reset_count: self.telemetry.reset_count,
            },
            memory: DcCkfMemoryStats {
                member_set_capacity,
                refcount_capacity: map_capacity(&self.dc_refcounts),
                filter_bytes: self.filter.byte_len(),
                dirty_tracking_bytes: self.publication.dirty.byte_len(),
                insertion_scratch_capacity: self.insertion_scratch.capacity(),
            },
        }
    }

    /// Every member with the number of blocks that it owns, ordered by worker
    /// first and by rank second.
    pub fn member_counts(&self) -> (counts: Vec<(WorkerWithDpRank, usize)>)
        requires
            self.wf(),
        ensures
            self@.is_member_counts(counts@),
    {
        let mut keys: Vec<u128> = map_keys(&self.member_blocks);
        sort_distinct(&mut keys);
        let mut counts: Vec<(WorkerWithDpRank, usize)> = Vec::new();
        let mut index: usize = 0;
        assert(self.member_blocks@.dom() =~= self@.members.dom());
        while index < keys.len()
            invariant
                index <= keys@.len(),
                self.wf(),
                keys@.to_set() == self@.members.dom(),
                forall|i: int, j: int| 0 <= i < j < keys@.len() ==> keys@[i] < keys@[j],
                counts@.len() == index,
                forall|i: int|
                    0 <= i < index ==> (#[trigger] counts@[i]).0.spec_key() == keys@[i]
                        && self@.members.contains_key(keys@[i]) && counts@[i].1
                        == self@.members[keys@[i]].len(),
            decreases keys@.len() - index,
        {
            let key: u128 = keys[index];
            assert(keys@.to_set().contains(key));
            assert(self@.members.contains_key(key));
            let worker = WorkerWithDpRank::from_key(key);
            counts.push((worker, self.member_block_count(worker)));
            index = index + 1;
        }
        assert forall|key: u128| #[trigger] self@.members.contains_key(key) implies exists|i: int|
            0 <= i < counts@.len() && (#[trigger] counts@[i]).0.spec_key() == key by {
            assert(keys@.to_set().contains(key));
            let i = choose|i: int| 0 <= i < keys@.len() && keys@[i] == key;
            assert(counts@[i].0.spec_key() == key);
        }
        counts
    }
}

/// Keeps an error unless there is one already.
pub fn retain_first_error(slot: &mut Option<KvCacheEventError>, error: KvCacheEventError)
    ensures
        *final(slot) == first_of(*old(slot), Some(error)),
{
    if slot.is_none() {
        *slot = Some(error);
    }
}

} // verus!
