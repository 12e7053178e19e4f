//! What subscribers and operators are shown of the filter.
use crate::protocol::KvCacheEventError;
use vstd::prelude::*;

verus! {

/// Version of the published layout.
pub const FORMAT_VERSION: u16 = 1;

/// Everything that a reader needs to interpret published buckets.
#[derive(Debug, Clone, Copy, PartialEq, Eq, Structural)]
pub struct DcCkfFormatIdentity {
    pub format_version: u16,
    pub seed: u64,
    pub bucket_count: usize,
    pub fingerprint_bits: u8,
    pub slots_per_bucket: u8,
}

impl DcCkfFormatIdentity {
    pub fn format_version(&self) -> (version: u16)
        ensures
            version == self.format_version,
    {
        self.format_version
    }

    pub fn seed(&self) -> (seed: u64)
        ensures
            seed == self.seed,
    {
        self.seed
    }

    pub fn bucket_count(&self) -> (count: usize)
        ensures
            count == self.bucket_count,
    {
        self.bucket_count
    }

    pub fn fingerprint_bits(&self) -> (bits: u8)
        ensures
            bits == self.fingerprint_bits,
    {
        self.fingerprint_bits
    }

    pub fn slots_per_bucket(&self) -> (slots: u8)
        ensures
            slots == self.slots_per_bucket,
    {
        self.slots_per_bucket
    }
}

/// The absolute content of one bucket.
#[derive(Debug, Clone, Copy, PartialEq, Eq, Structural)]
pub struct DcCkfBucketImage {
    pub bucket: usize,
    pub value: u64,
}

impl DcCkfBucketImage {
    pub fn bucket(&self) -> (bucket: usize)
        ensures
            bucket == self.bucket,
    {
        self.bucket
    }

    pub fn value(&self) -> (value: u64)
        ensures
            value == self.value,
    {
        self.value
    }
}

/// Complete physical base for one producer sequence.
#[derive(Debug, Clone, PartialEq, Eq)]
pub struct DcCkfSnapshot {
    pub(crate) sequence: u64,
    pub(crate) format: DcCkfFormatIdentity,
    pub(crate) buckets: Vec<u64>,
}

/// What a snapshot says.
#[verifier::ext_equal]
pub struct SnapshotModel {
    pub sequence: u64,
    pub format: DcCkfFormatIdentity,
    pub buckets: Seq<u64>,
}

impl View for DcCkfSnapshot {
    type V = SnapshotModel;

    closed spec fn view(&self) -> SnapshotModel {
        SnapshotModel { sequence: self.sequence, format: self.format, buckets: self.buckets@ }
    }
}

impl DcCkfSnapshot {
    pub(crate) fn new(sequence: u64, format: DcCkfFormatIdentity, buckets: Vec<u64>) -> (snapshot: Self)
        ensures
            snapshot@ == (SnapshotModel { sequence, format, buckets: buckets@ }),
    {
        DcCkfSnapshot { sequence, format, buckets }
    }

    pub fn sequence(&self) -> (sequence: u64)
        ensures
            sequence == self@.sequence,
    {
        self.sequence
    }

    pub fn format(&self) -> (format: DcCkfFormatIdentity)
        ensures
            format == self@.format,
    {
        self.format
    }

    pub fn buckets(&self) -> (buckets: &[u64])
        ensures
            buckets@ == self@.buckets,
    {
        self.buckets.as_slice()
    }
}

/// Ordered absolute-image update extending one [`DcCkfSnapshot`] layout.
#[derive(Debug, Clone, PartialEq, Eq)]
pub struct DcCkfDelta {
    pub(crate) base_sequence: u64,
    pub(crate) sequence: u64,
    pub(crate) reset: bool,
    pub(crate) images: Vec<DcCkfBucketImage>,
}

/// What a delta says.
#[verifier::ext_equal]
pub struct DeltaModel {
    pub base_sequence: u64,
    pub sequence: u64,
    pub reset: bool,
    pub images: Seq<DcCkfBucketImage>,
}

/// A lane with images written into it in order.
pub open spec fn with_images(lane: Seq<u64>, images: Seq<DcCkfBucketImage>) -> Seq<u64>
    decreases images.len(),
{
    if images.len() == 0 {
        lane
    } else {
        with_images(lane, images.drop_last()).update(
            images.last().bucket as int,
            images.last().value,
        )
    }
}

impl DeltaModel {
    /// The lane that a reader has after this delta: a reset empties every
    /// bucket, and the images then overwrite theirs.
    pub open spec fn applied_to(self, lane: Seq<u64>) -> Seq<u64> {
        with_images(
            if self.reset {
                Seq::new(lane.len(), |i: int| 0u64)
            } else {
                lane
            },
            self.images,
        )
    }
}

impl View for DcCkfDelta {
    type V = DeltaModel;

    closed spec fn view(&self) -> DeltaModel {
        DeltaModel {
            base_sequence: self.base_sequence,
            sequence: self.sequence,
            reset: self.reset,
            images: self.images@,
        }
    }
}

/// What an optional delta says.
pub open spec fn delta_model(delta: Option<DcCkfDelta>) -> Option<DeltaModel> {
    match delta {
        Some(delta) => Some(delta@),
        None => None,
    }
}

impl DcCkfDelta {
    pub(crate) fn new(
        base_sequence: u64,
        sequence: u64,
        reset: bool,
        images: Vec<DcCkfBucketImage>,
    ) -> (delta: Self)
        ensures
            delta@ == (DeltaModel { base_sequence, sequence, reset, images: images@ }),
    {
        DcCkfDelta { base_sequence, sequence, reset, images }
    }

    pub fn base_sequence(&self) -> (sequence: u64)
        ensures
            sequence == self@.base_sequence,
    {
        self.base_sequence
    }

    pub fn sequence(&self) -> (sequence: u64)
        ensures
            sequence == self@.sequence,
    {
        self.sequence
    }

    pub fn reset(&self) -> (reset: bool)
        ensures
            reset == self@.reset,
    {
        self.reset
    }

    pub fn images(&self) -> (images: &[DcCkfBucketImage])
        ensures
            images@ == self@.images,
    {
        self.images.as_slice()
    }
}

/// Counters and sizes of a filter.
#[derive(Debug, Clone, Copy, Default, PartialEq, Eq, Structural)]
#[non_exhaustive]
pub struct DcCkfStats {
    pub aggregation: DcCkfAggregationStats,
    pub publication: DcCkfPublicationStats,
    pub memory: DcCkfMemoryStats,
}

impl DcCkfStats {
    pub fn aggregation(&self) -> (aggregation: DcCkfAggregationStats)
        ensures
            aggregation == self.aggregation,
    {
        self.aggregation
    }

    pub fn publication(&self) -> (publication: DcCkfPublicationStats)
        ensures
            publication == self.publication,
    {
        self.publication
    }

    pub fn memory(&self) -> (memory: DcCkfMemoryStats)
        ensures
            memory == self.memory,
    {
        self.memory
    }
}

/// What is owned, and what the lane holds of it.
#[derive(Debug, Clone, Copy, Default, PartialEq, Eq, Structural)]
#[non_exhaustive]
pub struct DcCkfAggregationStats {
    pub member_count: usize,
    pub contribution_count: usize,
    pub unique_block_count: usize,
    pub unknown_removals: u64,
    pub capacity_failures: u64,
    pub occupied_bucket_count: usize,
    pub occupied_slot_count: usize,
}

impl DcCkfAggregationStats {
    pub fn member_count(&self) -> (count: usize)
        ensures
            count == self.member_count,
    {
        self.member_count
    }

    pub fn contribution_count(&self) -> (count: usize)
        ensures
            count == self.contribution_count,
    {
        self.contribution_count
    }

    pub fn unique_block_count(&self) -> (count: usize)
        ensures
            count == self.unique_block_count,
    {
        self.unique_block_count
    }

    pub fn unknown_removals(&self) -> (count: u64)
        ensures
            count == self.unknown_removals,
    {
        self.unknown_removals
    }

    pub fn capacity_failures(&self) -> (count: u64)
        ensures
            count == self.capacity_failures,
    {
        self.capacity_failures
    }

    pub fn occupied_bucket_count(&self) -> (count: usize)
        ensures
            count == self.occupied_bucket_count,
    {
        self.occupied_bucket_count
    }

    pub fn occupied_slot_count(&self) -> (count: usize)
        ensures
            count == self.occupied_slot_count,
    {
        self.occupied_slot_count
    }
}

/// How far publication got.
#[derive(Debug, Clone, Copy, Default, PartialEq, Eq, Structural)]
#[non_exhaustive]
pub struct DcCkfPublicationStats {
    pub sequence: u64,
    pub pending_events: usize,
    pub physical_touches: u64,
    pub distinct_touched_buckets: u64,
    pub emitted_images: u64,
    pub net_reverted_buckets: u64,
    pub reset_count: u64,
}

impl DcCkfPublicationStats {
    pub fn sequence(&self) -> (sequence: u64)
        ensures
            sequence == self.sequence,
    {
        self.sequence
    }

    pub fn pending_events(&self) -> (count: usize)
        ensures
            count == self.pending_events,
    {
        self.pending_events
    }

    pub fn physical_touches(&self) -> (count: u64)
        ensures
            count == self.physical_touches,
    {
        self.physical_touches
    }

    pub fn distinct_touched_buckets(&self) -> (count: u64)
        ensures
            count == self.distinct_touched_buckets,
    {
        self.distinct_touched_buckets
    }

    pub fn emitted_images(&self) -> (count: u64)
        ensures
            count == self.emitted_images,
    {
        self.emitted_images
    }

    pub fn net_reverted_buckets(&self) -> (count: u64)
        ensures
            count == self.net_reverted_buckets,
    {
        self.net_reverted_buckets
    }

    pub fn reset_count(&self) -> (count: u64)
        ensures
            count == self.reset_count,
    {
        self.reset_count
    }
}

/// How much memory the parts of a filter take.
#[derive(Debug, Clone, Copy, Default, PartialEq, Eq, Structural)]
#[non_exhaustive]
pub struct DcCkfMemoryStats {
    pub member_set_capacity: usize,
    pub refcount_capacity: usize,
    pub filter_bytes: usize,
    pub dirty_tracking_bytes: usize,
    pub insertion_scratch_capacity: usize,
}

impl DcCkfMemoryStats {
    pub fn member_set_capacity(&self) -> (capacity: usize)
        ensures
            capacity == self.member_set_capacity,
    {
        self.member_set_capacity
    }

    pub fn refcount_capacity(&self) -> (capacity: usize)
        ensures
            capacity == self.refcount_capacity,
    {
        self.refcount_capacity
    }

    pub fn filter_bytes(&self) -> (bytes: usize)
        ensures
            bytes == self.filter_bytes,
    {
        self.filter_bytes
    }

    pub fn dirty_tracking_bytes(&self) -> (bytes: usize)
        ensures
            bytes == self.dirty_tracking_bytes,
    {
        self.dirty_tracking_bytes
    }

    pub fn insertion_scratch_capacity(&self) -> (capacity: usize)
        ensures
            capacity == self.insertion_scratch_capacity,
    {
        self.insertion_scratch_capacity
    }
}

/// What one event led to.
#[derive(Debug)]
pub struct DcCkfEventOutcome {
    pub(crate) first_error: Option<KvCacheEventError>,
    pub(crate) delta: Option<DcCkfDelta>,
    pub(crate) unknown_removals: usize,
    pub(crate) publication_boundary: bool,
}

/// What an outcome says.
#[verifier::ext_equal]
pub struct OutcomeModel {
    pub first_error: Option<KvCacheEventError>,
    pub delta: Option<DeltaModel>,
    pub unknown_removals: int,
    pub publication_boundary: bool,
}

impl View for DcCkfEventOutcome {
    type V = OutcomeModel;

    closed spec fn view(&self) -> OutcomeModel {
        OutcomeModel {
            first_error: self.first_error,
            delta: delta_model(self.delta),
            unknown_removals: self.unknown_removals as int,
            publication_boundary: self.publication_boundary,
        }
    }
}

impl DcCkfEventOutcome {
    pub(crate) fn new(
        first_error: Option<KvCacheEventError>,
        delta: Option<DcCkfDelta>,
        unknown_removals: usize,
        publication_boundary: bool,
    ) -> (outcome: Self)
        ensures
            outcome@ == (OutcomeModel {
                first_error,
                delta: delta_model(delta),
                unknown_removals: unknown_removals as int,
                publication_boundary,
            }),
    {
        DcCkfEventOutcome { first_error, delta, unknown_removals, publication_boundary }
    }

    pub fn first_error(&self) -> (error: Option<&KvCacheEventError>)
        ensures
            error == (match self@.first_error {
                Some(error) => Some(&error),
                None => None,
            }),
    {
        self.first_error.as_ref()
    }

    pub fn delta(&self) -> (delta: Option<&DcCkfDelta>)
        ensures
            (match delta {
                Some(delta) => Some(delta@),
                None => None,
            }) == self@.delta,
    {
        self.delta.as_ref()
    }

    pub fn into_delta(self) -> (delta: Option<DcCkfDelta>)
        ensures
            delta_model(delta) == self@.delta,
    {
        self.delta
    }

    pub fn unknown_removals(&self) -> (count: usize)
        ensures
            count == self@.unknown_removals,
    {
        self.unknown_removals
    }

    pub fn publication_boundary(&self) -> (boundary: bool)
        ensures
            boundary == self@.publication_boundary,
    {
        self.publication_boundary
    }
}

} // verus!
