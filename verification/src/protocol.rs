//! What workers report about the blocks in their caches.
use vstd::prelude::*;

verus! {

/// Identifies one worker process.
pub type WorkerId = u64;

/// Index of one data-parallel rank inside a worker.
pub type DpRank = u32;

/// How many ranks one worker can have: the factor between worker ids in a
/// member's key.
pub const RANKS_PER_WORKER: u128 = 0x1_0000_0000;

/// First number above every member key.
pub const MEMBER_KEY_END: u128 = 0x1_0000_0000_0000_0000_0000_0000;

/// One rank of one worker: the owner of a set of blocks.
#[derive(Debug, Clone, Copy, PartialEq, Eq, Hash, PartialOrd, Ord, Structural)]
pub struct WorkerWithDpRank {
    pub worker_id: WorkerId,
    pub dp_rank: DpRank,
}

impl WorkerWithDpRank {
    pub fn new(worker_id: WorkerId, dp_rank: DpRank) -> (worker: Self)
        ensures
            worker.worker_id == worker_id,
            worker.dp_rank == dp_rank,
    {
        WorkerWithDpRank { worker_id, dp_rank }
    }

    /// The number that stands for this member in tables. Keys order members
    /// by worker first and by rank second.
    pub open spec fn spec_key(self) -> u128 {
        (self.worker_id * RANKS_PER_WORKER + self.dp_rank) as u128
    }

    /// Computes the number that stands for this member in tables.
    pub fn key(self) -> (key: u128)
        ensures
            key == self.spec_key(),
            key == self.worker_id * RANKS_PER_WORKER + self.dp_rank,
            key < MEMBER_KEY_END,
            member_worker(key) == self.worker_id,
            Self::spec_from_key(key) == self,
    {
        self.worker_id as u128 * RANKS_PER_WORKER + self.dp_rank as u128
    }

    /// The member that a key stands for.
    pub open spec fn spec_from_key(key: u128) -> Self {
        WorkerWithDpRank {
            worker_id: (key / RANKS_PER_WORKER) as u64,
            dp_rank: (key % RANKS_PER_WORKER) as u32,
        }
    }

    /// Recovers the member from its key.
    pub fn from_key(key: u128) -> (worker: Self)
        requires
            key < MEMBER_KEY_END,
        ensures
            worker == Self::spec_from_key(key),
            worker.spec_key() == key,
    {
        WorkerWithDpRank {
            worker_id: (key / RANKS_PER_WORKER) as u64,
            dp_rank: (key % RANKS_PER_WORKER) as u32,
        }
    }
}

/// The worker that the member behind a key belongs to.
pub open spec fn member_worker(key: u128) -> int {
    key as int / RANKS_PER_WORKER as int
}

/// Keys are the lexicographic order of members, and different members have
/// different keys.
pub proof fn law_member_keys_order_members(a: WorkerWithDpRank, b: WorkerWithDpRank)
    ensures
        (a.spec_key() < b.spec_key()) == (a.worker_id < b.worker_id || (a.worker_id == b.worker_id
            && a.dp_rank < b.dp_rank)),
        (a.spec_key() == b.spec_key()) == (a == b),
        a.spec_key() < MEMBER_KEY_END,
        member_worker(a.spec_key()) == a.worker_id,
{
}

/// Sequence-wide hash that names a block across workers.
#[derive(Debug, Clone, Copy, PartialEq, Eq, Hash, PartialOrd, Ord, Structural)]
pub struct ExternalSequenceBlockHash(pub u64);

/// Hash of the tokens of one block alone.
#[derive(Debug, Clone, Copy, PartialEq, Eq, Hash, PartialOrd, Ord, Structural)]
pub struct LocalBlockHash(pub u64);

/// Where a block is stored.
#[derive(Debug, Clone, Copy, PartialEq, Eq, Structural)]
pub enum StorageTier {
    Device,
    HostPinned,
    Disk,
    External,
}

/// One multimodal object that reaches into a block.
#[derive(Debug, Clone, PartialEq, Eq)]
pub struct BlockMmObjectInfo {
    pub mm_hash: u64,
    pub offsets: Vec<(usize, usize)>,
}

/// Multimodal content of a block.
#[derive(Debug, Clone, PartialEq, Eq)]
pub struct BlockExtraInfo {
    pub mm_objects: Vec<BlockMmObjectInfo>,
}

/// One block of a store event.
#[derive(Debug, Clone, PartialEq, Eq)]
pub struct KvCacheStoredBlockData {
    pub block_hash: ExternalSequenceBlockHash,
    pub tokens_hash: LocalBlockHash,
    pub mm_extra_info: Option<BlockExtraInfo>,
}

/// A run of blocks that a worker stored.
#[derive(Debug, Clone, PartialEq, Eq)]
pub struct KvCacheStoreData {
    pub parent_hash: Option<ExternalSequenceBlockHash>,
    pub start_position: Option<u32>,
    pub blocks: Vec<KvCacheStoredBlockData>,
}

impl KvCacheStoreData {
    /// The hashes of the stored blocks, in order.
    pub open spec fn hashes(self) -> Seq<u64> {
        self.blocks@.map_values(|block: KvCacheStoredBlockData| block.block_hash.0)
    }
}

/// Blocks that a worker evicted.
#[derive(Debug, Clone, PartialEq, Eq)]
pub struct KvCacheRemoveData {
    pub block_hashes: Vec<ExternalSequenceBlockHash>,
}

impl KvCacheRemoveData {
    /// The evicted hashes, in order.
    pub open spec fn hashes(self) -> Seq<u64> {
        self.block_hashes@.map_values(|hash: ExternalSequenceBlockHash| hash.0)
    }
}

/// What happened in a worker's cache.
#[derive(Debug, Clone, PartialEq, Eq)]
pub enum KvCacheEventData {
    Stored(KvCacheStoreData),
    Removed(KvCacheRemoveData),
    Cleared,
}

/// One numbered cache event of one rank.
#[derive(Debug, Clone, PartialEq, Eq)]
pub struct KvCacheEvent {
    pub event_id: u64,
    pub data: KvCacheEventData,
    pub dp_rank: DpRank,
}

/// A cache event with the worker and the storage tier it comes from.
#[derive(Debug, Clone, PartialEq, Eq)]
pub struct RouterEvent {
    pub worker_id: WorkerId,
    pub storage_tier: StorageTier,
    pub event: KvCacheEvent,
}

impl RouterEvent {
    /// An event of the device tier.
    pub fn new(worker_id: WorkerId, event: KvCacheEvent) -> (routed: Self)
        ensures
            routed.worker_id == worker_id,
            routed.storage_tier == StorageTier::Device,
            routed.event == event,
    {
        RouterEvent { worker_id, storage_tier: StorageTier::Device, event }
    }

    /// The member that the event speaks of.
    pub open spec fn member(self) -> WorkerWithDpRank {
        WorkerWithDpRank { worker_id: self.worker_id, dp_rank: self.event.dp_rank }
    }
}

/// Why a cache event could not be applied.
#[derive(Debug, Clone, Copy, PartialEq, Eq, Structural)]
pub enum KvCacheEventError {
    ParentBlockNotFound,
    BlockNotFound,
    InvalidBlockSequence,
    CapacityExhausted,
    IndexerInvariantViolation,
}

} // verus!
