//! Sizing of a cuckoo filter lane.
use vstd::arithmetic::power2::pow2;
use vstd::prelude::*;

verus! {

/// Seed of a configuration that does not choose its own.
pub const DEFAULT_SEED: u64 = 0x51_7c_c1_b7_27_22_0a_95;

/// Longest relocation chain of a configuration that does not choose its own.
pub const DEFAULT_MAX_KICKS: usize = 256;

/// Blocks that one bucket is planned for: three of its four slots.
pub const PLANNED_BLOCKS_PER_BUCKET: usize = 3;

/// Largest number of buckets that sizing may ask for before rounding up.
pub const MAX_PLANNED_BUCKETS: usize = usize::MAX / 128;

/// Why a filter could not be built.
#[derive(Debug, Clone, Copy, PartialEq, Eq, Structural)]
pub enum CkfBuildError {
    ZeroExpectedBlocks,
    ZeroPublicationInterval,
    CapacityOverflow,
    AllocationFailed,
}

/// How a filter is sized and how often it publishes.
#[derive(Debug, Clone, Copy, PartialEq, Eq, Structural)]
pub struct CkfConfig {
    pub expected_blocks_per_dc: usize,
    pub seed: u64,
    pub max_kicks: usize,
    pub publish_every_n_events: usize,
}

impl CkfConfig {
    /// A configuration for the given number of blocks that publishes after
    /// every event.
    pub fn new(expected_blocks_per_dc: usize) -> (config: Self)
        ensures
            config.expected_blocks_per_dc == expected_blocks_per_dc,
            config.seed == DEFAULT_SEED,
            config.max_kicks == DEFAULT_MAX_KICKS,
            config.publish_every_n_events == 1,
    {
        CkfConfig {
            expected_blocks_per_dc,
            seed: DEFAULT_SEED,
            max_kicks: DEFAULT_MAX_KICKS,
            publish_every_n_events: 1,
        }
    }

    /// What is wrong with this configuration, if anything.
    pub open spec fn fault(self) -> Option<CkfBuildError> {
        if self.expected_blocks_per_dc == 0 {
            Some(CkfBuildError::ZeroExpectedBlocks)
        } else if self.publish_every_n_events == 0 {
            Some(CkfBuildError::ZeroPublicationInterval)
        } else if planned_buckets(self.expected_blocks_per_dc) > MAX_PLANNED_BUCKETS {
            Some(CkfBuildError::CapacityOverflow)
        } else {
            None
        }
    }
}

/// Rejects a configuration that names no blocks or no publication interval.
pub fn validate_config(config: CkfConfig) -> (result: Result<(), CkfBuildError>)
    ensures
        result == (if config.expected_blocks_per_dc == 0 {
            Err(CkfBuildError::ZeroExpectedBlocks)
        } else if config.publish_every_n_events == 0 {
            Err(CkfBuildError::ZeroPublicationInterval)
        } else {
            Ok::<(), CkfBuildError>(())
        }),
{
    if config.expected_blocks_per_dc == 0 {
        return Err(CkfBuildError::ZeroExpectedBlocks);
    }
    if config.publish_every_n_events == 0 {
        return Err(CkfBuildError::ZeroPublicationInterval);
    }
    Ok(())
}

/// Buckets that the expected blocks ask for before rounding.
pub open spec fn planned_buckets(expected: usize) -> int {
    (expected + PLANNED_BLOCKS_PER_BUCKET - 1) / PLANNED_BLOCKS_PER_BUCKET as int
}

/// Whether `count` is a power of two that a lane can have as its size.
pub open spec fn is_lane_size(count: int) -> bool {
    &&& 2 <= count <= usize::MAX / 64
    &&& count <= 0x0400_0000_0000_0000
    &&& ((count - 1) as u64) & (count as u64) == 0
}

/// The first number that is no smaller than `target` among `count` and what
/// repeated doubling makes of it.
pub open spec fn doubled_up_to(count: int, target: int) -> int
    decreases 2 * target - count,
{
    if count >= target || count <= 0 {
        count
    } else {
        doubled_up_to(2 * count, target)
    }
}

/// Buckets of a lane for the expected number of blocks: the least power of
/// two, two at least, that is no smaller than the planned number.
pub open spec fn lane_size(expected: usize) -> int {
    doubled_up_to(2, planned_buckets(expected))
}

/// Sizes a lane: the least power of two, two at least, that is no smaller than
/// the planned number of buckets.
pub fn bucket_count(expected: usize) -> (result: Result<usize, CkfBuildError>)
    ensures
        match result {
            Ok(count) => {
                &&& planned_buckets(expected) <= MAX_PLANNED_BUCKETS
                &&& count == lane_size(expected)
                &&& is_lane_size(count as int)
                &&& planned_buckets(expected) <= count
                &&& exists|bits: nat|
                    #![trigger pow2(bits)]
                    bits >= 1 && count == pow2(bits) && (bits > 1 ==> pow2((bits - 1) as nat)
                        < planned_buckets(expected))
            },
            Err(error) => error == CkfBuildError::CapacityOverflow && planned_buckets(expected)
                > MAX_PLANNED_BUCKETS,
        },
{
    let mut planned: usize = expected / PLANNED_BLOCKS_PER_BUCKET;
    if expected % PLANNED_BLOCKS_PER_BUCKET != 0 {
        planned = planned + 1;
    }
    if planned > MAX_PLANNED_BUCKETS {
        return Err(CkfBuildError::CapacityOverflow);
    }
    let mut count: usize = 2;
    let ghost mut bits: nat = 1;
    proof {
        vstd::arithmetic::power2::lemma2_to64();
        assert(1u64 & 2u64 == 0) by (bit_vector);
    }
    while count < planned
        invariant
            is_lane_size(count as int),
            doubled_up_to(count as int, planned as int) == lane_size(expected),
            planned == planned_buckets(expected),
            planned <= MAX_PLANNED_BUCKETS,
            bits >= 1,
            count == pow2(bits),
            bits > 1 ==> pow2((bits - 1) as nat) < planned,
        decreases 2 * planned - count,
    {
        proof {
            vstd::arithmetic::power2::lemma_pow2_unfold(bits + 1);
            let c = count as u64;
            assert(((2 * c - 1) as u64) & ((2 * c) as u64) == 0) by (bit_vector)
                requires
                    ((c - 1) as u64) & c == 0,
                    2 <= c < 0x0400_0000_0000_0000,
            ;
            bits = bits + 1;
        }
        count = count * 2;
    }
    Ok(count)
}

/// What sizing asks for is a lane size.
pub proof fn lemma_lane_size(expected: usize)
    requires
        planned_buckets(expected) <= MAX_PLANNED_BUCKETS,
    ensures
        is_lane_size(lane_size(expected)),
        planned_buckets(expected) <= lane_size(expected),
{
    assert(1u64 & 2u64 == 0) by (bit_vector);
    lemma_doubled_up_to(2, planned_buckets(expected));
}

/// Doubling leads from one lane size to another.
proof fn lemma_doubled_up_to(count: int, target: int)
    requires
        is_lane_size(count),
        target <= MAX_PLANNED_BUCKETS,
    ensures
        is_lane_size(doubled_up_to(count, target)),
        target <= doubled_up_to(count, target),
    decreases 2 * target - count,
{
    if count < target {
        let c = count as u64;
        assert(((2 * c - 1) as u64) & ((2 * c) as u64) == 0) by (bit_vector)
            requires
                ((c - 1) as u64) & c == 0,
                2 <= c < 0x0400_0000_0000_0000,
        ;
        lemma_doubled_up_to(2 * count, target);
    }
}

} // verus!
