//! Where a block's fingerprint may stand in a lane.
use crate::config::is_lane_size;
use vstd::prelude::*;

verus! {

/// Odd constant near the golden ratio, by which generator states advance.
pub const STATE_STEP: u64 = 0x9e37_79b9_7f4a_7c15;

/// First multiplier of the word mixing.
pub const FIRST_MULTIPLIER: u64 = 0xbf58_476d_1ce4_e5b9;

/// Second multiplier of the word mixing.
pub const SECOND_MULTIPLIER: u64 = 0x94d0_49bb_1331_11eb;

/// A fixed bijection on 64-bit words whose output bits each depend on every
/// input bit.
pub open spec fn mixed(word: u64) -> u64 {
    let a = (word ^ (word >> 30)).wrapping_mul(FIRST_MULTIPLIER);
    let b = (a ^ (a >> 27)).wrapping_mul(SECOND_MULTIPLIER);
    b ^ (b >> 31)
}

/// Computes the fixed mixing of a word.
pub fn mix64(word: u64) -> (result: u64)
    ensures
        result == mixed(word),
{
    let a: u64 = (word ^ (word >> 30)).wrapping_mul(FIRST_MULTIPLIER);
    let b: u64 = (a ^ (a >> 27)).wrapping_mul(SECOND_MULTIPLIER);
    b ^ (b >> 31)
}

/// Sixteen bits of a word, never zero: zero marks an empty slot.
pub open spec fn fingerprint_of(word: u64) -> u16 {
    let bits = (word >> 48) as u16;
    if bits == 0 {
        1
    } else {
        bits
    }
}

/// The fingerprint of a block and the two buckets that may hold it.
#[derive(Debug, Clone, Copy, PartialEq, Eq, Structural)]
pub struct CkfProbe {
    pub fingerprint: u16,
    pub bucket_a: usize,
    pub bucket_b: usize,
}

/// Maps blocks to fingerprints and buckets of a lane whose size is a power of
/// two.
#[derive(Debug, Clone, Copy)]
pub struct CkfAddressing {
    seed: u64,
    mask: u64,
}

impl CkfAddressing {
    /// The lane size is a power of two that a `usize` can hold.
    pub closed spec fn wf(self) -> bool {
        self.mask < 0x0400_0000_0000_0000 && is_lane_size(self.mask + 1)
    }

    /// Number of buckets in the lane.
    pub closed spec fn bucket_count(self) -> nat {
        (self.mask + 1) as nat
    }

    /// Seed that the block hashes are salted with.
    pub closed spec fn seed(self) -> u64 {
        self.seed
    }

    /// The bits that tell the two buckets of a fingerprint apart. The lowest
    /// is always among them.
    pub open spec fn displacement(self, fingerprint: u16) -> u64 {
        (mixed(fingerprint as u64) & ((self.bucket_count() - 1) as u64)) | 1
    }

    /// The other bucket that a fingerprint found in `bucket` may stand in.
    pub open spec fn spec_alternate(self, bucket: usize, fingerprint: u16) -> usize {
        (bucket as u64 ^ self.displacement(fingerprint)) as usize
    }

    /// Where the block with this hash may stand.
    pub open spec fn probe(self, hash: u64) -> CkfProbe {
        let word = mixed(hash ^ mixed(self.seed()));
        let bucket_a = (word & ((self.bucket_count() - 1) as u64)) as usize;
        CkfProbe {
            fingerprint: fingerprint_of(word),
            bucket_a,
            bucket_b: self.spec_alternate(bucket_a, fingerprint_of(word)),
        }
    }

    /// Addressing for a lane of `bucket_count` buckets.
    pub fn new(bucket_count: usize, seed: u64) -> (addressing: Self)
        requires
            is_lane_size(bucket_count as int),
        ensures
            addressing.wf(),
            addressing.bucket_count() == bucket_count,
            addressing.seed() == seed,
    {
        CkfAddressing { seed, mask: (bucket_count - 1) as u64 }
    }

    /// The number of buckets is a power of two that a `usize` can hold.
    pub proof fn lemma_bucket_count(self)
        requires
            self.wf(),
        ensures
            is_lane_size(self.bucket_count() as int),
    {
    }

    /// The number of buckets and the seed are all there is to an addressing.
    pub proof fn lemma_determined(self, other: Self)
        requires
            self.bucket_count() == other.bucket_count(),
            self.seed() == other.seed(),
        ensures
            self == other,
    {
    }

    /// Two buckets of a fingerprint are different, lie in the lane, and lead
    /// to each other.
    pub proof fn lemma_alternate(self, bucket: usize, fingerprint: u16)
        requires
            self.wf(),
            bucket < self.bucket_count(),
        ensures
            self.spec_alternate(bucket, fingerprint) < self.bucket_count(),
            self.spec_alternate(bucket, fingerprint) != bucket,
            self.spec_alternate(self.spec_alternate(bucket, fingerprint), fingerprint) == bucket,
    {
        let b = bucket as u64;
        let m = self.mask;
        let x = mixed(fingerprint as u64);
        assert((b ^ ((x & m) | 1)) <= m && (b ^ ((x & m) | 1)) != b && ((b ^ ((x & m) | 1)) ^ ((x
            & m) | 1)) == b) by (bit_vector)
            requires
                m & ((m + 1) as u64) == 0,
                1 <= m < 0x0400_0000_0000_0000,
                b <= m,
        ;
    }

    /// The other bucket that a fingerprint found in `bucket` may stand in.
    pub fn alternate(&self, bucket: usize, fingerprint: u16) -> (other: usize)
        requires
            self.wf(),
            bucket < self.bucket_count(),
        ensures
            other == self.spec_alternate(bucket, fingerprint),
            other < self.bucket_count(),
    {
        proof {
            self.lemma_alternate(bucket, fingerprint);
        }
        (bucket as u64 ^ ((mix64(fingerprint as u64) & self.mask) | 1)) as usize
    }

    /// A probe has a fingerprint and two different buckets of the lane, which
    /// lead to each other.
    pub proof fn lemma_probe(self, hash: u64)
        requires
            self.wf(),
        ensures
            self.probe(hash).fingerprint != 0,
            self.probe(hash).bucket_a < self.bucket_count(),
            self.probe(hash).bucket_b < self.bucket_count(),
            self.probe(hash).bucket_a != self.probe(hash).bucket_b,
            self.probe(hash).bucket_b == self.spec_alternate(
                self.probe(hash).bucket_a,
                self.probe(hash).fingerprint,
            ),
            self.probe(hash).bucket_a == self.spec_alternate(
                self.probe(hash).bucket_b,
                self.probe(hash).fingerprint,
            ),
    {
        let word = mixed(hash ^ mixed(self.seed));
        let m = self.mask;
        assert(word & m <= m) by (bit_vector);
        self.lemma_alternate((word & m) as usize, fingerprint_of(word));
    }

    /// Computes where the block with this hash may stand.
    pub fn prepare(&self, hash: u64) -> (probe: CkfProbe)
        requires
            self.wf(),
        ensures
            probe == self.probe(hash),
            probe.fingerprint != 0,
            probe.bucket_a < self.bucket_count(),
            probe.bucket_b < self.bucket_count(),
    {
        proof {
            self.lemma_probe(hash);
        }
        let word: u64 = mix64(hash ^ mix64(self.seed));
        let bits: u16 = (word >> 48) as u16;
        let fingerprint: u16 = if bits == 0 {
            1
        } else {
            bits
        };
        let bucket_a: usize = (word & self.mask) as usize;
        assert(bucket_a < self.bucket_count()) by {
            let m = self.mask;
            assert(word & m <= m) by (bit_vector);
        }
        let bucket_b: usize = self.alternate(bucket_a, fingerprint);
        CkfProbe { fingerprint, bucket_a, bucket_b }
    }
}

} // verus!
