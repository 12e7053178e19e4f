//! Buckets of four 16-bit fingerprints, packed into words.
use crate::config::CkfBuildError;
use crate::memory::try_room;
use vstd::prelude::*;
#[allow(unused_imports)]
use crate::memory::room_refused;

verus! {

/// Slots in one bucket.
pub const SLOTS_PER_BUCKET: u8 = 4;

/// Bits of one fingerprint.
pub const FINGERPRINT_BITS: u8 = 16;

/// The fingerprint in one slot of a packed word; zero is an empty slot.
pub open spec fn slot_at(value: u64, index: u64) -> u16 {
    ((value >> ((16 * index) as u64)) & 0xffff) as u16
}

/// The word with one slot replaced.
pub open spec fn with_slot(value: u64, index: u64, fingerprint: u16) -> u64 {
    (value & !(0xffffu64 << ((16 * index) as u64))) | ((fingerprint as u64) << ((16
        * index) as u64))
}

/// How many slots of a word hold a fingerprint.
pub open spec fn slot_count(value: u64, fingerprint: u16) -> int {
    (if slot_at(value, 0) == fingerprint {
        1int
    } else {
        0
    }) + (if slot_at(value, 1) == fingerprint {
        1int
    } else {
        0
    }) + (if slot_at(value, 2) == fingerprint {
        1int
    } else {
        0
    }) + (if slot_at(value, 3) == fingerprint {
        1int
    } else {
        0
    })
}

/// The lowest slot that holds a fingerprint, if any does.
pub open spec fn first_slot(value: u64, fingerprint: u16) -> Option<u64> {
    if slot_at(value, 0) == fingerprint {
        Some(0)
    } else if slot_at(value, 1) == fingerprint {
        Some(1)
    } else if slot_at(value, 2) == fingerprint {
        Some(2)
    } else if slot_at(value, 3) == fingerprint {
        Some(3)
    } else {
        None
    }
}

/// Slots of a word that are not empty.
pub open spec fn occupied_slots(value: u64) -> int {
    4 - slot_count(value, 0)
}

/// Replacing a slot changes that slot and no other.
pub proof fn lemma_with_slot(value: u64, index: u64, fingerprint: u16)
    requires
        index < 4,
    ensures
        slot_at(with_slot(value, index, fingerprint), index) == fingerprint,
        forall|other: u64|
            other < 4 && other != index ==> #[trigger] slot_at(
                with_slot(value, index, fingerprint),
                other,
            ) == slot_at(value, other),
{
    assert(slot_at(with_slot(value, index, fingerprint), index) == fingerprint) by (bit_vector)
        requires
            index < 4,
    ;
    assert forall|other: u64| other < 4 && other != index implies #[trigger] slot_at(
        with_slot(value, index, fingerprint),
        other,
    ) == slot_at(value, other) by {
        assert(slot_at(with_slot(value, index, fingerprint), other) == slot_at(value, other))
            by (bit_vector)
            requires
                index < 4,
                other < 4,
                other != index,
        ;
    }
}

/// Replacing a slot moves one count from the old fingerprint to the new one.
pub proof fn lemma_with_slot_count(value: u64, index: u64, fingerprint: u16)
    requires
        index < 4,
    ensures
        forall|other: u16| #[trigger]
            slot_count(with_slot(value, index, fingerprint), other) == slot_count(value, other) - (
            if slot_at(value, index) == other {
                1int
            } else {
                0
            }) + (if fingerprint == other {
                1int
            } else {
                0
            }),
{
    lemma_with_slot(value, index, fingerprint);
}

/// A word is zero exactly when all of its slots are empty.
pub proof fn lemma_zero_word(value: u64)
    ensures
        (value == 0) == (slot_count(value, 0) == 4),
        (value == 0) == (forall|fingerprint: u16|
            fingerprint != 0 ==> #[trigger] slot_count(value, fingerprint) == 0),
{
    assert((value == 0) == (slot_at(value, 0) == 0 && slot_at(value, 1) == 0 && slot_at(value, 2)
        == 0 && slot_at(value, 3) == 0)) by (bit_vector);
    if value != 0 {
        if slot_at(value, 0) != 0 {
            assert(slot_count(value, slot_at(value, 0)) > 0);
        } else if slot_at(value, 1) != 0 {
            assert(slot_count(value, slot_at(value, 1)) > 0);
        } else if slot_at(value, 2) != 0 {
            assert(slot_count(value, slot_at(value, 2)) > 0);
        } else {
            assert(slot_count(value, slot_at(value, 3)) > 0);
        }
    }
}

/// One bucket as it is published: four fingerprints in one word.
#[derive(Debug, Clone, Copy, PartialEq, Eq, Structural)]
pub struct PackedBucket(pub u64);

impl PackedBucket {
    /// The fingerprint in a slot.
    pub fn slot(self, index: usize) -> (fingerprint: u16)
        requires
            index < SLOTS_PER_BUCKET,
        ensures
            fingerprint == slot_at(self.0, index as u64),
    {
        let shift: u64 = 16 * index as u64;
        ((self.0 >> shift) & 0xffff) as u16
    }

    /// The bucket with one slot replaced.
    pub fn with(self, index: usize, fingerprint: u16) -> (bucket: Self)
        requires
            index < SLOTS_PER_BUCKET,
        ensures
            bucket.0 == with_slot(self.0, index as u64, fingerprint),
    {
        let shift: u64 = 16 * index as u64;
        PackedBucket((self.0 & !(0xffffu64 << shift)) | ((fingerprint as u64) << shift))
    }

    /// The lowest slot that holds a fingerprint.
    pub fn find(self, fingerprint: u16) -> (slot: Option<usize>)
        ensures
            slot is Some == first_slot(self.0, fingerprint) is Some,
            slot is Some ==> slot.unwrap() < SLOTS_PER_BUCKET && slot.unwrap() == first_slot(
                self.0,
                fingerprint,
            ).unwrap(),
            slot is Some == (slot_count(self.0, fingerprint) > 0),
    {
        if self.slot(0) == fingerprint {
            Some(0)
        } else if self.slot(1) == fingerprint {
            Some(1)
        } else if self.slot(2) == fingerprint {
            Some(2)
        } else if self.slot(3) == fingerprint {
            Some(3)
        } else {
            None
        }
    }

    /// Whether some slot holds a fingerprint.
    pub fn contains(self, fingerprint: u16) -> (found: bool)
        ensures
            found == (slot_count(self.0, fingerprint) > 0),
    {
        self.find(fingerprint).is_some()
    }

    /// Counts the slots that are not empty.
    pub fn occupied(self) -> (count: usize)
        ensures
            count == occupied_slots(self.0),
            count <= SLOTS_PER_BUCKET,
    {
        let mut count: usize = 0;
        if self.slot(0) != 0 {
            count = count + 1;
        }
        if self.slot(1) != 0 {
            count = count + 1;
        }
        if self.slot(2) != 0 {
            count = count + 1;
        }
        if self.slot(3) != 0 {
            count = count + 1;
        }
        count
    }
}

/// The buckets of one filter.
#[derive(Debug)]
pub struct OwnedPackedCkfLane {
    buckets: Vec<u64>,
}

impl View for OwnedPackedCkfLane {
    type V = Seq<u64>;

    closed spec fn view(&self) -> Seq<u64> {
        self.buckets@
    }
}

impl OwnedPackedCkfLane {
    /// A lane of empty buckets, unless the allocator refuses it.
    pub fn new(bucket_count: usize) -> (result: Result<Self, CkfBuildError>)
        ensures
            match result {
                Ok(lane) => lane@ == Seq::new(bucket_count as nat, |i: int| 0u64),
                Err(error) => error == CkfBuildError::AllocationFailed && room_refused::<u64>(
                    bucket_count,
                ),
            },
    {
        let mut buckets: Vec<u64> = Vec::new();
        if !try_room(&mut buckets, bucket_count) {
            return Err(CkfBuildError::AllocationFailed);
        }
        Ok(Self::over(bucket_count, buckets))
    }

    /// A lane of empty buckets in memory that was granted for it.
    pub fn over(bucket_count: usize, room: Vec<u64>) -> (lane: Self)
        requires
            room@.len() == 0,
        ensures
            lane@ == Seq::new(bucket_count as nat, |i: int| 0u64),
    {
        let mut buckets: Vec<u64> = room;
        buckets.resize(bucket_count, 0);
        assert(buckets@ =~= Seq::new(bucket_count as nat, |i: int| 0u64));
        OwnedPackedCkfLane { buckets }
    }

    /// Reads one bucket.
    pub fn load_bucket(&self, bucket: usize) -> (value: PackedBucket)
        requires
            bucket < self@.len(),
        ensures
            value.0 == self@[bucket as int],
    {
        PackedBucket(self.buckets[bucket])
    }

    /// Overwrites one bucket.
    pub fn store_bucket(&mut self, bucket: usize, value: PackedBucket)
        requires
            bucket < old(self)@.len(),
        ensures
            final(self)@ == old(self)@.update(bucket as int, value.0),
    {
        self.buckets[bucket] = value.0;
    }

    /// Number of buckets.
    pub fn len(&self) -> (len: usize)
        ensures
            len == self@.len(),
    {
        self.buckets.len()
    }

    /// Size of the published image in bytes.
    pub fn byte_len(&self) -> (bytes: usize)
        requires
            self@.len() <= usize::MAX / 8,
        ensures
            bytes == 8 * self@.len(),
    {
        self.buckets.len() * 8
    }
}

} // verus!
