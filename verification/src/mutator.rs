//! Insertion into and removal from a cuckoo filter lane.
//!
//! Every write to a bucket is reported with the word that stood there before,
//! so that the caller can tell what a subscriber last saw. An insertion that
//! finds no place puts every word back.
use crate::addressing::{mix64, CkfAddressing, STATE_STEP};
use crate::bucket::{OwnedPackedCkfLane, PackedBucket};
use crate::memory::{if_granted, try_room, vec_capacity};
use vstd::prelude::*;
#[allow(unused_imports)]
use crate::memory::room_refused;
#[allow(unused_imports)]
use crate::addressing::mixed;
#[allow(unused_imports)]
use crate::bucket::{first_slot, slot_at, with_slot};

verus! {

/// The generator state from which a lane's first insertion draws.
pub open spec fn initial_rng(seed: u64, lane: u64) -> u64 {
    mixed(seed ^ mixed(lane.wrapping_add(STATE_STEP)))
}

/// Computes the generator state from which a lane's first insertion draws.
pub fn lane_rng_seed(seed: u64, lane: u64) -> (rng: u64)
    ensures
        rng == initial_rng(seed, lane),
{
    mix64(seed ^ mix64(lane.wrapping_add(STATE_STEP)))
}

/// The generator state after one draw.
pub open spec fn advanced(rng: u64) -> u64 {
    rng.wrapping_add(STATE_STEP)
}

/// The slot whose fingerprint gives way in a full bucket.
pub open spec fn victim_slot(rng: u64) -> u64 {
    mixed(rng) % 4
}

/// Whether relocation starts in the second of two full buckets.
pub open spec fn starts_in_second(rng: u64) -> bool {
    mixed(rng) % 2 == 1
}

/// One write to a bucket: which bucket, and the word that stood there before.
pub type Write = (usize, u64);

/// What an insertion leads to.
pub struct Placement {
    /// The lane afterwards.
    pub lane: Seq<u64>,
    /// The writes made, in order.
    pub writes: Seq<Write>,
    /// The generator state afterwards.
    pub rng: u64,
    /// Whether the fingerprint found a place.
    pub placed: bool,
}

/// Puts a fingerprint into a bucket. A full bucket gives up one of its
/// fingerprints, which then looks for a place in its own other bucket, for at
/// most `kicks` rounds.
pub open spec fn relocation(
    addressing: CkfAddressing,
    lane: Seq<u64>,
    bucket: usize,
    fingerprint: u16,
    rng: u64,
    kicks: nat,
) -> Placement
    decreases kicks,
{
    let value = lane[bucket as int];
    match first_slot(value, 0) {
        Some(slot) => Placement {
            lane: lane.update(bucket as int, with_slot(value, slot, fingerprint)),
            writes: seq![(bucket, value)],
            rng,
            placed: true,
        },
        None => if kicks == 0 {
            Placement { lane, writes: Seq::empty(), rng, placed: false }
        } else {
            let next_rng = advanced(rng);
            let slot = victim_slot(next_rng);
            let victim = slot_at(value, slot);
            let rest = relocation(
                addressing,
                lane.update(bucket as int, with_slot(value, slot, fingerprint)),
                addressing.spec_alternate(bucket, victim),
                victim,
                next_rng,
                (kicks - 1) as nat,
            );
            Placement { writes: seq![(bucket, value)] + rest.writes, ..rest }
        },
    }
}

/// Inserts the fingerprint of a hash: into the first of its two buckets that
/// has an empty slot, else by relocation from one of them. Without success the
/// lane stays as it was.
pub open spec fn insertion(
    addressing: CkfAddressing,
    lane: Seq<u64>,
    hash: u64,
    rng: u64,
    max_kicks: nat,
) -> Placement {
    let probe = addressing.probe(hash);
    if first_slot(lane[probe.bucket_a as int], 0) is Some {
        relocation(addressing, lane, probe.bucket_a, probe.fingerprint, rng, 0)
    } else if first_slot(lane[probe.bucket_b as int], 0) is Some {
        relocation(addressing, lane, probe.bucket_b, probe.fingerprint, rng, 0)
    } else {
        let next_rng = advanced(rng);
        let start = if starts_in_second(next_rng) {
            probe.bucket_b
        } else {
            probe.bucket_a
        };
        let end = relocation(addressing, lane, start, probe.fingerprint, next_rng, max_kicks);
        if end.placed {
            end
        } else {
            Placement { lane, writes: Seq::empty(), rng: end.rng, placed: false }
        }
    }
}

/// Takes one fingerprint of a hash out of the first of its two buckets that
/// holds it: the write made and the lane afterwards.
pub open spec fn removal(addressing: CkfAddressing, lane: Seq<u64>, hash: u64) -> Option<
    (Write, Seq<u64>),
> {
    let probe = addressing.probe(hash);
    let a = lane[probe.bucket_a as int];
    let b = lane[probe.bucket_b as int];
    match first_slot(a, probe.fingerprint) {
        Some(slot) => Some(
            ((probe.bucket_a, a), lane.update(probe.bucket_a as int, with_slot(a, slot, 0))),
        ),
        None => match first_slot(b, probe.fingerprint) {
            Some(slot) => Some(
                ((probe.bucket_b, b), lane.update(probe.bucket_b as int, with_slot(b, slot, 0))),
            ),
            None => None,
        },
    }
}

/// The lane before a run of writes.
pub open spec fn undone(lane: Seq<u64>, writes: Seq<Write>) -> Seq<u64>
    decreases writes.len(),
{
    if writes.len() == 0 {
        lane
    } else {
        undone(lane.update(writes.last().0 as int, writes.last().1), writes.drop_last())
    }
}

/// Room for the writes of one insertion.
#[derive(Debug)]
pub struct CuckooInsertionScratch {
    writes: Vec<Write>,
}

impl View for CuckooInsertionScratch {
    type V = Seq<Write>;

    closed spec fn view(&self) -> Seq<Write> {
        self.writes@
    }
}

impl CuckooInsertionScratch {
    /// Room for the writes of a chain of `max_kicks` relocations, unless the
    /// allocator refuses it. At least one write is always asked for, so
    /// whether there is a scratch is up to the machine alone.
    pub fn new(max_kicks: usize) -> (scratch: Option<Self>)
        ensures
            scratch is Some ==> scratch.unwrap()@ == Seq::<Write>::empty(),
            scratch is None ==> room_refused::<Write>(max_kicks.saturating_add(1)),
    {
        let mut writes: Vec<Write> = Vec::new();
        let granted: bool = try_room(&mut writes, max_kicks.saturating_add(1));
        if_granted(CuckooInsertionScratch { writes }, granted)
    }

    /// Number of writes recorded.
    pub fn len(&self) -> (len: usize)
        ensures
            len == self@.len(),
    {
        self.writes.len()
    }

    /// One recorded write.
    pub fn write(&self, index: usize) -> (write: Write)
        requires
            index < self@.len(),
        ensures
            write == self@[index as int],
    {
        self.writes[index]
    }

    /// Number of writes that fit without a new allocation.
    pub fn capacity(&self) -> (capacity: usize)
        ensures
            capacity >= self@.len(),
    {
        vec_capacity(&self.writes)
    }
}

/// Fingerprint changes on one lane.
pub struct CuckooMutator {
    addressing: CkfAddressing,
    max_kicks: usize,
}

impl CuckooMutator {
    pub closed spec fn addressing(self) -> CkfAddressing {
        self.addressing
    }

    pub closed spec fn max_kicks(self) -> usize {
        self.max_kicks
    }

    pub fn new(addressing: CkfAddressing, max_kicks: usize) -> (mutator: Self)
        ensures
            mutator.addressing() == addressing,
            mutator.max_kicks() == max_kicks,
    {
        CuckooMutator { addressing, max_kicks }
    }

    /// Inserts the fingerprint of a hash and leaves the writes in `scratch`.
    pub fn insert_with_originals(
        &self,
        lane: &mut OwnedPackedCkfLane,
        hash: u64,
        rng: &mut u64,
        scratch: &mut CuckooInsertionScratch,
    ) -> (placed: bool)
        requires
            self.addressing().wf(),
            old(lane)@.len() == self.addressing().bucket_count(),
        ensures
            ({
                let end = insertion(
                    self.addressing(),
                    old(lane)@,
                    hash,
                    *old(rng),
                    self.max_kicks() as nat,
                );
                &&& placed == end.placed
                &&& final(lane)@ == end.lane
                &&& *final(rng) == end.rng
                &&& final(scratch)@ == end.writes
            }),
    {
        let probe = self.addressing.prepare(hash);
        proof {
            self.addressing.lemma_probe(hash);
        }
        if lane.load_bucket(probe.bucket_a).find(0).is_some() {
            return self.relocate(lane, probe.bucket_a, probe.fingerprint, rng, scratch, 0);
        }
        if lane.load_bucket(probe.bucket_b).find(0).is_some() {
            return self.relocate(lane, probe.bucket_b, probe.fingerprint, rng, scratch, 0);
        }
        *rng = rng.wrapping_add(STATE_STEP);
        let start: usize = if mix64(*rng) % 2 == 1 {
            probe.bucket_b
        } else {
            probe.bucket_a
        };
        self.relocate(lane, start, probe.fingerprint, rng, scratch, self.max_kicks)
    }

    /// Runs a relocation on the lane, and takes it back when it finds no place.
    fn relocate(
        &self,
        lane: &mut OwnedPackedCkfLane,
        bucket: usize,
        fingerprint: u16,
        rng: &mut u64,
        scratch: &mut CuckooInsertionScratch,
        kicks: usize,
    ) -> (placed: bool)
        requires
            self.addressing.wf(),
            old(lane)@.len() == self.addressing.bucket_count(),
            bucket < old(lane)@.len(),
        ensures
            ({
                let end = relocation(
                    self.addressing,
                    old(lane)@,
                    bucket,
                    fingerprint,
                    *old(rng),
                    kicks as nat,
                );
                &&& placed == end.placed
                &&& *final(rng) == end.rng
                &&& placed ==> final(lane)@ == end.lane && final(scratch)@ == end.writes
                &&& !placed ==> final(lane)@ == old(lane)@ && final(scratch)@ == Seq::<
                    Write,
                >::empty()
            }),
    {
        let ghost before = lane@;
        let ghost whole = relocation(
            self.addressing,
            lane@,
            bucket,
            fingerprint,
            *rng,
            kicks as nat,
        );
        scratch.writes.clear();
        let mut at: usize = bucket;
        let mut carried: u16 = fingerprint;
        let mut left: usize = kicks;
        loop
            invariant
                before == old(lane)@,
                whole == relocation(
                    self.addressing,
                    before,
                    bucket,
                    fingerprint,
                    *old(rng),
                    kicks as nat,
                ),
                self.addressing.wf(),
                before.len() == self.addressing.bucket_count(),
                lane@.len() == before.len(),
                at < lane@.len(),
                forall|i: int| 0 <= i < scratch@.len() ==> (#[trigger] scratch@[i]).0 < before.len(),
                undone(lane@, scratch@) == before,
                ({
                    let rest = relocation(
                        self.addressing,
                        lane@,
                        at,
                        carried,
                        *rng,
                        left as nat,
                    );
                    &&& whole.lane == rest.lane
                    &&& whole.writes =~= scratch@ + rest.writes
                    &&& whole.rng == rest.rng
                    &&& whole.placed == rest.placed
                }),
            decreases left,
        {
            let value = lane.load_bucket(at);
            match value.find(0) {
                Some(slot) => {
                    scratch.writes.push((at, value.0));
                    lane.store_bucket(at, value.with(slot, carried));
                    return true;
                },
                None => {},
            }
            if left == 0 {
                self.undo(lane, scratch);
                return false;
            }
            left = left - 1;
            *rng = rng.wrapping_add(STATE_STEP);
            let slot: usize = (mix64(*rng) % 4) as usize;
            let victim: u16 = value.slot(slot);
            let ghost lane_before = lane@;
            let ghost writes_before = scratch@;
            scratch.writes.push((at, value.0));
            lane.store_bucket(at, value.with(slot, carried));
            proof {
                assert(scratch@.drop_last() =~= writes_before);
                assert(lane@.update(at as int, value.0) =~= lane_before);
            }
            at = self.addressing.alternate(at, victim);
            carried = victim;
        }
    }

    /// Puts back every recorded write, the last one first.
    fn undo(&self, lane: &mut OwnedPackedCkfLane, scratch: &mut CuckooInsertionScratch)
        requires
            forall|i: int|
                0 <= i < old(scratch)@.len() ==> (#[trigger] old(scratch)@[i]).0 < old(lane)@.len(),
        ensures
            final(lane)@ == undone(old(lane)@, old(scratch)@),
            final(scratch)@ == Seq::<Write>::empty(),
    {
        let ghost target = undone(lane@, scratch@);
        loop
            invariant
                target == undone(old(lane)@, old(scratch)@),
                undone(lane@, scratch@) == target,
                forall|i: int|
                    0 <= i < scratch@.len() ==> (#[trigger] scratch@[i]).0 < lane@.len(),
            decreases scratch@.len(),
        {
            let ghost writes_before = scratch@;
            match scratch.writes.pop() {
                Some(write) => {
                    proof {
                        assert(scratch@ =~= writes_before.drop_last());
                        assert(write == writes_before.last());
                        assert(writes_before[writes_before.len() - 1].0 < lane@.len());
                    }
                    lane.store_bucket(write.0, PackedBucket(write.1));
                },
                None => {
                    assert(scratch@ =~= Seq::<Write>::empty());
                    return;
                },
            }
        }
    }

    /// Takes one fingerprint of a hash out of the lane and returns the write.
    pub fn remove_with_original(&self, lane: &mut OwnedPackedCkfLane, hash: u64) -> (write: Option<
        Write,
    >)
        requires
            self.addressing().wf(),
            old(lane)@.len() == self.addressing().bucket_count(),
        ensures
            match removal(self.addressing(), old(lane)@, hash) {
                Some((made, lane_after)) => write == Some(made) && final(lane)@ == lane_after,
                None => write is None && final(lane)@ == old(lane)@,
            },
    {
        let probe = self.addressing.prepare(hash);
        let a = lane.load_bucket(probe.bucket_a);
        match a.find(probe.fingerprint) {
            Some(slot) => {
                lane.store_bucket(probe.bucket_a, a.with(slot, 0));
                return Some((probe.bucket_a, a.0));
            },
            None => {},
        }
        let b = lane.load_bucket(probe.bucket_b);
        match b.find(probe.fingerprint) {
            Some(slot) => {
                lane.store_bucket(probe.bucket_b, b.with(slot, 0));
                Some((probe.bucket_b, b.0))
            },
            None => None,
        }
    }
}

} // verus!
