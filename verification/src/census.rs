//! How many slots and buckets of a lane are in use.
use vstd::prelude::*;
#[allow(unused_imports)]
use crate::addressing::CkfAddressing;
#[allow(unused_imports)]
use crate::bucket::{
    first_slot, lemma_with_slot_count, lemma_zero_word, occupied_slots, slot_at, slot_count,
    with_slot,
};
#[allow(unused_imports)]
use crate::mutator::{advanced, insertion, relocation, removal, starts_in_second, victim_slot};

verus! {

/// Slots in use over a whole lane.
pub open spec fn slots_in_use(lane: Seq<u64>) -> int
    decreases lane.len(),
{
    if lane.len() == 0 {
        0
    } else {
        slots_in_use(lane.drop_last()) + occupied_slots(lane.last())
    }
}

/// Buckets of a lane that hold anything.
pub open spec fn buckets_in_use(lane: Seq<u64>) -> int
    decreases lane.len(),
{
    if lane.len() == 0 {
        0
    } else {
        buckets_in_use(lane.drop_last()) + (if lane.last() != 0 {
            1int
        } else {
            0
        })
    }
}

/// A bucket in use has one to four slots in use, and no other has any.
pub proof fn lemma_buckets_and_slots(lane: Seq<u64>)
    ensures
        buckets_in_use(lane) <= slots_in_use(lane) <= 4 * buckets_in_use(lane),
    decreases lane.len(),
{
    if lane.len() > 0 {
        lemma_buckets_and_slots(lane.drop_last());
        lemma_zero_word(lane.last());
    }
}

/// Overwriting one bucket changes the count by that bucket alone.
proof fn lemma_update(lane: Seq<u64>, bucket: int, value: u64)
    requires
        0 <= bucket < lane.len(),
    ensures
        slots_in_use(lane.update(bucket, value)) == slots_in_use(lane) - occupied_slots(
            lane[bucket],
        ) + occupied_slots(value),
    decreases lane.len(),
{
    let after = lane.update(bucket, value);
    if bucket == lane.len() - 1 {
        assert(after.drop_last() =~= lane.drop_last());
    } else {
        assert(after.drop_last() =~= lane.drop_last().update(bucket, value));
        lemma_update(lane.drop_last(), bucket, value);
    }
}

/// No slot of an empty lane is in use.
pub proof fn lemma_empty(count: nat)
    ensures
        slots_in_use(Seq::new(count, |i: int| 0u64)) == 0,
    decreases count,
{
    let lane = Seq::new(count, |i: int| 0u64);
    if count > 0 {
        lemma_empty((count - 1) as nat);
        assert(lane.drop_last() =~= Seq::new((count - 1) as nat, |i: int| 0u64));
        lemma_zero_word(0);
    }
}

/// A relocation that finds a place takes one slot more into use.
proof fn lemma_relocation(
    addressing: CkfAddressing,
    lane: Seq<u64>,
    bucket: usize,
    fingerprint: u16,
    rng: u64,
    kicks: nat,
)
    requires
        addressing.wf(),
        lane.len() == addressing.bucket_count(),
        bucket < lane.len(),
        fingerprint != 0,
        relocation(addressing, lane, bucket, fingerprint, rng, kicks).placed,
    ensures
        slots_in_use(relocation(addressing, lane, bucket, fingerprint, rng, kicks).lane)
            == slots_in_use(lane) + 1,
    decreases kicks,
{
    let value = lane[bucket as int];
    match first_slot(value, 0) {
        Some(slot) => {
            lemma_with_slot_count(value, slot, fingerprint);
            lemma_update(lane, bucket as int, with_slot(value, slot, fingerprint));
            assert(slot_count(with_slot(value, slot, fingerprint), 0) == slot_count(value, 0) - 1);
        },
        None => {
            let next_rng = advanced(rng);
            let slot = victim_slot(next_rng);
            let victim = slot_at(value, slot);
            lemma_with_slot_count(value, slot, fingerprint);
            assert(slot_count(with_slot(value, slot, fingerprint), 0) == slot_count(value, 0));
            lemma_update(lane, bucket as int, with_slot(value, slot, fingerprint));
            addressing.lemma_alternate(bucket, victim);
            lemma_relocation(
                addressing,
                lane.update(bucket as int, with_slot(value, slot, fingerprint)),
                addressing.spec_alternate(bucket, victim),
                victim,
                next_rng,
                (kicks - 1) as nat,
            );
        },
    }
}

/// An insertion that finds a place takes one slot more into use.
pub proof fn lemma_insertion_takes_one_slot(
    addressing: CkfAddressing,
    lane: Seq<u64>,
    hash: u64,
    rng: u64,
    max_kicks: nat,
)
    requires
        addressing.wf(),
        lane.len() == addressing.bucket_count(),
        insertion(addressing, lane, hash, rng, max_kicks).placed,
    ensures
        slots_in_use(insertion(addressing, lane, hash, rng, max_kicks).lane) == slots_in_use(lane)
            + 1,
{
    addressing.lemma_probe(hash);
    let probe = addressing.probe(hash);
    if first_slot(lane[probe.bucket_a as int], 0) is Some {
        lemma_relocation(addressing, lane, probe.bucket_a, probe.fingerprint, rng, 0);
    } else if first_slot(lane[probe.bucket_b as int], 0) is Some {
        lemma_relocation(addressing, lane, probe.bucket_b, probe.fingerprint, rng, 0);
    } else {
        let next_rng = advanced(rng);
        let start = if starts_in_second(next_rng) {
            probe.bucket_b
        } else {
            probe.bucket_a
        };
        lemma_relocation(addressing, lane, start, probe.fingerprint, next_rng, max_kicks);
    }
}

/// A removal that finds its fingerprint frees one slot.
pub proof fn lemma_removal_frees_one_slot(addressing: CkfAddressing, lane: Seq<u64>, hash: u64)
    requires
        addressing.wf(),
        lane.len() == addressing.bucket_count(),
        removal(addressing, lane, hash) is Some,
    ensures
        slots_in_use(removal(addressing, lane, hash).unwrap().1) == slots_in_use(lane) - 1,
{
    addressing.lemma_probe(hash);
    let probe = addressing.probe(hash);
    let a = lane[probe.bucket_a as int];
    let b = lane[probe.bucket_b as int];
    match first_slot(a, probe.fingerprint) {
        Some(slot) => {
            lemma_with_slot_count(a, slot, 0);
            assert(slot_count(with_slot(a, slot, 0), 0) == slot_count(a, 0) + 1);
            lemma_update(lane, probe.bucket_a as int, with_slot(a, slot, 0));
        },
        None => {
            let slot = first_slot(b, probe.fingerprint).unwrap();
            lemma_with_slot_count(b, slot, 0);
            assert(slot_count(with_slot(b, slot, 0), 0) == slot_count(b, 0) + 1);
            lemma_update(lane, probe.bucket_b as int, with_slot(b, slot, 0));
        },
    }
}

} // verus!
