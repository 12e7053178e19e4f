//! What a lane holds, counted per fingerprint and bucket pair.
//!
//! A fingerprint keeps its identity while relocation moves it between its two
//! buckets, so the number of its copies in those two buckets together is what
//! insertions and removals change, one at a time.
use vstd::prelude::*;
#[allow(unused_imports)]
use crate::addressing::CkfAddressing;
#[allow(unused_imports)]
use crate::bucket::{
    first_slot, lemma_with_slot_count, lemma_zero_word, slot_at, slot_count, with_slot,
};
#[allow(unused_imports)]
use crate::mutator::{advanced, insertion, relocation, removal, victim_slot};

verus! {

/// Copies of a fingerprint in a bucket and in its other bucket.
pub open spec fn occupancy(
    addressing: CkfAddressing,
    lane: Seq<u64>,
    bucket: usize,
    fingerprint: u16,
) -> int {
    slot_count(lane[bucket as int], fingerprint) + slot_count(
        lane[addressing.spec_alternate(bucket, fingerprint) as int],
        fingerprint,
    )
}

/// Whether a copy of `fingerprint` in `bucket` counts for `other` in `place`.
pub open spec fn counts_for(
    addressing: CkfAddressing,
    bucket: usize,
    fingerprint: u16,
    place: usize,
    other: u16,
) -> bool {
    fingerprint == other && (place == bucket || place == addressing.spec_alternate(
        bucket,
        fingerprint,
    ))
}

/// Whether a hash is represented by a fingerprint in a bucket.
pub open spec fn represents(
    addressing: CkfAddressing,
    hash: u64,
    bucket: usize,
    fingerprint: u16,
) -> bool {
    let probe = addressing.probe(hash);
    fingerprint == probe.fingerprint && (bucket == probe.bucket_a || bucket == probe.bucket_b)
}

/// The hashes of a set that a fingerprint in a bucket can stand for.
pub open spec fn represented(
    addressing: CkfAddressing,
    hashes: Set<u64>,
    bucket: usize,
    fingerprint: u16,
) -> Set<u64> {
    hashes.filter(|hash: u64| represents(addressing, hash, bucket, fingerprint))
}

/// The lane holds one fingerprint for every hash of a set and nothing else.
pub open spec fn lane_holds(addressing: CkfAddressing, lane: Seq<u64>, hashes: Set<u64>) -> bool {
    &&& lane.len() == addressing.bucket_count()
    &&& forall|bucket: usize, fingerprint: u16|
        bucket < lane.len() && fingerprint != 0 ==> #[trigger] occupancy(
            addressing,
            lane,
            bucket,
            fingerprint,
        ) == represented(addressing, hashes, bucket, fingerprint).len()
}

/// A lane without any fingerprint.
pub open spec fn is_empty_lane(lane: Seq<u64>) -> bool {
    forall|bucket: int| 0 <= bucket < lane.len() ==> #[trigger] lane[bucket] == 0
}

/// One for a condition that holds, zero for one that does not.
pub open spec fn one_if(condition: bool) -> int {
    if condition {
        1
    } else {
        0
    }
}

/// Replacing one slot moves one copy from the old fingerprint to the new one.
proof fn lemma_replace(
    addressing: CkfAddressing,
    lane: Seq<u64>,
    bucket: usize,
    slot: u64,
    fingerprint: u16,
)
    requires
        addressing.wf(),
        lane.len() == addressing.bucket_count(),
        bucket < lane.len(),
        slot < 4,
    ensures
        forall|place: usize, other: u16|
            place < lane.len() && other != 0 ==> #[trigger] occupancy(
                addressing,
                lane.update(bucket as int, with_slot(lane[bucket as int], slot, fingerprint)),
                place,
                other,
            ) == occupancy(addressing, lane, place, other) - one_if(
                counts_for(addressing, bucket, slot_at(lane[bucket as int], slot), place, other),
            ) + one_if(counts_for(addressing, bucket, fingerprint, place, other)),
{
    let value = lane[bucket as int];
    let after = lane.update(bucket as int, with_slot(value, slot, fingerprint));
    lemma_with_slot_count(value, slot, fingerprint);
    assert forall|place: usize, other: u16| place < lane.len() && other != 0 implies #[trigger] occupancy(
        addressing,
        after,
        place,
        other,
    ) == occupancy(addressing, lane, place, other) - one_if(
        counts_for(addressing, bucket, slot_at(value, slot), place, other),
    ) + one_if(counts_for(addressing, bucket, fingerprint, place, other)) by {
        addressing.lemma_alternate(place, other);
        addressing.lemma_alternate(bucket, other);
    }
}

/// A relocation that finds a place adds one copy of its fingerprint and keeps
/// every other count.
pub proof fn lemma_relocation_adds_one(
    addressing: CkfAddressing,
    lane: Seq<u64>,
    bucket: usize,
    fingerprint: u16,
    rng: u64,
    kicks: nat,
)
    requires
        addressing.wf(),
        lane.len() == addressing.bucket_count(),
        bucket < lane.len(),
        fingerprint != 0,
        relocation(addressing, lane, bucket, fingerprint, rng, kicks).placed,
    ensures
        relocation(addressing, lane, bucket, fingerprint, rng, kicks).lane.len() == lane.len(),
        forall|place: usize, other: u16|
            place < lane.len() && other != 0 ==> #[trigger] occupancy(
                addressing,
                relocation(addressing, lane, bucket, fingerprint, rng, kicks).lane,
                place,
                other,
            ) == occupancy(addressing, lane, place, other) + one_if(
                counts_for(addressing, bucket, fingerprint, place, other),
            ),
    decreases kicks,
{
    let value = lane[bucket as int];
    match first_slot(value, 0) {
        Some(slot) => {
            lemma_replace(addressing, lane, bucket, slot, fingerprint);
        },
        None => {
            let next_rng = advanced(rng);
            let slot = victim_slot(next_rng);
            let victim = slot_at(value, slot);
            let next = lane.update(bucket as int, with_slot(value, slot, fingerprint));
            let other_bucket = addressing.spec_alternate(bucket, victim);
            assert(victim != 0) by {
                assert(slot == 0 || slot == 1 || slot == 2 || slot == 3);
            }
            addressing.lemma_alternate(bucket, victim);
            lemma_replace(addressing, lane, bucket, slot, fingerprint);
            lemma_relocation_adds_one(
                addressing,
                next,
                other_bucket,
                victim,
                next_rng,
                (kicks - 1) as nat,
            );
            let end = relocation(addressing, lane, bucket, fingerprint, rng, kicks).lane;
            assert forall|place: usize, other: u16|
                place < lane.len() && other != 0 implies #[trigger] occupancy(
                addressing,
                end,
                place,
                other,
            ) == occupancy(addressing, lane, place, other) + one_if(
                counts_for(addressing, bucket, fingerprint, place, other),
            ) by {
                assert(occupancy(addressing, next, place, other) == occupancy(
                    addressing,
                    lane,
                    place,
                    other,
                ) - one_if(counts_for(addressing, bucket, victim, place, other)) + one_if(
                    counts_for(addressing, bucket, fingerprint, place, other),
                ));
            }
        },
    }
}

/// A finite set has finitely many hashes of one representation.
proof fn lemma_represented_finite(
    addressing: CkfAddressing,
    hashes: Set<u64>,
    bucket: usize,
    fingerprint: u16,
)
    requires
        hashes.finite(),
    ensures
        represented(addressing, hashes, bucket, fingerprint).finite(),
{
    hashes.lemma_len_filter(|hash: u64| represents(addressing, hash, bucket, fingerprint));
}

/// Adding a hash to a set adds it to exactly the representations that match.
proof fn lemma_represented_insert(
    addressing: CkfAddressing,
    hashes: Set<u64>,
    hash: u64,
    bucket: usize,
    fingerprint: u16,
)
    requires
        hashes.finite(),
        !hashes.contains(hash),
    ensures
        represented(addressing, hashes.insert(hash), bucket, fingerprint).len() == represented(
            addressing,
            hashes,
            bucket,
            fingerprint,
        ).len() + one_if(represents(addressing, hash, bucket, fingerprint)),
{
    let before = represented(addressing, hashes, bucket, fingerprint);
    let after = represented(addressing, hashes.insert(hash), bucket, fingerprint);
    lemma_represented_finite(addressing, hashes, bucket, fingerprint);
    if represents(addressing, hash, bucket, fingerprint) {
        assert(after =~= before.insert(hash));
    } else {
        assert(after =~= before);
    }
}

/// A lane of empty buckets holds nothing.
pub proof fn lemma_empty_lane_holds_nothing(addressing: CkfAddressing, lane: Seq<u64>)
    requires
        addressing.wf(),
        lane.len() == addressing.bucket_count(),
        is_empty_lane(lane),
    ensures
        lane_holds(addressing, lane, Set::empty()),
{
    assert forall|bucket: usize, fingerprint: u16|
        bucket < lane.len() && fingerprint != 0 implies #[trigger] occupancy(
        addressing,
        lane,
        bucket,
        fingerprint,
    ) == represented(addressing, Set::empty(), bucket, fingerprint).len() by {
        addressing.lemma_alternate(bucket, fingerprint);
        lemma_zero_word(0);
        assert(represented(addressing, Set::empty(), bucket, fingerprint) =~= Set::<u64>::empty());
    }
}

/// An insertion that finds a place makes the lane hold the hash as well; one
/// that finds none changes nothing.
pub proof fn lemma_insertion(
    addressing: CkfAddressing,
    lane: Seq<u64>,
    hashes: Set<u64>,
    hash: u64,
    rng: u64,
    max_kicks: nat,
)
    requires
        addressing.wf(),
        lane_holds(addressing, lane, hashes),
        hashes.finite(),
        !hashes.contains(hash),
    ensures
        ({
            let end = insertion(addressing, lane, hash, rng, max_kicks);
            if end.placed {
                lane_holds(addressing, end.lane, hashes.insert(hash))
            } else {
                end.lane == lane && end.writes.len() == 0
            }
        }),
{
    let probe = addressing.probe(hash);
    addressing.lemma_probe(hash);
    let end = insertion(addressing, lane, hash, rng, max_kicks);
    if end.placed {
        let fingerprint = probe.fingerprint;
        let (start, start_rng, kicks) = if first_slot(lane[probe.bucket_a as int], 0) is Some {
            (probe.bucket_a, rng, 0nat)
        } else if first_slot(lane[probe.bucket_b as int], 0) is Some {
            (probe.bucket_b, rng, 0nat)
        } else if crate::mutator::starts_in_second(advanced(rng)) {
            (probe.bucket_b, advanced(rng), max_kicks)
        } else {
            (probe.bucket_a, advanced(rng), max_kicks)
        };
        lemma_relocation_adds_one(addressing, lane, start, fingerprint, start_rng, kicks);
        assert forall|bucket: usize, other: u16|
            bucket < lane.len() && other != 0 implies #[trigger] occupancy(
            addressing,
            end.lane,
            bucket,
            other,
        ) == represented(addressing, hashes.insert(hash), bucket, other).len() by {
            lemma_represented_insert(addressing, hashes, hash, bucket, other);
            assert(occupancy(addressing, lane, bucket, other) == represented(
                addressing,
                hashes,
                bucket,
                other,
            ).len());
        }
    }
}

/// A hash that the lane holds can be taken out, and nothing else goes with it.
pub proof fn lemma_removal(
    addressing: CkfAddressing,
    lane: Seq<u64>,
    hashes: Set<u64>,
    hash: u64,
)
    requires
        addressing.wf(),
        lane_holds(addressing, lane, hashes),
        hashes.finite(),
        hashes.contains(hash),
    ensures
        removal(addressing, lane, hash) is Some,
        lane_holds(addressing, removal(addressing, lane, hash).unwrap().1, hashes.remove(hash)),
        removal(addressing, lane, hash).unwrap().0.0 < lane.len(),
        removal(addressing, lane, hash).unwrap().0.1 == lane[removal(
            addressing,
            lane,
            hash,
        ).unwrap().0.0 as int],
{
    let probe = addressing.probe(hash);
    let fingerprint = probe.fingerprint;
    addressing.lemma_probe(hash);
    let rest = hashes.remove(hash);
    assert(rest.insert(hash) =~= hashes);
    lemma_represented_insert(addressing, rest, hash, probe.bucket_a, fingerprint);
    assert(occupancy(addressing, lane, probe.bucket_a, fingerprint) >= 1);
    let a = lane[probe.bucket_a as int];
    let b = lane[probe.bucket_b as int];
    let (bucket, slot) = if first_slot(a, fingerprint) is Some {
        (probe.bucket_a, first_slot(a, fingerprint).unwrap())
    } else {
        (probe.bucket_b, first_slot(b, fingerprint).unwrap())
    };
    lemma_replace(addressing, lane, bucket, slot, 0);
    let after = removal(addressing, lane, hash).unwrap().1;
    assert forall|place: usize, other: u16|
        place < lane.len() && other != 0 implies #[trigger] occupancy(
        addressing,
        after,
        place,
        other,
    ) == represented(addressing, rest, place, other).len() by {
        lemma_represented_insert(addressing, rest, hash, place, other);
        assert(occupancy(addressing, lane, place, other) == represented(
            addressing,
            hashes,
            place,
            other,
        ).len());
    }
}

/// A fingerprint of a hash is found in one of its two buckets exactly when the
/// lane holds some hash that shares the fingerprint and the buckets.
pub proof fn lemma_lookup(
    addressing: CkfAddressing,
    lane: Seq<u64>,
    hashes: Set<u64>,
    hash: u64,
)
    requires
        addressing.wf(),
        lane_holds(addressing, lane, hashes),
        hashes.finite(),
    ensures
        ({
            let probe = addressing.probe(hash);
            (slot_count(lane[probe.bucket_a as int], probe.fingerprint) > 0 || slot_count(
                lane[probe.bucket_b as int],
                probe.fingerprint,
            ) > 0) == (exists|held: u64|
                hashes.contains(held) && #[trigger] represents(
                    addressing,
                    held,
                    probe.bucket_a,
                    probe.fingerprint,
                ))
        }),
        represents(
            addressing,
            hash,
            addressing.probe(hash).bucket_a,
            addressing.probe(hash).fingerprint,
        ),
{
    let probe = addressing.probe(hash);
    addressing.lemma_probe(hash);
    let found = represented(addressing, hashes, probe.bucket_a, probe.fingerprint);
    lemma_represented_finite(addressing, hashes, probe.bucket_a, probe.fingerprint);
    assert(occupancy(addressing, lane, probe.bucket_a, probe.fingerprint) == found.len());
    if found.len() > 0 {
        let held = found.choose();
        assert(found.contains(held));
        assert(hashes.contains(held) && represents(
            addressing,
            held,
            probe.bucket_a,
            probe.fingerprint,
        ));
    } else {
        assert forall|held: u64| hashes.contains(held) implies !#[trigger] represents(
            addressing,
            held,
            probe.bucket_a,
            probe.fingerprint,
        ) by {
            if represents(addressing, held, probe.bucket_a, probe.fingerprint) {
                assert(found.contains(held));
                assert(found.len() > 0);
            }
        }
    }
}

/// A lane is empty exactly when it holds no hash.
pub proof fn lemma_empty_exactly_when_nothing_held(
    addressing: CkfAddressing,
    lane: Seq<u64>,
    hashes: Set<u64>,
)
    requires
        addressing.wf(),
        lane_holds(addressing, lane, hashes),
        hashes.finite(),
    ensures
        is_empty_lane(lane) == (hashes =~= Set::empty()),
{
    addressing.lemma_bucket_count();
    if hashes =~= Set::<u64>::empty() {
        assert forall|bucket: int| 0 <= bucket < lane.len() implies #[trigger] lane[bucket] == 0 by {
            let place = bucket as usize;
            assert forall|fingerprint: u16| fingerprint != 0 implies #[trigger] slot_count(
                lane[bucket],
                fingerprint,
            ) == 0 by {
                assert(occupancy(addressing, lane, place, fingerprint) == represented(
                    addressing,
                    hashes,
                    place,
                    fingerprint,
                ).len());
                assert(represented(addressing, hashes, place, fingerprint) =~= Set::empty());
            }
            lemma_zero_word(lane[bucket]);
        }
    } else {
        let hash = hashes.choose();
        let probe = addressing.probe(hash);
        lemma_lookup(addressing, lane, hashes, hash);
        addressing.lemma_probe(hash);
        lemma_zero_word(lane[probe.bucket_a as int]);
        lemma_zero_word(lane[probe.bucket_b as int]);
    }
}

} // verus!
