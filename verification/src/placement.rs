//! When a fingerprint finds a place in a lane, and when it does not.
use crate::model::DcCkfModel;
use crate::mutator::Write;
use crate::protocol::KvCacheEventError;
use vstd::prelude::*;
#[allow(unused_imports)]
use crate::addressing::{CkfAddressing, STATE_STEP};
#[allow(unused_imports)]
use crate::bucket::{first_slot, lemma_with_slot, occupied_slots, slot_at, with_slot};
#[allow(unused_imports)]
use crate::census::slots_in_use;
#[allow(unused_imports)]
use crate::mutator::{advanced, insertion, relocation, removal, starts_in_second, victim_slot};
#[allow(unused_imports)]
use crate::ownership::owns;
#[allow(unused_imports)]
use crate::protocol::MEMBER_KEY_END;

verus! {

/// Whether all four slots of a word hold fingerprints.
pub open spec fn is_full(word: u64) -> bool {
    &&& slot_at(word, 0) != 0
    &&& slot_at(word, 1) != 0
    &&& slot_at(word, 2) != 0
    &&& slot_at(word, 3) != 0
}

/// A fingerprint on its way: it comes to a bucket of a lane.
pub struct Stop {
    pub lane: Seq<u64>,
    pub bucket: usize,
    pub fingerprint: u16,
}

impl Stop {
    /// Whether the bucket has no empty slot.
    pub open spec fn is_full(self) -> bool {
        is_full(self.lane[self.bucket as int])
    }

    /// Whether one kick leads from here to the next stop: the fingerprint takes
    /// the place of another one in the bucket, and that one goes to its own
    /// other bucket.
    pub open spec fn kicks_to(self, addressing: CkfAddressing, slot: u64, next: Stop) -> bool {
        let word = self.lane[self.bucket as int];
        &&& slot < 4
        &&& next.fingerprint == slot_at(word, slot)
        &&& next.bucket == addressing.spec_alternate(self.bucket, slot_at(word, slot))
        &&& next.lane == self.lane.update(
            self.bucket as int,
            with_slot(word, slot, self.fingerprint),
        )
    }

    /// Whether one kick in some slot leads from here to the next stop.
    pub open spec fn leads_to(self, addressing: CkfAddressing, next: Stop) -> bool {
        exists|slot: u64| self.kicks_to(addressing, slot, next)
    }
}

/// Whether a fingerprint that came to the first stop was sent on by kicks from
/// each stop to the next, because every bucket on the way was full.
pub open spec fn is_walk(addressing: CkfAddressing, stops: Seq<Stop>) -> bool {
    forall|i: int|
        0 <= i < stops.len() - 1 ==> (#[trigger] stops[i]).is_full() && stops[i].leads_to(
            addressing,
            stops[i + 1],
        )
}

/// Whether a walk of a block's fingerprint begins in one of its two buckets.
pub open spec fn starts_walk(
    addressing: CkfAddressing,
    lane: Seq<u64>,
    hash: u64,
    first: Stop,
) -> bool {
    let probe = addressing.probe(hash);
    &&& first.lane == lane
    &&& first.fingerprint == probe.fingerprint
    &&& first.bucket == probe.bucket_a || first.bucket == probe.bucket_b
}

/// Whether a walk from one of a block's buckets met so many full buckets and no
/// other.
pub open spec fn walked_in_vain(
    addressing: CkfAddressing,
    lane: Seq<u64>,
    hash: u64,
    stops: Seq<Stop>,
    buckets: nat,
) -> bool {
    &&& stops.len() == buckets
    &&& stops.len() > 0
    &&& starts_walk(addressing, lane, hash, stops[0])
    &&& is_walk(addressing, stops)
    &&& stops.last().is_full()
}

/// The four slots of a word are empty one by one.
proof fn lemma_first_slot(word: u64)
    ensures
        first_slot(word, 0) is None <==> is_full(word),
        first_slot(word, 0) is Some ==> {
            let slot = first_slot(word, 0).unwrap();
            slot < 4 && slot_at(word, slot) == 0
        },
{
}

/// A relocation that fails walked as many kicks as it was allowed, and met
/// only full buckets.
proof fn lemma_failed_relocation(
    addressing: CkfAddressing,
    lane: Seq<u64>,
    bucket: usize,
    fingerprint: u16,
    rng: u64,
    kicks: nat,
) -> (stops: Seq<Stop>)
    requires
        !relocation(addressing, lane, bucket, fingerprint, rng, kicks).placed,
    ensures
        stops.len() == kicks + 1,
        stops[0] == (Stop { lane, bucket, fingerprint }),
        is_walk(addressing, stops),
        stops.last().is_full(),
    decreases kicks,
{
    let word = lane[bucket as int];
    let here = Stop { lane, bucket, fingerprint };
    lemma_first_slot(word);
    if kicks == 0 {
        seq![here]
    } else {
        let next_rng = advanced(rng);
        let slot = victim_slot(next_rng);
        let victim = slot_at(word, slot);
        let rest = lemma_failed_relocation(
            addressing,
            lane.update(bucket as int, with_slot(word, slot, fingerprint)),
            addressing.spec_alternate(bucket, victim),
            victim,
            next_rng,
            (kicks - 1) as nat,
        );
        let stops = seq![here] + rest;
        assert(here.kicks_to(addressing, slot, rest[0]));
        assert forall|i: int| 0 <= i < stops.len() - 1 implies (
        #[trigger] stops[i]).is_full() && stops[i].leads_to(addressing, stops[i + 1]) by {
            if i > 0 {
                assert(stops[i] == rest[i - 1]);
                assert(stops[i + 1] == rest[i]);
            }
        }
        assert(stops.last() == rest.last());
        stops
    }
}

/// An insertion fails only in vain: both buckets of the block are full, and a
/// walk of all the allowed kicks from one of them met only full buckets.
pub proof fn law_insertion_fails_only_after_all_kicks(
    addressing: CkfAddressing,
    lane: Seq<u64>,
    hash: u64,
    rng: u64,
    max_kicks: nat,
)
    requires
        !insertion(addressing, lane, hash, rng, max_kicks).placed,
    ensures
        is_full(lane[addressing.probe(hash).bucket_a as int]),
        is_full(lane[addressing.probe(hash).bucket_b as int]),
        exists|stops: Seq<Stop>| #[trigger]
            walked_in_vain(addressing, lane, hash, stops, max_kicks + 1),
{
    let probe = addressing.probe(hash);
    lemma_first_slot(lane[probe.bucket_a as int]);
    lemma_first_slot(lane[probe.bucket_b as int]);
    let next_rng = advanced(rng);
    let start = if starts_in_second(next_rng) {
        probe.bucket_b
    } else {
        probe.bucket_a
    };
    let stops = lemma_failed_relocation(
        addressing,
        lane,
        start,
        probe.fingerprint,
        next_rng,
        max_kicks,
    );
    assert(walked_in_vain(addressing, lane, hash, stops, max_kicks + 1));
}

/// One kick is enough where it leads to an empty slot: if every fingerprint in
/// the block's two buckets could go to a bucket that is not full, the block
/// finds a place, unless no kick is allowed.
pub proof fn law_one_kick_finds_an_empty_slot(
    addressing: CkfAddressing,
    lane: Seq<u64>,
    hash: u64,
    rng: u64,
    max_kicks: nat,
)
    requires
        addressing.wf(),
        lane.len() == addressing.bucket_count(),
        max_kicks >= 1,
        forall|bucket: usize, slot: u64|
            (bucket == addressing.probe(hash).bucket_a || bucket == addressing.probe(hash).bucket_b)
                && slot < 4 ==> !is_full(
                lane[#[trigger] addressing.spec_alternate(
                    bucket,
                    slot_at(lane[bucket as int], slot),
                ) as int],
            ),
    ensures
        insertion(addressing, lane, hash, rng, max_kicks).placed,
{
    if !insertion(addressing, lane, hash, rng, max_kicks).placed {
        law_insertion_fails_only_after_all_kicks(addressing, lane, hash, rng, max_kicks);
        addressing.lemma_probe(hash);
        let stops = choose|stops: Seq<Stop>| #[trigger]
            walked_in_vain(addressing, lane, hash, stops, max_kicks + 1);
        let first = stops[0];
        let second = stops[1];
        assert(stops[0].leads_to(addressing, stops[0int + 1]));
        let slot = choose|slot: u64| first.kicks_to(addressing, slot, second);
        addressing.lemma_alternate(first.bucket, slot_at(lane[first.bucket as int], slot));
        assert(second.lane[second.bucket as int] == lane[second.bucket as int]);
        if max_kicks == 1 {
            assert(second == stops.last());
        } else {
            assert(stops[1].is_full());
        }
        assert(false);
    }
}

/// More kicks never hurt: a relocation that finds a place with some kicks finds
/// the same place with more.
proof fn lemma_more_kicks(
    addressing: CkfAddressing,
    lane: Seq<u64>,
    bucket: usize,
    fingerprint: u16,
    rng: u64,
    kicks: nat,
    more: nat,
)
    requires
        kicks <= more,
        relocation(addressing, lane, bucket, fingerprint, rng, kicks).placed,
    ensures
        relocation(addressing, lane, bucket, fingerprint, rng, more) == relocation(
            addressing,
            lane,
            bucket,
            fingerprint,
            rng,
            kicks,
        ),
        relocation(addressing, lane, bucket, fingerprint, rng, kicks).writes.len() <= kicks + 1,
    decreases kicks,
{
    let word = lane[bucket as int];
    if first_slot(word, 0) is None {
        let next_rng = advanced(rng);
        let slot = victim_slot(next_rng);
        let victim = slot_at(word, slot);
        lemma_more_kicks(
            addressing,
            lane.update(bucket as int, with_slot(word, slot, fingerprint)),
            addressing.spec_alternate(bucket, victim),
            victim,
            next_rng,
            (kicks - 1) as nat,
            (more - 1) as nat,
        );
    }
}

/// An insertion that finds a place with some kicks finds the same place with
/// every larger number of them, and makes no more than one write per kick and
/// one.
pub proof fn law_more_kicks_find_the_same_place(
    addressing: CkfAddressing,
    lane: Seq<u64>,
    hash: u64,
    rng: u64,
    kicks: nat,
    more: nat,
)
    requires
        kicks <= more,
        insertion(addressing, lane, hash, rng, kicks).placed,
    ensures
        insertion(addressing, lane, hash, rng, more) == insertion(
            addressing,
            lane,
            hash,
            rng,
            kicks,
        ),
        insertion(addressing, lane, hash, rng, kicks).writes.len() <= kicks + 1,
{
    let probe = addressing.probe(hash);
    if first_slot(lane[probe.bucket_a as int], 0) is None && first_slot(
        lane[probe.bucket_b as int],
        0,
    ) is None {
        let next_rng = advanced(rng);
        let start = if starts_in_second(next_rng) {
            probe.bucket_b
        } else {
            probe.bucket_a
        };
        lemma_more_kicks(addressing, lane, start, probe.fingerprint, next_rng, kicks, more);
    }
}

/// A relocation fills slots and empties none: full buckets stay full.
proof fn lemma_relocation_keeps_full(
    addressing: CkfAddressing,
    lane: Seq<u64>,
    bucket: usize,
    fingerprint: u16,
    rng: u64,
    kicks: nat,
    place: int,
)
    requires
        addressing.wf(),
        lane.len() == addressing.bucket_count(),
        bucket < lane.len(),
        fingerprint != 0,
        0 <= place < lane.len(),
        is_full(lane[place]),
    ensures
        is_full(relocation(addressing, lane, bucket, fingerprint, rng, kicks).lane[place]),
        relocation(addressing, lane, bucket, fingerprint, rng, kicks).lane.len() == lane.len(),
    decreases kicks,
{
    let word = lane[bucket as int];
    lemma_first_slot(word);
    match first_slot(word, 0) {
        Some(slot) => {
            lemma_with_slot(word, slot, fingerprint);
        },
        None => {
            if kicks > 0 {
                let next_rng = advanced(rng);
                let slot = victim_slot(next_rng);
                let victim = slot_at(word, slot);
                lemma_with_slot(word, slot, fingerprint);
                let next_lane = lane.update(bucket as int, with_slot(word, slot, fingerprint));
                addressing.lemma_alternate(bucket, victim);
                lemma_relocation_keeps_full(
                    addressing,
                    next_lane,
                    addressing.spec_alternate(bucket, victim),
                    victim,
                    next_rng,
                    (kicks - 1) as nat,
                    place,
                );
            }
        },
    }
}

/// An insertion empties no slot: full buckets stay full.
pub proof fn law_insertion_keeps_full_buckets_full(
    addressing: CkfAddressing,
    lane: Seq<u64>,
    hash: u64,
    rng: u64,
    max_kicks: nat,
    place: int,
)
    requires
        addressing.wf(),
        lane.len() == addressing.bucket_count(),
        0 <= place < lane.len(),
        is_full(lane[place]),
    ensures
        is_full(insertion(addressing, lane, hash, rng, max_kicks).lane[place]),
{
    addressing.lemma_probe(hash);
    let probe = addressing.probe(hash);
    let next_rng = advanced(rng);
    let fingerprint = probe.fingerprint;
    lemma_relocation_keeps_full(addressing, lane, probe.bucket_a, fingerprint, rng, 0, place);
    lemma_relocation_keeps_full(addressing, lane, probe.bucket_b, fingerprint, rng, 0, place);
    let start = if starts_in_second(next_rng) {
        probe.bucket_b
    } else {
        probe.bucket_a
    };
    lemma_relocation_keeps_full(
        addressing,
        lane,
        start,
        fingerprint,
        next_rng,
        max_kicks,
        place,
    );
}

/// A store that was granted room fails only for a cause: the count of owners is
/// at its limit, or the lane has no place for the block. In the second case
/// both of its buckets are full, and a walk of all the configured kicks met
/// only full buckets.
pub proof fn law_granted_store_fails_only_for_a_cause(state: DcCkfModel, key: u128, hash: u64)
    requires
        state.inv(),
        key < MEMBER_KEY_END,
        state.stored(key, hash, true).1 is Err,
    ensures
        match state.stored(key, hash, true).1 {
            Err(KvCacheEventError::IndexerInvariantViolation) => state.refcounts.contains_key(hash)
                && state.refcounts[hash] == u32::MAX,
            Err(KvCacheEventError::CapacityExhausted) => {
                &&& !state.refcounts.contains_key(hash)
                &&& is_full(state.lane[state.addressing.probe(hash).bucket_a as int])
                &&& is_full(state.lane[state.addressing.probe(hash).bucket_b as int])
                &&& exists|stops: Seq<Stop>| #[trigger]
                    walked_in_vain(
                        state.addressing,
                        state.lane,
                        hash,
                        stops,
                        (state.config.max_kicks + 1) as nat,
                    )
            },
            _ => false,
        },
{
    assert(state.refcounts.contains_key(hash) ==> state.refcounts[hash] > 0);
    if state.refcount(hash) == 0 {
        law_insertion_fails_only_after_all_kicks(
            state.addressing,
            state.lane,
            hash,
            state.rng,
            state.config.max_kicks as nat,
        );
    }
}

/// Two full buckets have eight slots in use.
proof fn lemma_two_full_buckets(lane: Seq<u64>, a: int, b: int)
    requires
        0 <= a < b < lane.len(),
        is_full(lane[a]),
        is_full(lane[b]),
    ensures
        slots_in_use(lane) >= 8,
    decreases lane.len(),
{
    let rest = lane.drop_last();
    lemma_no_negative_use(rest);
    if b < lane.len() - 1 {
        lemma_two_full_buckets(rest, a, b);
    } else {
        lemma_one_full_bucket(rest, a);
        assert(occupied_slots(lane.last()) == 4);
    }
}

/// A full bucket has four slots in use.
proof fn lemma_one_full_bucket(lane: Seq<u64>, a: int)
    requires
        0 <= a < lane.len(),
        is_full(lane[a]),
    ensures
        slots_in_use(lane) >= 4,
    decreases lane.len(),
{
    let rest = lane.drop_last();
    lemma_no_negative_use(rest);
    if a < lane.len() - 1 {
        lemma_one_full_bucket(rest, a);
    } else {
        assert(occupied_slots(lane.last()) == 4);
    }
}

/// Numbers of slots in use are not negative.
proof fn lemma_no_negative_use(lane: Seq<u64>)
    ensures
        slots_in_use(lane) >= 0,
    decreases lane.len(),
{
    if lane.len() > 0 {
        lemma_no_negative_use(lane.drop_last());
    }
}

/// The first eight blocks always find a place: with room granted, no store is
/// refused while fewer than eight blocks are owned.
pub proof fn law_first_eight_blocks_find_a_place(state: DcCkfModel, key: u128, hash: u64)
    requires
        state.inv(),
        key < MEMBER_KEY_END,
        state.refcounts.dom().len() < 8,
        state.refcount(hash) < u32::MAX,
    ensures
        state.stored(key, hash, true).1 is Ok,
        owns(state.stored(key, hash, true).0.members, key, hash),
{
    state.lemma_stored(key, hash, true);
    crate::ownership::lemma_with_block(state.members, key, hash);
    if state.stored(key, hash, true).1 is Err {
        law_granted_store_fails_only_for_a_cause(state, key, hash);
        state.addressing.lemma_probe(hash);
        let a = state.addressing.probe(hash).bucket_a as int;
        let b = state.addressing.probe(hash).bucket_b as int;
        if a < b {
            lemma_two_full_buckets(state.lane, a, b);
        } else {
            lemma_two_full_buckets(state.lane, b, a);
        }
    }
}

/// The bucket of a block in which a walk begins.
pub open spec fn drawn_bucket(addressing: CkfAddressing, hash: u64, rng: u64) -> usize {
    if starts_in_second(advanced(rng)) {
        addressing.probe(hash).bucket_b
    } else {
        addressing.probe(hash).bucket_a
    }
}

/// One kick of the victim that is drawn is enough where it leads to an empty
/// slot: with both buckets of the block full and at least one kick allowed, the
/// block finds a place if the other bucket of the drawn victim is not full.
pub proof fn law_drawn_victim_makes_room(
    addressing: CkfAddressing,
    lane: Seq<u64>,
    hash: u64,
    rng: u64,
    max_kicks: nat,
)
    requires
        addressing.wf(),
        lane.len() == addressing.bucket_count(),
        max_kicks >= 1,
        ({
            let probe = addressing.probe(hash);
            let start = drawn_bucket(addressing, hash, rng);
            let victim = slot_at(lane[start as int], victim_slot(advanced(advanced(rng))));
            &&& is_full(lane[probe.bucket_a as int])
            &&& is_full(lane[probe.bucket_b as int])
            &&& !is_full(lane[addressing.spec_alternate(start, victim) as int])
        }),
    ensures
        ({
            let probe = addressing.probe(hash);
            let start = drawn_bucket(addressing, hash, rng);
            let slot = victim_slot(advanced(advanced(rng)));
            let victim = slot_at(lane[start as int], slot);
            let other = addressing.spec_alternate(start, victim);
            let after = insertion(addressing, lane, hash, rng, max_kicks);
            &&& after.placed
            &&& slot_at(after.lane[start as int], slot) == probe.fingerprint
            &&& exists|empty: u64|
                empty < 4 && slot_at(lane[other as int], empty) == 0 && #[trigger] slot_at(
                    after.lane[other as int],
                    empty,
                ) == victim
            &&& forall|place: int|
                0 <= place < lane.len() && place != start && place != other
                    ==> #[trigger] after.lane[place] == lane[place]
        }),
{
    let probe = addressing.probe(hash);
    addressing.lemma_probe(hash);
    let start = drawn_bucket(addressing, hash, rng);
    let word = lane[start as int];
    let slot = victim_slot(advanced(advanced(rng)));
    let victim = slot_at(word, slot);
    let other = addressing.spec_alternate(start, victim);
    addressing.lemma_alternate(start, victim);
    lemma_first_slot(lane[probe.bucket_a as int]);
    lemma_first_slot(lane[probe.bucket_b as int]);
    lemma_first_slot(lane[other as int]);
    lemma_with_slot(word, slot, probe.fingerprint);
    let next = lane.update(start as int, with_slot(word, slot, probe.fingerprint));
    assert(next[other as int] == lane[other as int]);
    let empty = first_slot(lane[other as int], 0).unwrap();
    lemma_with_slot(lane[other as int], empty, victim);
    let end = relocation(
        addressing,
        next,
        other,
        victim,
        advanced(advanced(rng)),
        (max_kicks - 1) as nat,
    );
    assert(end.lane == next.update(other as int, with_slot(lane[other as int], empty, victim)));
    let after = insertion(addressing, lane, hash, rng, max_kicks);
    assert(relocation(addressing, lane, start, probe.fingerprint, advanced(rng), max_kicks).lane
        == end.lane);
    assert(after.placed && after.lane == end.lane);
    assert(slot_at(after.lane[other as int], empty) == victim);
}

/// A relocation draws once for every kick.
proof fn lemma_one_draw_per_kick(
    addressing: CkfAddressing,
    lane: Seq<u64>,
    bucket: usize,
    fingerprint: u16,
    rng: u64,
    kicks: nat,
)
    ensures
        ({
            let end = relocation(addressing, lane, bucket, fingerprint, rng, kicks);
            let drawn: int = if end.placed {
                end.writes.len() - 1
            } else {
                kicks as int
            };
            &&& end.rng == (rng + drawn * STATE_STEP) % 0x1_0000_0000_0000_0000
            &&& end.placed ==> end.writes.len() > 0
        }),
    decreases kicks,
{
    let word = lane[bucket as int];
    if first_slot(word, 0) is None && kicks > 0 {
        let next_rng = advanced(rng);
        let slot = victim_slot(next_rng);
        let victim = slot_at(word, slot);
        let next_lane = lane.update(bucket as int, with_slot(word, slot, fingerprint));
        let next_bucket = addressing.spec_alternate(bucket, victim);
        lemma_one_draw_per_kick(
            addressing,
            next_lane,
            next_bucket,
            victim,
            next_rng,
            (kicks - 1) as nat,
        );
        let rest = relocation(
            addressing,
            next_lane,
            next_bucket,
            victim,
            next_rng,
            (kicks - 1) as nat,
        );
        let drawn: int = if rest.placed {
            rest.writes.len() - 1
        } else {
            kicks - 1
        };
        vstd::arithmetic::div_mod::lemma_mod_add_multiples_vanish(
            next_rng + drawn * STATE_STEP,
            0x1_0000_0000_0000_0000,
        );
    } else {
        vstd::arithmetic::div_mod::lemma_small_mod(rng as nat, 0x1_0000_0000_0000_0000);
    }
}

/// An insertion draws only where both buckets of the block are full: once for
/// the bucket to start in, and once for every kick, whether it finds a place or
/// not.
pub proof fn law_insertion_draws_once_per_kick(
    addressing: CkfAddressing,
    lane: Seq<u64>,
    hash: u64,
    rng: u64,
    max_kicks: nat,
)
    ensures
        ({
            let probe = addressing.probe(hash);
            let end = insertion(addressing, lane, hash, rng, max_kicks);
            let drawn: int = if !is_full(lane[probe.bucket_a as int]) || !is_full(
                lane[probe.bucket_b as int],
            ) {
                0
            } else if end.placed {
                end.writes.len() as int
            } else {
                (max_kicks + 1) as int
            };
            end.rng == (rng + drawn * STATE_STEP) % 0x1_0000_0000_0000_0000
        }),
{
    let probe = addressing.probe(hash);
    lemma_first_slot(lane[probe.bucket_a as int]);
    lemma_first_slot(lane[probe.bucket_b as int]);
    vstd::arithmetic::div_mod::lemma_small_mod(rng as nat, 0x1_0000_0000_0000_0000);
    if is_full(lane[probe.bucket_a as int]) && is_full(lane[probe.bucket_b as int]) {
        let next_rng = advanced(rng);
        let start = drawn_bucket(addressing, hash, rng);
        let fingerprint = probe.fingerprint;
        lemma_one_draw_per_kick(addressing, lane, start, fingerprint, next_rng, max_kicks);
        let end = relocation(addressing, lane, start, fingerprint, next_rng, max_kicks);
        let drawn: int = if end.placed {
            end.writes.len() - 1
        } else {
            max_kicks as int
        };
        vstd::arithmetic::div_mod::lemma_mod_add_multiples_vanish(
            next_rng + drawn * STATE_STEP,
            0x1_0000_0000_0000_0000,
        );
    }
}

/// An insertion that finds a place makes a write.
pub proof fn lemma_placement_writes(
    addressing: CkfAddressing,
    lane: Seq<u64>,
    hash: u64,
    rng: u64,
    max_kicks: nat,
)
    requires
        insertion(addressing, lane, hash, rng, max_kicks).placed,
    ensures
        insertion(addressing, lane, hash, rng, max_kicks).writes.len() > 0,
{
    let probe = addressing.probe(hash);
    let start = drawn_bucket(addressing, hash, rng);
    lemma_one_draw_per_kick(addressing, lane, probe.bucket_a, probe.fingerprint, rng, 0);
    lemma_one_draw_per_kick(addressing, lane, probe.bucket_b, probe.fingerprint, rng, 0);
    lemma_one_draw_per_kick(
        addressing,
        lane,
        start,
        probe.fingerprint,
        advanced(rng),
        max_kicks,
    );
}

/// Whether two lanes differ in one slot of one bucket.
pub open spec fn differ_in_one_slot(
    before: Seq<u64>,
    after: Seq<u64>,
    bucket: usize,
    slot: u64,
) -> bool {
    &&& slot < 4
    &&& before.len() == after.len()
    &&& forall|place: int|
        0 <= place < before.len() && place != bucket ==> #[trigger] after[place] == before[place]
    &&& forall|other: u64|
        other < 4 && other != slot ==> #[trigger] slot_at(after[bucket as int], other) == slot_at(
            before[bucket as int],
            other,
        )
}

/// A block with an empty slot in one of its buckets needs no kick: its
/// fingerprint takes an empty slot of one of them, and every other slot of the
/// lane stays as it was.
pub proof fn law_empty_slot_is_taken(
    addressing: CkfAddressing,
    lane: Seq<u64>,
    hash: u64,
    rng: u64,
    max_kicks: nat,
)
    requires
        addressing.wf(),
        lane.len() == addressing.bucket_count(),
        !is_full(lane[addressing.probe(hash).bucket_a as int]) || !is_full(
            lane[addressing.probe(hash).bucket_b as int],
        ),
    ensures
        ({
            let probe = addressing.probe(hash);
            let after = insertion(addressing, lane, hash, rng, max_kicks);
            &&& after.placed
            &&& after.rng == rng
            &&& exists|bucket: usize, slot: u64|
                {
                    &&& bucket == probe.bucket_a || bucket == probe.bucket_b
                    &&& #[trigger] differ_in_one_slot(lane, after.lane, bucket, slot)
                    &&& slot_at(lane[bucket as int], slot) == 0
                    &&& slot_at(after.lane[bucket as int], slot) == probe.fingerprint
                    &&& after.writes == seq![(bucket, lane[bucket as int])]
                }
        }),
{
    let probe = addressing.probe(hash);
    addressing.lemma_probe(hash);
    lemma_first_slot(lane[probe.bucket_a as int]);
    lemma_first_slot(lane[probe.bucket_b as int]);
    let bucket = if is_full(lane[probe.bucket_a as int]) {
        probe.bucket_b
    } else {
        probe.bucket_a
    };
    let word = lane[bucket as int];
    let slot = first_slot(word, 0).unwrap();
    lemma_with_slot(word, slot, probe.fingerprint);
    let after = insertion(addressing, lane, hash, rng, max_kicks);
    assert(after.lane == lane.update(bucket as int, with_slot(word, slot, probe.fingerprint)));
    assert(differ_in_one_slot(lane, after.lane, bucket, slot));
}

/// Whether a slot of a word holds a fingerprint.
pub open spec fn holds(word: u64, fingerprint: u16) -> bool {
    ||| slot_at(word, 0) == fingerprint
    ||| slot_at(word, 1) == fingerprint
    ||| slot_at(word, 2) == fingerprint
    ||| slot_at(word, 3) == fingerprint
}

/// A slot that holds a fingerprint is found, and overwriting it changes no other
/// slot of the lane.
proof fn lemma_overwritten(lane: Seq<u64>, bucket: usize, fingerprint: u16, with: u16)
    requires
        bucket < lane.len(),
    ensures
        ({
            let word = lane[bucket as int];
            let slot = first_slot(word, fingerprint).unwrap();
            let after = lane.update(bucket as int, with_slot(word, slot, with));
            &&& first_slot(word, fingerprint) is Some <==> holds(word, fingerprint)
            &&& first_slot(word, fingerprint) is Some ==> {
                &&& differ_in_one_slot(lane, after, bucket, slot)
                &&& slot_at(word, slot) == fingerprint
                &&& slot_at(after[bucket as int], slot) == with
            }
        }),
{
    let word = lane[bucket as int];
    if first_slot(word, fingerprint) is Some {
        lemma_with_slot(word, first_slot(word, fingerprint).unwrap(), with);
    }
}

/// Whether a write emptied one slot that held a fingerprint, and left every
/// other slot as it was.
pub open spec fn emptied_one_slot(
    before: Seq<u64>,
    after: Seq<u64>,
    write: Write,
    fingerprint: u16,
) -> bool {
    &&& write.1 == before[write.0 as int]
    &&& exists|slot: u64|
        {
            &&& #[trigger] differ_in_one_slot(before, after, write.0, slot)
            &&& slot_at(before[write.0 as int], slot) == fingerprint
            &&& slot_at(after[write.0 as int], slot) == 0
        }
}

/// Taking a block out of a lane empties one slot of one of its buckets, one that
/// held its fingerprint, and leaves every other slot as it was. It fails exactly
/// where neither bucket holds the fingerprint.
pub proof fn law_removal_empties_one_slot(addressing: CkfAddressing, lane: Seq<u64>, hash: u64)
    requires
        addressing.wf(),
        lane.len() == addressing.bucket_count(),
    ensures
        removal(addressing, lane, hash) is Some <==> (holds(
            lane[addressing.probe(hash).bucket_a as int],
            addressing.probe(hash).fingerprint,
        ) || holds(
            lane[addressing.probe(hash).bucket_b as int],
            addressing.probe(hash).fingerprint,
        )),
        removal(addressing, lane, hash) matches Some((write, after)) ==> {
            let probe = addressing.probe(hash);
            &&& write.0 == probe.bucket_a || write.0 == probe.bucket_b
            &&& emptied_one_slot(lane, after, write, probe.fingerprint)
        },
{
    let probe = addressing.probe(hash);
    addressing.lemma_probe(hash);
    lemma_overwritten(lane, probe.bucket_a, probe.fingerprint, 0);
    lemma_overwritten(lane, probe.bucket_b, probe.fingerprint, 0);
    if let Some((write, after)) = removal(addressing, lane, hash) {
        let slot = first_slot(lane[write.0 as int], probe.fingerprint).unwrap();
        assert(differ_in_one_slot(lane, after, write.0, slot));
    }
}

/// A word is its four fingerprints one after the other, the first in the lowest
/// bits.
pub proof fn law_word_is_its_four_slots(word: u64)
    ensures
        word == slot_at(word, 0) + 0x1_0000 * slot_at(word, 1) + 0x1_0000_0000 * slot_at(word, 2)
            + 0x1_0000_0000_0000 * slot_at(word, 3),
{
    assert(word == slot_at(word, 0) + 0x1_0000 * slot_at(word, 1) + 0x1_0000_0000 * slot_at(
        word,
        2,
    ) + 0x1_0000_0000_0000 * slot_at(word, 3)) by (bit_vector);
}

} // verus!
