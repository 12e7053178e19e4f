//! What holds of aggregation and publication as a whole.
use crate::model::{Choices, DcCkfModel};
use crate::protocol::{KvCacheEventError, RouterEvent, WorkerWithDpRank};
use crate::publication::{DcCkfBucketImage, DeltaModel, OutcomeModel};
use vstd::prelude::*;
#[allow(unused_imports)]
use crate::bucket::{first_slot, lemma_with_slot, slot_at, with_slot};
#[allow(unused_imports)]
use crate::addressing::CkfAddressing;
#[allow(unused_imports)]
use crate::census::{buckets_in_use, lemma_buckets_and_slots, slots_in_use};
#[allow(unused_imports)]
use crate::model::{changed_images, total};
#[allow(unused_imports)]
use crate::mutator::Write;
#[allow(unused_imports)]
use crate::occupancy::{
    is_empty_lane, lemma_empty_exactly_when_nothing_held, lemma_lookup, represents,
};
#[allow(unused_imports)]
use crate::ownership::{
    contributions, contributions_of, is_ignored, lemma_contributions_of_all,
    lemma_contributions_of_one_more, lemma_no_contributions, lemma_with_block, lemma_without_block, lemma_members_after, lemma_members_after_all,
    lemma_replay_decides_the_same, lemma_same_blocks, owned_after, lemma_with_replaced, lemma_without_blocks,
    members_after, members_after_all, members_wf, owners, owns, Members,
};
#[allow(unused_imports)]
use crate::protocol::{member_worker, KvCacheEventData, MEMBER_KEY_END};
#[allow(unused_imports)]
use crate::publication::with_images;
#[allow(unused_imports)]
use crate::upkeep::lemma_owners_finite;
#[allow(unused_imports)]
use crate::window::{
    distinct, in_lane, lemma_published_word, published, published_word, touches,
};

verus! {

/// The lane that a reader has after an answer that may hold a delta.
pub open spec fn read(lane: Seq<u64>, delta: Option<DeltaModel>) -> Seq<u64> {
    match delta {
        Some(delta) => delta.applied_to(lane),
        None => lane,
    }
}

/// Whether an answer that may hold a delta continues a sequence.
pub open spec fn continues(sequence: u64, delta: Option<DeltaModel>) -> bool {
    match delta {
        Some(delta) => delta.base_sequence == sequence && delta.sequence
            == sequence.saturating_add(1),
        None => true,
    }
}

/// The sequence that a reader has after an answer that may hold a delta.
pub open spec fn sequence_after(sequence: u64, delta: Option<DeltaModel>) -> u64 {
    match delta {
        Some(delta) => delta.sequence,
        None => sequence,
    }
}

/// Images of the first touched buckets bring a reader up to date in those.
proof fn lemma_images(lane: Seq<u64>, touched: Seq<Write>, count: int)
    requires
        lane.len() <= usize::MAX,
        distinct(touched),
        in_lane(touched, lane.len() as int),
        0 <= count <= touched.len(),
    ensures
        with_images(published(lane, touched), changed_images(lane, touched.take(count))).len()
            == lane.len(),
        forall|bucket: int|
            0 <= bucket < lane.len() ==> #[trigger] with_images(
                published(lane, touched),
                changed_images(lane, touched.take(count)),
            )[bucket] == (if touches(touched.take(count), bucket as usize) {
                lane[bucket]
            } else {
                published(lane, touched)[bucket]
            }),
    decreases count,
{
    let done = touched.take(count);
    if count > 0 {
        let rest = touched.take(count - 1);
        let (bucket, original) = touched[count - 1];
        lemma_images(lane, touched, count - 1);
        lemma_published_word(lane, touched, count - 1);
        assert(done.drop_last() =~= rest);
        assert(done.last() == touched[count - 1]);
        let before = with_images(published(lane, touched), changed_images(lane, rest));
        let after = with_images(published(lane, touched), changed_images(lane, done));
        if lane[bucket as int] != original {
            let image = DcCkfBucketImage { bucket, value: lane[bucket as int] };
            assert(changed_images(lane, done).drop_last() =~= changed_images(lane, rest));
            assert(after == before.update(bucket as int, lane[bucket as int]));
        }
        assert forall|place: int| 0 <= place < lane.len() implies #[trigger] after[place] == (
        if touches(done, place as usize) {
            lane[place]
        } else {
            published(lane, touched)[place]
        }) by {
            if touches(rest, place as usize) {
                let i = choose|i: int| 0 <= i < rest.len() && #[trigger] rest[i].0 == place as usize;
                assert(done[i].0 == place as usize);
            }
            if place == bucket {
                assert(done[count - 1].0 == place as usize);
                if touches(rest, bucket) {
                    let i = choose|i: int| 0 <= i < rest.len() && #[trigger] rest[i].0 == bucket;
                    assert(touched[i].0 != touched[count - 1].0);
                }
            } else if touches(done, place as usize) {
                let i = choose|i: int| 0 <= i < done.len() && #[trigger] done[i].0 == place as usize;
                assert(rest[i].0 == place as usize);
            }
        }
    }
}

/// Images stand for touched buckets that changed, each once.
proof fn lemma_changed_images(lane: Seq<u64>, touched: Seq<Write>)
    requires
        distinct(touched),
    ensures
        changed_images(lane, touched).len() <= touched.len(),
        forall|image: DcCkfBucketImage| #[trigger]
            changed_images(lane, touched).contains(image) == (image.value
                == lane[image.bucket as int] && exists|i: int|
                0 <= i < touched.len() && (#[trigger] touched[i]).0 == image.bucket
                    && touched[i].1 != image.value),
        forall|i: int, j: int|
            0 <= i < j < changed_images(lane, touched).len() ==> (#[trigger] changed_images(
                lane,
                touched,
            )[i]).bucket != (#[trigger] changed_images(lane, touched)[j]).bucket,
    decreases touched.len(),
{
    if touched.len() > 0 {
        let rest = touched.drop_last();
        let last = touched.last();
        let part = changed_images(lane, rest);
        let all = changed_images(lane, touched);
        let added = DcCkfBucketImage { bucket: last.0, value: lane[last.0 as int] };
        lemma_changed_images(lane, rest);
        assert forall|image: DcCkfBucketImage| #[trigger]
            all.contains(image) == (image.value == lane[image.bucket as int] && exists|i: int|
                0 <= i < touched.len() && (#[trigger] touched[i]).0 == image.bucket
                    && touched[i].1 != image.value) by {
            vstd::seq_lib::lemma_seq_contains_after_push(part, added, image);
            if part.contains(image) {
                let i = choose|i: int|
                    0 <= i < rest.len() && (#[trigger] rest[i]).0 == image.bucket && rest[i].1
                        != image.value;
                assert(touched[i] == rest[i]);
            }
            if image.value == lane[image.bucket as int] && exists|i: int|
                0 <= i < touched.len() && (#[trigger] touched[i]).0 == image.bucket
                    && touched[i].1 != image.value {
                let i = choose|i: int|
                    0 <= i < touched.len() && (#[trigger] touched[i]).0 == image.bucket
                        && touched[i].1 != image.value;
                if i < rest.len() {
                    assert(rest[i] == touched[i]);
                } else {
                    assert(touched[i] == last);
                }
            }
            if image == added && lane[last.0 as int] != last.1 {
                assert(touched[touched.len() - 1] == last);
            }
        }
        assert forall|i: int| 0 <= i < part.len() implies (#[trigger] part[i]).bucket != last.0 by {
            assert(part.contains(part[i]));
            let j = choose|j: int|
                0 <= j < rest.len() && (#[trigger] rest[j]).0 == part[i].bucket && rest[j].1
                    != part[i].value;
            assert(touched[j].0 != touched[touched.len() - 1].0);
        }
    }
}

/// A delta takes a reader from what it last saw to the lane as it is. Without
/// one, the reader has the lane as it is already.
pub proof fn law_delta_brings_reader_up_to_date(state: DcCkfModel)
    requires
        state.inv(),
    ensures
        read(state.published(), state.drained().1) == state.lane,
        state.drained().0.published() == state.lane,
{
    state.lemma_drained();
    state.addressing.lemma_bucket_count();
    let lane = state.lane;
    let touched = state.touched;
    let count = touched.len() as int;
    let reset = state.refcounts.dom().is_empty() && state.published_nonempty;
    if state.pending_events == 0 && count == 0 {
        assert(touched =~= Seq::empty());
        assert(state.published() =~= lane);
    } else if reset {
        lemma_empty_exactly_when_nothing_held(state.addressing, lane, state.refcounts.dom());
        assert(Seq::new(state.published().len(), |i: int| 0u64) =~= lane);
    } else {
        lemma_images(lane, touched, count);
        assert(touched.take(count) =~= touched);
        assert(with_images(state.published(), changed_images(lane, touched)) =~= lane);
    }
}

/// A delta is published exactly when the lane differs from what subscribers
/// last saw: changes that revert each other within a window are suppressed.
pub proof fn law_delta_exactly_when_lane_changed(state: DcCkfModel)
    requires
        state.inv(),
    ensures
        state.drained().1 is None <==> state.lane == state.published(),
{
    law_delta_brings_reader_up_to_date(state);
    let lane = state.lane;
    let touched = state.touched;
    if state.drained().1 is Some && lane == state.published() {
        lemma_empty_exactly_when_nothing_held(state.addressing, lane, state.refcounts.dom());
        lemma_changed_images(lane, touched);
        let images = changed_images(lane, touched);
        assert(images.contains(images[0]));
        let i = choose|i: int|
            0 <= i < touched.len() && (#[trigger] touched[i]).0 == images[0].bucket && touched[i].1
                != images[0].value;
        lemma_published_word(lane, touched, i);
        assert(state.published()[touched[i].0 as int] == touched[i].1);
    }
}

/// The images of a delta are the buckets that differ from what subscribers
/// last saw, each once and with its present word. A reset names no buckets.
pub proof fn law_images_are_the_changed_buckets(state: DcCkfModel, bucket: usize)
    requires
        state.inv(),
        bucket < state.lane.len(),
        state.drained().1 is Some,
        !state.drained().1.unwrap().reset,
    ensures
        ({
            let images = state.drained().1.unwrap().images;
            &&& images.contains(
                DcCkfBucketImage { bucket, value: state.lane[bucket as int] },
            ) <==> state.lane[bucket as int] != state.published()[bucket as int]
            &&& forall|image: DcCkfBucketImage| #[trigger]
                images.contains(image) && image.bucket == bucket ==> image.value
                    == state.lane[bucket as int]
            &&& forall|i: int, j: int|
                0 <= i < j < images.len() ==> (#[trigger] images[i]).bucket != (
                #[trigger] images[j]).bucket
        }),
{
    let lane = state.lane;
    let touched = state.touched;
    let image = DcCkfBucketImage { bucket, value: lane[bucket as int] };
    lemma_changed_images(lane, touched);
    if changed_images(lane, touched).contains(image) {
        let i = choose|i: int|
            0 <= i < touched.len() && (#[trigger] touched[i]).0 == bucket && touched[i].1
                != image.value;
        lemma_published_word(lane, touched, i);
    }
    if lane[bucket as int] != state.published()[bucket as int] {
        assert(published_word(lane, touched, bucket as int) != lane[bucket as int]);
        let i = choose|i: int| 0 <= i < touched.len() && #[trigger] touched[i].0 == bucket;
        lemma_published_word(lane, touched, i);
    }
}

/// A reset is published exactly when the last owned block is gone and
/// subscribers have seen a block.
pub proof fn law_reset_exactly_when_emptied(state: DcCkfModel)
    requires
        state.inv(),
    ensures
        (state.drained().1 is Some && state.drained().1.unwrap().reset) <==> (is_empty_lane(
            state.lane,
        ) && !is_empty_lane(state.published())),
        is_empty_lane(state.lane) <==> state.members.dom().is_empty(),
{
    lemma_empty_exactly_when_nothing_held(state.addressing, state.lane, state.refcounts.dom());
    if state.pending_events == 0 && state.touched.len() == 0 {
        assert(state.touched =~= Seq::empty());
        assert(state.published() =~= state.lane);
    }
    if state.members.dom().is_empty() {
        assert forall|hash: u64| !state.refcounts.contains_key(hash) by {
            assert(owners(state.members, hash) =~= Set::empty());
        }
        assert(state.refcounts.dom() =~= Set::empty());
    } else {
        let key = state.members.dom().choose();
        assert(!(state.members.dom() =~= Set::empty()));
        assert(state.members.contains_key(key));
        let hash = state.members[key].choose();
        assert(!(state.members[key] =~= Set::empty()));
        assert(owners(state.members, hash).contains(key));
        lemma_owners_finite(state.members, hash);
        assert(owners(state.members, hash).len() > 0);
        assert(state.refcounts.contains_key(hash));
    }
}

/// A delta starts at the sequence of the state that publishes it and ends one
/// further, where that state then is. Without a delta the sequence stays.
pub proof fn law_deltas_chain(state: DcCkfModel)
    requires
        state.inv(),
    ensures
        continues(state.sequence, state.drained().1),
        state.drained().0.sequence == sequence_after(state.sequence, state.drained().1),
{
}

/// A reader that applies the delta of an event stays in step with what
/// subscribers were told, in content and in sequence.
pub proof fn law_reader_follows_event(state: DcCkfModel, event: RouterEvent, choices: Choices)
    requires
        state.inv(),
        state.choices_fit(event, choices),
    ensures
        state.applied(event, choices).0.inv(),
        read(state.published(), state.applied(event, choices).1.delta) == state.applied(
            event,
            choices,
        ).0.published(),
        continues(state.sequence, state.applied(event, choices).1.delta),
        state.applied(event, choices).0.sequence == sequence_after(
            state.sequence,
            state.applied(event, choices).1.delta,
        ),
{
    state.lemma_applied(event, choices);
    if !is_ignored(event) {
        let key = event.member().spec_key();
        crate::protocol::law_member_keys_order_members(event.member(), event.member());
        let counted = state.counting_event();
        assert(counted.published() == state.published());
        assert(counted.inv());
        let (changed, first_error, unknown) = counted.recorded(event, choices);
        match event.event.data {
            KvCacheEventData::Stored(store) => {
                counted.lemma_stored_all(key, store.hashes(), choices.grants);
            },
            KvCacheEventData::Removed(remove) => {
                counted.lemma_removed_all(key, remove.hashes());
            },
            KvCacheEventData::Cleared => {
                let count = choices.order.len() as int;
                counted.lemma_swept_all(event.worker_id, choices.order, choices.sweeps, count);
                assert(choices.order.take(count) =~= choices.order);
            },
        }
        let noted = changed.noting_unknown(unknown);
        assert(noted.published() == changed.published());
        assert(noted.inv());
        law_delta_brings_reader_up_to_date(noted);
    }
}

/// Whether choices fit a history of events, one after the other.
pub open spec fn history_fits(
    state: DcCkfModel,
    events: Seq<RouterEvent>,
    choices: Seq<Choices>,
) -> bool
    decreases events.len(),
{
    if events.len() == 0 {
        true
    } else {
        history_fits(state, events.drop_last(), choices) && state_after(
            state,
            events.drop_last(),
            choices,
        ).choices_fit(events.last(), choices[events.len() - 1])
    }
}

/// The state after a history of events.
pub open spec fn state_after(
    state: DcCkfModel,
    events: Seq<RouterEvent>,
    choices: Seq<Choices>,
) -> DcCkfModel
    decreases events.len(),
{
    if events.len() == 0 {
        state
    } else {
        state_after(state, events.drop_last(), choices).applied(
            events.last(),
            choices[events.len() - 1],
        ).0
    }
}

/// The lane of a reader that started from a base and applied the delta of
/// every event of a history.
pub open spec fn lane_read(
    base: Seq<u64>,
    state: DcCkfModel,
    events: Seq<RouterEvent>,
    choices: Seq<Choices>,
) -> Seq<u64>
    decreases events.len(),
{
    if events.len() == 0 {
        base
    } else {
        read(
            lane_read(base, state, events.drop_last(), choices),
            state_after(state, events.drop_last(), choices).applied(
                events.last(),
                choices[events.len() - 1],
            ).1.delta,
        )
    }
}

/// Whether no event of a history met an error.
pub open spec fn unhindered(
    state: DcCkfModel,
    events: Seq<RouterEvent>,
    choices: Seq<Choices>,
) -> bool
    decreases events.len(),
{
    if events.len() == 0 {
        true
    } else {
        unhindered(state, events.drop_last(), choices) && state_after(
            state,
            events.drop_last(),
            choices,
        ).applied(events.last(), choices[events.len() - 1]).1.first_error is None
    }
}

/// A snapshot and the deltas after it, in order, reconstruct the producer's
/// bytes: what subscribers were told after any history, and once the window is
/// closed, the lane itself.
pub proof fn law_snapshot_and_deltas_reconstruct_the_lane(
    state: DcCkfModel,
    events: Seq<RouterEvent>,
    choices: Seq<Choices>,
)
    requires
        state.inv(),
        history_fits(state.drained().0, events, choices),
    ensures
        ({
            let start = state.drained().0;
            let after = state_after(start, events, choices);
            let reader = lane_read(start.snapshot().buckets, start, events, choices);
            &&& after.inv()
            &&& reader == after.published()
            &&& read(reader, after.drained().1) == after.lane
        }),
    decreases events.len(),
{
    let start = state.drained().0;
    state.lemma_drained();
    if events.len() > 0 {
        law_snapshot_and_deltas_reconstruct_the_lane(state, events.drop_last(), choices);
        law_reader_follows_event(
            state_after(start, events.drop_last(), choices),
            events.last(),
            choices[events.len() - 1],
        );
    }
    law_delta_brings_reader_up_to_date(state_after(start, events, choices));
}

/// A history that met no error leaves the ownership that its events say.
pub proof fn law_history_decides_ownership(
    state: DcCkfModel,
    events: Seq<RouterEvent>,
    choices: Seq<Choices>,
)
    requires
        state.inv(),
        history_fits(state, events, choices),
        unhindered(state, events, choices),
    ensures
        state_after(state, events, choices).inv(),
        state_after(state, events, choices).members == members_after_all(state.members, events),
        forall|key: u128, hash: u64| #[trigger]
            owns(state_after(state, events, choices).members, key, hash) == owned_after(
                events,
                key,
                hash,
                owns(state.members, key, hash),
            ),
    decreases events.len(),
{
    lemma_members_after_all(state.members, events);
    if events.len() > 0 {
        law_history_decides_ownership(state, events.drop_last(), choices);
        state_after(state, events.drop_last(), choices).lemma_applied(
            events.last(),
            choices[events.len() - 1],
        );
    }
}

/// Who owns what decides every count.
pub proof fn law_ownership_decides_refcounts(a: DcCkfModel, b: DcCkfModel)
    requires
        a.inv(),
        b.inv(),
        a.members == b.members,
    ensures
        a.refcounts == b.refcounts,
{
    assert forall|hash: u64| #[trigger]
        a.refcounts.contains_key(hash) == b.refcounts.contains_key(hash) by {
        assert(a.refcounts.contains_key(hash) == (owners(a.members, hash).len() > 0));
        assert(b.refcounts.contains_key(hash) == (owners(b.members, hash).len() > 0));
    }
    assert(a.refcounts =~= b.refcounts);
}

/// Replay is logically idempotent: a state that has seen a first part of a
/// history, and then sees it again from anywhere in that part on, ends with the
/// same owners and counts as one that sees it once. The two may differ in
/// layout.
pub proof fn law_replay_converges(
    state: DcCkfModel,
    events: Seq<RouterEvent>,
    seen: int,
    from: int,
    seen_choices: Seq<Choices>,
    replay_choices: Seq<Choices>,
    direct_choices: Seq<Choices>,
)
    requires
        state.inv(),
        0 <= from <= seen <= events.len(),
        history_fits(state, events.take(seen), seen_choices),
        unhindered(state, events.take(seen), seen_choices),
        ({
            let resumed = state_after(state, events.take(seen), seen_choices);
            history_fits(resumed, events.skip(from), replay_choices) && unhindered(
                resumed,
                events.skip(from),
                replay_choices,
            )
        }),
        history_fits(state, events, direct_choices),
        unhindered(state, events, direct_choices),
    ensures
        ({
            let resumed = state_after(state, events.take(seen), seen_choices);
            let replayed = state_after(resumed, events.skip(from), replay_choices);
            let direct = state_after(state, events, direct_choices);
            replayed.members == direct.members && replayed.refcounts == direct.refcounts
        }),
{
    let first = events.take(seen);
    let again = events.skip(from);
    let resumed = state_after(state, first, seen_choices);
    let replayed = state_after(resumed, again, replay_choices);
    let direct = state_after(state, events, direct_choices);
    law_history_decides_ownership(state, first, seen_choices);
    law_history_decides_ownership(resumed, again, replay_choices);
    law_history_decides_ownership(state, events, direct_choices);
    assert forall|key: u128, hash: u64| #[trigger]
        owns(replayed.members, key, hash) == owns(direct.members, key, hash) by {
        lemma_replay_decides_the_same(
            events,
            seen,
            from,
            key,
            hash,
            owns(state.members, key, hash),
        );
        assert(owns(resumed.members, key, hash) == owned_after(
            first,
            key,
            hash,
            owns(state.members, key, hash),
        ));
    }
    lemma_same_blocks(replayed.members, direct.members);
    law_ownership_decides_refcounts(replayed, direct);
}

/// A block that anyone owns is never missed by a lookup, and is counted once
/// per owner.
pub proof fn law_lookup_misses_no_owned_block(state: DcCkfModel, key: u128, hash: u64)
    requires
        state.inv(),
        owns(state.members, key, hash),
    ensures
        state.may_contain(hash),
        state.refcounts.contains_key(hash),
        state.refcount(hash) == owners(state.members, hash).len(),
{
    lemma_owners_finite(state.members, hash);
    assert(owners(state.members, hash).contains(key));
    assert(owners(state.members, hash).len() > 0);
    assert(state.refcounts.contains_key(hash));
    lemma_lookup(state.addressing, state.lane, state.refcounts.dom(), hash);
}

/// A block stays for as long as someone owns it: when one owner gives it up,
/// the count falls by one, and the block is gone only with the last owner.
pub proof fn law_shared_block_stays_until_last_owner_leaves(
    state: DcCkfModel,
    key: u128,
    hash: u64,
)
    requires
        state.inv(),
        owns(state.members, key, hash),
    ensures
        ({
            let (after, found) = state.removed(key, hash);
            &&& found
            &&& after.inv()
            &&& after.refcount(hash) == state.refcount(hash) - 1
            &&& state.refcount(hash) > 1 ==> after.may_contain(hash) && after.lane == state.lane
            &&& state.refcount(hash) == 1 ==> !after.refcounts.contains_key(hash)
        }),
{
    state.lemma_removed(key, hash);
    let after = state.removed(key, hash).0;
    if state.refcount(hash) > 1 {
        assert(after.refcounts.contains_key(hash));
        lemma_lookup(after.addressing, after.lane, after.refcounts.dom(), hash);
    }
}

/// A refused store changes no owner, no count and no bucket.
pub proof fn law_refused_store_changes_no_block(
    state: DcCkfModel,
    key: u128,
    hash: u64,
    granted: bool,
)
    requires
        state.inv(),
        key < MEMBER_KEY_END,
        state.stored(key, hash, granted).1 is Err,
    ensures
        ({
            let after = state.stored(key, hash, granted).0;
            &&& after.members == state.members
            &&& after.refcounts == state.refcounts
            &&& after.lane == state.lane
            &&& after.touched == state.touched
        }),
{
}

/// The lane holds exactly one fingerprint for every block that someone owns.
pub proof fn law_one_slot_per_owned_block(state: DcCkfModel)
    requires
        state.inv(),
    ensures
        state.aggregation_stats().occupied_slot_count
            == state.aggregation_stats().unique_block_count,
        slots_in_use(state.lane) == state.refcounts.dom().len(),
{
}

/// Clearing a worker takes everything from all its ranks, whichever rank the
/// event names, and nothing from any other worker.
pub proof fn law_clearing_spans_ranks(members: Members, event: RouterEvent, key: u128, hash: u64)
    requires
        members_wf(members),
        event.event.data is Cleared,
    ensures
        owns(members_after(members, event), key, hash) == (owns(members, key, hash)
            && member_worker(key) != event.worker_id),
{
    lemma_members_after(members, event);
}

/// An event of another tier than the device changes nothing, unless it clears
/// a worker.
pub proof fn law_other_tiers_are_ignored(
    state: DcCkfModel,
    event: RouterEvent,
    choices: Choices,
)
    requires
        event.storage_tier != crate::protocol::StorageTier::Device,
        !(event.event.data is Cleared),
    ensures
        state.applied(event, choices).0 == state,
        state.applied(event, choices).1.delta is None,
        !state.applied(event, choices).1.publication_boundary,
{
}

/// A block that goes into an empty slot and comes out again leaves the lane as
/// it was, unless its fingerprint stood in its buckets before: then the two
/// copies cannot be told apart, and the other one may leave.
pub proof fn law_store_then_remove_reverts(state: DcCkfModel, key: u128, hash: u64)
    requires
        state.inv(),
        key < MEMBER_KEY_END,
        state.refcount(hash) == 0,
        !state.may_contain(hash),
        ({
            let probe = state.addressing.probe(hash);
            first_slot(state.lane[probe.bucket_a as int], 0) is Some || first_slot(
                state.lane[probe.bucket_b as int],
                0,
            ) is Some
        }),
    ensures
        ({
            let (stored, result) = state.stored(key, hash, true);
            let (removed, found) = stored.removed(key, hash);
            &&& result == Ok::<bool, crate::protocol::KvCacheEventError>(true)
            &&& found
            &&& removed.lane == state.lane
            &&& removed.published() == state.published()
        }),
{
    let probe = state.addressing.probe(hash);
    state.addressing.lemma_probe(hash);
    lemma_lookup(state.addressing, state.lane, state.refcounts.dom(), hash);
    state.lemma_stored(key, hash, true);
    let stored = state.stored(key, hash, true).0;
    stored.lemma_removed(key, hash);
    if owns(state.members, key, hash) {
        law_lookup_misses_no_owned_block(state, key, hash);
    }
    let bucket = if first_slot(state.lane[probe.bucket_a as int], 0) is Some {
        probe.bucket_a
    } else {
        probe.bucket_b
    };
    let value = state.lane[bucket as int];
    let slot = first_slot(value, 0).unwrap();
    let filled = with_slot(value, slot, probe.fingerprint);
    assert(stored.lane == state.lane.update(bucket as int, filled));
    lemma_with_slot(value, slot, probe.fingerprint);
    assert(first_slot(filled, probe.fingerprint) == Some(slot));
    assert(with_slot(filled, slot, 0) == value) by {
        let fingerprint = probe.fingerprint;
        assert(with_slot(with_slot(value, slot, fingerprint), slot, 0) == value) by (bit_vector)
            requires
                slot < 4,
                slot_at(value, slot) == 0,
        ;
    }
    assert(stored.removed(key, hash).0.lane =~= state.lane);
}

/// A reader stays in step when everything is taken from one member.
pub proof fn law_reader_follows_rank_removal(
    state: DcCkfModel,
    key: u128,
    after: DcCkfModel,
    result: Result<Option<DeltaModel>, KvCacheEventError>,
)
    requires
        state.inv(),
        state.may_remove_rank(key, after, result),
    ensures
        after.inv(),
        match result {
            Ok(delta) => {
                &&& read(state.published(), delta) == after.published()
                &&& after.published() == after.lane
                &&& continues(state.sequence, delta)
                &&& after.sequence == sequence_after(state.sequence, delta)
            },
            Err(_) => after == state,
        },
{
    if let Ok(delta) = result {
        let sweep = choose|sweep: Option<Seq<u64>>| #[trigger]
            state.sweep_fits(key, sweep) && (after, delta) == state.swept(key, sweep).0.drained();
        state.lemma_swept(key, sweep);
        let swept = state.swept(key, sweep).0;
        swept.lemma_drained();
        law_delta_brings_reader_up_to_date(swept);
    }
}

/// A reader stays in step when everything is taken from a worker, and when
/// that is broken off.
pub proof fn law_reader_follows_worker_removal(
    state: DcCkfModel,
    worker_id: u64,
    after: DcCkfModel,
    result: Result<Option<DeltaModel>, KvCacheEventError>,
)
    requires
        state.inv(),
        state.may_remove_worker(worker_id, after, result),
    ensures
        after.inv(),
        match result {
            Ok(delta) => {
                &&& read(state.published(), delta) == after.published()
                &&& after.published() == after.lane
                &&& continues(state.sequence, delta)
                &&& after.sequence == sequence_after(state.sequence, delta)
            },
            Err(_) => {
                &&& state.published() == after.published()
                &&& state.sequence == after.sequence
            },
        },
{
    let (order, sweeps) = choose|order: Seq<u128>, sweeps: Seq<Option<Seq<u64>>>|
        #![trigger state.sweeps_fit(worker_id, order, sweeps)]
        {
            let (swept, error) = state.swept_all(order.take(sweeps.len() as int), sweeps);
            &&& state.sweeps_fit(worker_id, order, sweeps)
            &&& forall|i: int| 0 <= i < sweeps.len() - 1 ==> (#[trigger] sweeps[i]) is Some
            &&& match result {
                Ok(delta) => error is None && sweeps.len() == order.len() && (after, delta)
                    == swept.drained(),
                Err(refused) => error == Some(refused) && after == swept,
            }
        };
    state.lemma_swept_all(worker_id, order, sweeps, sweeps.len() as int);
    let swept = state.swept_all(order.take(sweeps.len() as int), sweeps).0;
    if result is Ok {
        swept.lemma_drained();
        law_delta_brings_reader_up_to_date(swept);
    }
}

/// A reader stays in step when everything that a member owns is replaced: the
/// one delta takes it from what it last saw to the new lane, pending changes
/// included. A refused replacement changes nothing.
pub proof fn law_reader_follows_replacement(
    state: DcCkfModel,
    key: u128,
    hashes: Set<u64>,
    after: DcCkfModel,
    result: Result<Option<DeltaModel>, KvCacheEventError>,
)
    requires
        state.inv(),
        key < MEMBER_KEY_END,
        hashes.finite(),
        state.may_replace_rank(key, hashes, after, result),
    ensures
        after.inv(),
        match result {
            Ok(delta) => {
                &&& read(state.published(), delta) == after.published()
                &&& after.published() == after.lane
                &&& continues(state.sequence, delta)
                &&& after.sequence == sequence_after(state.sequence, delta)
            },
            Err(_) => after == state,
        },
{
    if let Ok(delta) = result {
        let (pairs, grants, rebuilt) = choose|
            pairs: Seq<(u128, u64)>,
            grants: Seq<bool>,
            rebuilt: DcCkfModel,
        | #[trigger]
            state.is_accepted(key, hashes, pairs, grants, rebuilt) && (after, delta)
                == state.replaced_by(rebuilt).drained();
        state.lemma_replaced(key, hashes, pairs, grants, rebuilt);
        let replaced = state.replaced_by(rebuilt);
        replaced.lemma_drained();
        law_delta_brings_reader_up_to_date(replaced);
    }
}

/// Replacing a member's blocks takes nothing from anyone else: a block that
/// another member owns is still owned and found.
pub proof fn law_replacement_keeps_shared_blocks(
    state: DcCkfModel,
    key: u128,
    hashes: Set<u64>,
    after: DcCkfModel,
    delta: Option<DeltaModel>,
    other: u128,
    hash: u64,
)
    requires
        state.inv(),
        key < MEMBER_KEY_END,
        hashes.finite(),
        state.may_replace_rank(key, hashes, after, Ok(delta)),
        other != key,
        owns(state.members, other, hash),
    ensures
        owns(after.members, other, hash),
        after.may_contain(hash),
{
    law_reader_follows_replacement(state, key, hashes, after, Ok(delta));
    lemma_with_replaced(state.members, key, hashes);
    law_lookup_misses_no_owned_block(after, other, hash);
}

/// Removals that name no block twice count as unknown exactly for the blocks
/// that the member does not own.
pub proof fn law_unknown_removals_are_the_unowned_blocks(
    state: DcCkfModel,
    key: u128,
    hashes: Seq<u64>,
)
    requires
        state.inv(),
        hashes.no_duplicates(),
    ensures
        state.removed_all(key, hashes).1 == hashes.filter(
            |hash: u64| !owns(state.members, key, hash),
        ).len(),
    decreases hashes.len(),
{
    reveal(Seq::filter);
    let unowned = |hash: u64| !owns(state.members, key, hash);
    if hashes.len() > 0 {
        let rest = hashes.drop_last();
        law_unknown_removals_are_the_unowned_blocks(state, key, rest);
        state.lemma_removed_all(key, rest);
        lemma_without_blocks(state.members, key, rest);
        let before = state.removed_all(key, rest).0;
        assert(!rest.contains(hashes.last())) by {
            if rest.contains(hashes.last()) {
                let i = choose|i: int| 0 <= i < rest.len() && rest[i] == hashes.last();
                assert(hashes[i] != hashes[hashes.len() - 1]);
            }
        }
        assert(owns(before.members, key, hashes.last()) == owns(
            state.members,
            key,
            hashes.last(),
        ));
    }
}

/// Every removal takes a block that the member owned or counts as unknown: the
/// unknown ones are as many as were named, less the different blocks among them
/// that the member owned.
pub proof fn law_removals_are_found_or_unknown(state: DcCkfModel, key: u128, hashes: Seq<u64>)
    requires
        state.inv(),
    ensures
        state.removed_all(key, hashes).1 + hashes.to_set().filter(
            |hash: u64| owns(state.members, key, hash),
        ).len() == hashes.len(),
        hashes.to_set().filter(|hash: u64| owns(state.members, key, hash)).finite(),
    decreases hashes.len(),
{
    let owned = |hash: u64| owns(state.members, key, hash);
    let taken = hashes.to_set().filter(owned);
    if hashes.len() == 0 {
        assert(taken =~= Set::empty());
    } else {
        let rest = hashes.drop_last();
        let last = hashes.last();
        let before = state.removed_all(key, rest).0;
        law_removals_are_found_or_unknown(state, key, rest);
        state.lemma_removed_all(key, rest);
        lemma_without_blocks(state.members, key, rest);
        assert(hashes =~= rest.push(last));
        assert forall|h: u64| hashes.to_set().contains(h) == (rest.to_set().contains(h) || h
            == last) by {
            vstd::seq_lib::lemma_seq_contains_after_push(rest, last, h);
        }
        let earlier = rest.to_set().filter(owned);
        assert(owns(before.members, key, last) == (owned(last) && !rest.contains(last)));
        if owns(before.members, key, last) {
            assert(taken =~= earlier.insert(last));
            assert(!earlier.contains(last));
        } else {
            assert(taken =~= earlier);
        }
    }
}

/// Whether two blocks have the same fingerprint and the same buckets.
pub open spec fn collide(addressing: CkfAddressing, a: u64, b: u64) -> bool {
    represents(addressing, a, addressing.probe(b).bucket_a, addressing.probe(b).fingerprint)
}

/// A block is found exactly when someone owns it or a block that collides with
/// it.
pub proof fn law_found_exactly_when_a_colliding_block_is_owned(state: DcCkfModel, hash: u64)
    requires
        state.inv(),
    ensures
        state.may_contain(hash) <==> exists|key: u128, held: u64| #[trigger]
            owns(state.members, key, held) && collide(state.addressing, held, hash),
        collide(state.addressing, hash, hash),
{
    let probe = state.addressing.probe(hash);
    if state.may_contain(hash) {
        let held = choose|held: u64|
            state.refcounts.contains_key(held) && #[trigger] represents(
                state.addressing,
                held,
                probe.bucket_a,
                probe.fingerprint,
            );
        let holders = owners(state.members, held);
        let key = holders.choose();
        assert(!(holders =~= Set::empty()));
        assert(owns(state.members, key, held));
    }
    if exists|key: u128, held: u64| #[trigger]
        owns(state.members, key, held) && collide(state.addressing, held, hash) {
        let (key, held) = choose|key: u128, held: u64| #[trigger]
            owns(state.members, key, held) && collide(state.addressing, held, hash);
        law_lookup_misses_no_owned_block(state, key, held);
    }
}

/// Of two owned blocks that collide, the other stays found when one is given
/// up, and both stay found until both are. After that they are found only if
/// yet another owned block collides with them.
pub proof fn law_colliding_blocks_stay_until_both_leave(
    state: DcCkfModel,
    key: u128,
    first: u64,
    other_key: u128,
    second: u64,
)
    requires
        state.inv(),
        first != second,
        collide(state.addressing, first, second),
        owns(state.members, key, first),
        owns(state.members, other_key, second),
        state.refcount(first) == 1,
        state.refcount(second) == 1,
    ensures
        ({
            let (one_left, first_found) = state.removed(key, first);
            let (both_left, second_found) = one_left.removed(other_key, second);
            &&& first_found && second_found
            &&& !one_left.refcounts.contains_key(first)
            &&& one_left.may_contain(second)
            &&& !both_left.refcounts.contains_key(second)
            &&& both_left.may_contain(second) <==> exists|held: u64|
                {
                    &&& state.refcounts.contains_key(held)
                    &&& held != first && held != second
                    &&& #[trigger] collide(state.addressing, held, second)
                }
        }),
{
    state.lemma_removed(key, first);
    let one_left = state.removed(key, first).0;
    lemma_without_block(state.members, key, first);
    assert(owns(one_left.members, other_key, second));
    law_lookup_misses_no_owned_block(one_left, other_key, second);
    one_left.lemma_removed(other_key, second);
    let both_left = one_left.removed(other_key, second).0;
    assert(both_left.refcounts =~= state.refcounts.remove(first).remove(second));
    if both_left.may_contain(second) {
        let probe = state.addressing.probe(second);
        let held = choose|held: u64|
            both_left.refcounts.contains_key(held) && #[trigger] represents(
                both_left.addressing,
                held,
                probe.bucket_a,
                probe.fingerprint,
            );
        assert(collide(state.addressing, held, second));
    }
    if exists|held: u64|
        {
            &&& state.refcounts.contains_key(held)
            &&& held != first && held != second
            &&& #[trigger] collide(state.addressing, held, second)
        } {
        let held = choose|held: u64|
            {
                &&& state.refcounts.contains_key(held)
                &&& held != first && held != second
                &&& #[trigger] collide(state.addressing, held, second)
            };
        assert(both_left.refcounts.contains_key(held));
    }
}

/// Over events: one member of an aggregation that was empty stores two blocks
/// and gives up the first; the second is still found. Once it gives up the
/// second too, nothing is found. That holds for blocks that collide as for any
/// other two.
pub proof fn law_second_block_is_found_until_its_own_removal(
    start: DcCkfModel,
    states: (DcCkfModel, DcCkfModel, DcCkfModel),
    events: (RouterEvent, RouterEvent, RouterEvent),
    outcomes: (OutcomeModel, OutcomeModel, OutcomeModel),
    first: u64,
    second: u64,
)
    requires
        start.inv(),
        start.members.dom().is_empty(),
        first != second,
        start.may_apply(events.0, states.0, outcomes.0),
        states.0.may_apply(events.1, states.1, outcomes.1),
        states.1.may_apply(events.2, states.2, outcomes.2),
        outcomes.0.first_error is None,
        !is_ignored(events.0) && !is_ignored(events.1) && !is_ignored(events.2),
        events.1.member() == events.0.member(),
        events.2.member() == events.0.member(),
        events.0.event.data matches KvCacheEventData::Stored(store) && store.hashes() == seq![
            first,
            second,
        ],
        events.1.event.data matches KvCacheEventData::Removed(remove) && remove.hashes() == seq![
            first,
        ],
        events.2.event.data matches KvCacheEventData::Removed(remove) && remove.hashes() == seq![
            second,
        ],
    ensures
        states.1.may_contain(second),
        !states.2.may_contain(second),
        !states.2.may_contain(first),
{
    let key = events.0.member().spec_key();
    assert(states.0.inv() && states.1.inv() && states.2.inv()) by {
        law_reader_follows_outcome(start, events.0, states.0, outcomes.0);
        law_reader_follows_outcome(states.0, events.1, states.1, outcomes.1);
        law_reader_follows_outcome(states.1, events.2, states.2, outcomes.2);
    }
    lemma_stored_then_removed(
        start.members,
        (states.0.members, states.1.members, states.2.members),
        events,
        first,
        second,
    );
    law_lookup_misses_no_owned_block(states.1, key, second);
    law_found_exactly_when_a_colliding_block_is_owned(states.2, second);
    law_found_exactly_when_a_colliding_block_is_owned(states.2, first);
}

/// Of two stored blocks, the second is owned until it is removed, and nothing
/// is owned after that.
proof fn lemma_stored_then_removed(
    start: Members,
    members: (Members, Members, Members),
    events: (RouterEvent, RouterEvent, RouterEvent),
    first: u64,
    second: u64,
)
    requires
        members_wf(start),
        start.dom().is_empty(),
        first != second,
        members.0 == members_after(start, events.0),
        members.1 == members_after(members.0, events.1),
        members.2 == members_after(members.1, events.2),
        !is_ignored(events.0) && !is_ignored(events.1) && !is_ignored(events.2),
        events.1.member() == events.0.member(),
        events.2.member() == events.0.member(),
        events.0.event.data matches KvCacheEventData::Stored(store) && store.hashes() == seq![
            first,
            second,
        ],
        events.1.event.data matches KvCacheEventData::Removed(remove) && remove.hashes() == seq![
            first,
        ],
        events.2.event.data matches KvCacheEventData::Removed(remove) && remove.hashes() == seq![
            second,
        ],
    ensures
        owns(members.1, events.0.member().spec_key(), second),
        forall|k: u128, h: u64| !#[trigger] owns(members.2, k, h),
{
    let key = events.0.member().spec_key();
    lemma_members_after(start, events.0);
    lemma_members_after(members.0, events.1);
    lemma_members_after(members.1, events.2);
    assert(seq![first, second][0] == first && seq![first, second][1] == second);
    assert(seq![first][0] == first && seq![second][0] == second);
    assert(seq![first, second].contains(second));
    assert(owns(members.0, key, second));
    assert forall|k: u128, h: u64| !#[trigger] owns(members.2, k, h) by {
        assert(!start.contains_key(k));
        assert(owns(members.0, k, h) == (k == key && seq![first, second].contains(h)));
        assert(owns(members.1, k, h) == (owns(members.0, k, h) && !(k == key
            && seq![first].contains(h))));
        assert(owns(members.2, k, h) == (owns(members.1, k, h) && !(k == key
            && seq![second].contains(h))));
    }
}

/// A reader that applies the delta of an outcome stays in step, whatever the
/// machine decided on the way.
pub proof fn law_reader_follows_outcome(
    state: DcCkfModel,
    event: RouterEvent,
    after: DcCkfModel,
    outcome: OutcomeModel,
)
    requires
        state.inv(),
        state.may_apply(event, after, outcome),
    ensures
        after.inv(),
        after.addressing == state.addressing,
        read(state.published(), outcome.delta) == after.published(),
        continues(state.sequence, outcome.delta),
        after.sequence == sequence_after(state.sequence, outcome.delta),
{
    let choices = choose|choices: Choices| #[trigger]
        state.choices_fit(event, choices) && (after, outcome) == state.applied(event, choices);
    law_reader_follows_event(state, event, choices);
    state.lemma_applied(event, choices);
}

/// Giving up a block that was just taken brings every owner and every count
/// back, and giving it up once more finds nothing. The layout may differ.
pub proof fn law_removal_undoes_store(state: DcCkfModel, key: u128, hash: u64, granted: bool)
    requires
        state.inv(),
        key < MEMBER_KEY_END,
        state.stored(key, hash, granted).1 == Ok::<bool, KvCacheEventError>(true),
    ensures
        ({
            let stored = state.stored(key, hash, granted).0;
            let (removed, found) = stored.removed(key, hash);
            let (again, found_again) = removed.removed(key, hash);
            &&& found
            &&& removed.inv()
            &&& removed.members == state.members
            &&& removed.refcounts == state.refcounts
            &&& !found_again
            &&& again == removed
        }),
{
    let stored = state.stored(key, hash, granted).0;
    let removed = stored.removed(key, hash).0;
    state.lemma_stored(key, hash, granted);
    lemma_with_block(state.members, key, hash);
    assert(owns(stored.members, key, hash));
    stored.lemma_removed(key, hash);
    lemma_without_block(stored.members, key, hash);
    assert forall|k: u128, h: u64| #[trigger]
        owns(removed.members, k, h) == owns(state.members, k, h) by {
        assert(owns(stored.members, k, h) == (owns(state.members, k, h) || (k == key && h
            == hash)));
    }
    lemma_same_blocks(removed.members, state.members);
    law_ownership_decides_refcounts(removed, state);
    assert(!owns(removed.members, key, hash));
}

/// Short of saturation, emitted and reverted buckets are no more than the
/// touched ones, and exactly those while no reset was published.
pub proof fn law_publication_counters_balance(state: DcCkfModel)
    requires
        state.inv(),
        state.publication_stats().distinct_touched_buckets < u64::MAX,
    ensures
        ({
            let stats = state.publication_stats();
            &&& stats.emitted_images + stats.net_reverted_buckets
                <= stats.distinct_touched_buckets
            &&& stats.reset_count == 0 ==> stats.emitted_images + stats.net_reverted_buckets
                == stats.distinct_touched_buckets
        }),
{
}

/// Every block that someone owns.
pub open spec fn owned_blocks(members: Members) -> Set<u64> {
    Set::new(|hash: u64| exists|key: u128| #[trigger] owns(members, key, hash))
}

/// The numbers of blocks in a list of members.
pub open spec fn block_counts(counts: Seq<(WorkerWithDpRank, usize)>) -> Seq<usize> {
    counts.map_values(|entry: (WorkerWithDpRank, usize)| entry.1)
}

/// The counters agree with the list of members and with each other: as many
/// members as are listed, as many contributions as they own blocks, as many
/// unique blocks as are owned by anyone, and one to four slots in use for
/// every bucket in use.
pub proof fn law_counts_agree(state: DcCkfModel, counts: Seq<(WorkerWithDpRank, usize)>)
    requires
        state.inv(),
        state.is_member_counts(counts),
    ensures
        counts.len() == state.members.dom().len(),
        total(block_counts(counts)) == contributions(state.members).len(),
        owned_blocks(state.members) == state.refcounts.dom(),
        buckets_in_use(state.lane) <= slots_in_use(state.lane) <= 4 * buckets_in_use(state.lane),
{
    let keys = counts.map_values(|entry: (WorkerWithDpRank, usize)| entry.0.spec_key());
    assert(keys.no_duplicates()) by {
        assert forall|i: int, j: int|
            0 <= i < keys.len() && 0 <= j < keys.len() && i != j implies keys[i] != keys[j] by {
            if i < j {
                assert(counts[i].0.spec_key() < counts[j].0.spec_key());
            } else {
                assert(counts[j].0.spec_key() < counts[i].0.spec_key());
            }
        }
    }
    assert forall|key: u128| keys.to_set().contains(key) == state.members.dom().contains(key) by {
        if state.members.contains_key(key) {
            let i = choose|i: int|
                0 <= i < counts.len() && (#[trigger] counts[i]).0.spec_key() == key;
            assert(keys[i] == key);
        }
        if keys.contains(key) {
            let i = choose|i: int| 0 <= i < keys.len() && keys[i] == key;
            assert(state.members.contains_key(counts[i].0.spec_key()));
        }
    }
    assert(keys.to_set() =~= state.members.dom());
    keys.unique_seq_to_set();
    lemma_counts_so_far(state, counts, keys, counts.len() as int);
    assert(keys.take(counts.len() as int) =~= keys);
    assert(counts.take(counts.len() as int) =~= counts);
    lemma_contributions_of_all(state.members, keys);
    assert forall|hash: u64| owned_blocks(state.members).contains(hash)
        == state.refcounts.contains_key(hash) by {
        if state.refcounts.contains_key(hash) {
            let key = owners(state.members, hash).choose();
            assert(!(owners(state.members, hash) =~= Set::empty()));
            assert(owns(state.members, key, hash));
        }
        if owned_blocks(state.members).contains(hash) {
            let key = choose|key: u128| #[trigger] owns(state.members, key, hash);
            law_lookup_misses_no_owned_block(state, key, hash);
        }
    }
    assert(owned_blocks(state.members) =~= state.refcounts.dom());
    lemma_buckets_and_slots(state.lane);
}

/// The first listed members contribute as many blocks as are listed for them.
proof fn lemma_counts_so_far(
    state: DcCkfModel,
    counts: Seq<(WorkerWithDpRank, usize)>,
    keys: Seq<u128>,
    count: int,
)
    requires
        state.inv(),
        state.is_member_counts(counts),
        keys == counts.map_values(|entry: (WorkerWithDpRank, usize)| entry.0.spec_key()),
        keys.no_duplicates(),
        0 <= count <= counts.len(),
    ensures
        contributions_of(state.members, keys.take(count)).finite(),
        total(block_counts(counts.take(count))) == contributions_of(
            state.members,
            keys.take(count),
        ).len(),
    decreases count,
{
    if count == 0 {
        assert(keys.take(0) =~= Seq::empty());
        lemma_no_contributions(state.members);
    } else {
        let done = keys.take(count - 1);
        let key = keys[count - 1];
        lemma_counts_so_far(state, counts, keys, count - 1);
        assert(keys.take(count) =~= done.push(key));
        assert(counts[count - 1].0.spec_key() == key);
        if done.contains(key) {
            let i = choose|i: int| 0 <= i < done.len() && done[i] == key;
            assert(keys[i] == keys[count - 1]);
        }
        lemma_contributions_of_one_more(state.members, done, key);
        assert(block_counts(counts.take(count)).drop_last() =~= block_counts(
            counts.take(count - 1),
        ));
        assert(block_counts(counts.take(count)).last() == counts[count - 1].1);
    }
}

} // verus!
