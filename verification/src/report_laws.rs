//! What sizes, counters and reports say of an aggregation.
use crate::config::{CkfBuildError, CkfConfig};
use crate::model::DcCkfModel;
use crate::protocol::{KvCacheEventError, WorkerWithDpRank};
use crate::publication::DcCkfStats;
use vstd::prelude::*;
#[allow(unused_imports)]
use crate::addressing::CkfAddressing;
#[allow(unused_imports)]
use crate::census::{buckets_in_use, lemma_buckets_and_slots};
#[allow(unused_imports)]
use crate::config::{
    doubled_up_to, is_lane_size, lane_size, lemma_lane_size, planned_buckets,
};
#[allow(unused_imports)]
use crate::fx::{blocks_room_refused, counts_room_refused, members_room_refused};
#[allow(unused_imports)]
use crate::memory::room_refused;
#[allow(unused_imports)]
use crate::model::{build_room_refused, grants_answered, store_room_refused};
#[allow(unused_imports)]
use crate::mutator::Write;
#[allow(unused_imports)]
use crate::laws::{law_lookup_misses_no_owned_block, owned_blocks};
#[allow(unused_imports)]
use crate::ownership::{
    contributions, lemma_with_block, lemma_without_block, owners, owns,
};
#[allow(unused_imports)]
use crate::occupancy::lemma_lookup;
#[allow(unused_imports)]
use crate::placement::holds;
#[allow(unused_imports)]
use crate::protocol::{law_member_keys_order_members, MEMBER_KEY_END};
#[allow(unused_imports)]
use crate::window::{lemma_published_untouched, tracking_bytes, word_count};

verus! {

/// A configuration is sound exactly when it names blocks and an interval and its
/// lane is not out of bounds, and each fault is told apart, in this order.
pub proof fn law_configuration_faults(config: CkfConfig)
    ensures
        config.expected_blocks_per_dc == 0 <==> config.fault() == Some(
            CkfBuildError::ZeroExpectedBlocks,
        ),
        config.expected_blocks_per_dc > 0 && config.publish_every_n_events == 0
            <==> config.fault() == Some(CkfBuildError::ZeroPublicationInterval),
        config.expected_blocks_per_dc > 0 && config.publish_every_n_events > 0
            && config.expected_blocks_per_dc <= 3 * (usize::MAX / 128) <==> config.fault() is None,
        config.fault() matches Some(fault) ==> fault != CkfBuildError::AllocationFailed,
{
}

/// A store is refused room only where room for one more was refused in a table,
/// and a new aggregation only where room was refused for the counts and the
/// blocks that it expects, for its lane, for the writes of one insertion, or for
/// the bits, the buckets and the words of its window.
pub proof fn law_refusals_name_what_was_asked_for(config: CkfConfig)
    requires
        config.fault() is None,
    ensures
        store_room_refused() ==> blocks_room_refused(1) || members_room_refused(1)
            || counts_room_refused(1),
        build_room_refused(config) ==> {
            let expected = config.expected_blocks_per_dc;
            let buckets = lane_size(expected) as usize;
            ||| counts_room_refused(expected)
            ||| room_refused::<u64>(expected)
            ||| room_refused::<u64>(buckets)
            ||| room_refused::<usize>(buckets)
            ||| room_refused::<u64>(((buckets + 63) / 64) as usize)
            ||| room_refused::<Write>(config.max_kicks.saturating_add(1))
        },
        forall|grants: Seq<bool>, i: int|
            !store_room_refused() && #[trigger] grants_answered(grants) && 0 <= i < grants.len()
                ==> #[trigger] grants[i],
{
}

/// Doubling stops at the first number that is large enough.
proof fn lemma_doubled_no_further(count: int, target: int)
    requires
        count > 0,
    ensures
        doubled_up_to(count, target) > count ==> doubled_up_to(count, target) < 2 * target
            && doubled_up_to(count, target) % 2 == 0,
        doubled_up_to(count, target) >= count,
    decreases 2 * target - count,
{
    if count < target {
        lemma_doubled_no_further(2 * count, target);
    }
}

/// A lane is planned for three blocks in each bucket: there is room for the
/// expected blocks, and unless it has only two buckets, half of them would not
/// do.
pub proof fn law_lane_has_the_least_size(config: CkfConfig)
    requires
        config.fault() is None,
    ensures
        ({
            let size = lane_size(config.expected_blocks_per_dc);
            &&& is_lane_size(size)
            &&& 3 * size >= config.expected_blocks_per_dc
            &&& size > 2 ==> 3 * (size / 2) < config.expected_blocks_per_dc
        }),
{
    let expected = config.expected_blocks_per_dc;
    lemma_lane_size(expected);
    lemma_doubled_no_further(2, planned_buckets(expected));
}

/// A new aggregation owns nothing, finds nothing, has nothing to publish and has
/// counted nothing; subscribers start from an empty lane under sequence zero.
pub proof fn law_new_aggregation_is_empty(config: CkfConfig, addressing: CkfAddressing)
    ensures
        ({
            let state = DcCkfModel::initial(config, addressing);
            &&& state.config == config
            &&& state.addressing == addressing
            &&& forall|key: u128, hash: u64| !#[trigger] owns(state.members, key, hash)
            &&& forall|hash: u64| !#[trigger] state.may_contain(hash)
            &&& forall|hash: u64| #[trigger] state.refcount(hash) == 0
            &&& forall|i: int| 0 <= i < state.lane.len() ==> #[trigger] state.lane[i] == 0
            &&& state.published() == state.lane
            &&& state.sequence == 0
            &&& state.pending_events == 0
            &&& state.telemetry.unknown_removals == 0
            &&& state.telemetry.capacity_failures == 0
            &&& state.telemetry.physical_touches == 0
            &&& state.telemetry.distinct_touched_buckets == 0
            &&& state.telemetry.emitted_images == 0
            &&& state.telemetry.net_reverted_buckets == 0
            &&& state.telemetry.reset_count == 0
        }),
{
    let state = DcCkfModel::initial(config, addressing);
    lemma_published_untouched(state.lane);
    assert(state.published() =~= state.lane);
}

/// The counted blocks are those that someone owns.
proof fn lemma_counted_blocks(state: DcCkfModel)
    requires
        state.inv(),
    ensures
        owned_blocks(state.members) == state.refcounts.dom(),
{
    assert forall|hash: u64| owned_blocks(state.members).contains(hash)
        == state.refcounts.contains_key(hash) by {
        if state.refcounts.contains_key(hash) {
            let key = owners(state.members, hash).choose();
            assert(!(owners(state.members, hash) =~= Set::empty()));
            assert(owns(state.members, key, hash));
        }
        if owned_blocks(state.members).contains(hash) {
            let key = choose|key: u128| #[trigger] owns(state.members, key, hash);
            law_lookup_misses_no_owned_block(state, key, hash);
        }
    }
    assert(owned_blocks(state.members) =~= state.refcounts.dom());
}

/// Buckets in use are the words of the lane that are not zero.
proof fn lemma_buckets_in_use(lane: Seq<u64>)
    ensures
        buckets_in_use(lane) == lane.filter(|word: u64| word != 0).len(),
        0 <= buckets_in_use(lane) <= lane.len(),
    decreases lane.len(),
{
    reveal(Seq::filter);
    if lane.len() > 0 {
        lemma_buckets_in_use(lane.drop_last());
    }
}

/// The counters report what is there: how many members own anything, how many
/// blocks each of them owns taken together, how many blocks anyone owns, one
/// slot for each of those, and the buckets that are not empty; what was
/// published and what is pending; and eight bytes for every bucket.
pub proof fn law_stats_report_what_is_there(state: DcCkfModel, stats: DcCkfStats)
    requires
        state.inv(),
        state.is_stats(stats),
        state.members.dom().len() <= usize::MAX,
        contributions(state.members).len() <= usize::MAX,
    ensures
        stats.aggregation.member_count == state.members.dom().len(),
        stats.aggregation.contribution_count == contributions(state.members).len(),
        forall|key: u128, hash: u64|
            contributions(state.members).contains((key, hash)) == #[trigger] owns(
                state.members,
                key,
                hash,
            ),
        stats.aggregation.unique_block_count == owned_blocks(state.members).len(),
        stats.aggregation.occupied_slot_count == owned_blocks(state.members).len(),
        stats.aggregation.occupied_bucket_count == state.lane.filter(
            |word: u64| word != 0,
        ).len(),
        stats.aggregation.unknown_removals == state.telemetry.unknown_removals,
        stats.aggregation.capacity_failures == state.telemetry.capacity_failures,
        stats.publication.sequence == state.sequence,
        stats.publication.pending_events == state.pending_events,
        stats.publication.physical_touches == state.telemetry.physical_touches,
        stats.publication.distinct_touched_buckets == state.telemetry.distinct_touched_buckets,
        stats.publication.emitted_images == state.telemetry.emitted_images,
        stats.publication.net_reverted_buckets == state.telemetry.net_reverted_buckets,
        stats.publication.reset_count == state.telemetry.reset_count,
        stats.memory.filter_bytes == 8 * state.lane.len(),
        stats.memory.member_set_capacity >= contributions(state.members).len(),
        stats.memory.refcount_capacity >= owned_blocks(state.members).len(),
{
    lemma_counted_blocks(state);
    lemma_buckets_and_slots(state.lane);
    lemma_buckets_in_use(state.lane);
    state.addressing.lemma_bucket_count();
}

/// Dirty tracking takes at least one bit for every bucket, and a word for every
/// touched bucket.
pub proof fn law_tracking_bytes_cover_the_window(state: DcCkfModel, stats: DcCkfStats)
    requires
        state.is_stats(stats),
        stats.memory.dirty_tracking_bytes < usize::MAX,
    ensures
        8 * stats.memory.dirty_tracking_bytes >= state.lane.len() + 64 * state.touched.len(),
{
    let (bucket_room, original_room) = choose|bucket_room: usize, original_room: usize|
        bucket_room >= state.touched.len() && original_room >= state.touched.len()
            && stats.memory.dirty_tracking_bytes == #[trigger] tracking_bytes(
            word_count(state.lane.len() as int),
            bucket_room as int,
            original_room as int,
        );
    let size = vstd::layout::size_of::<usize>();
    assert(bucket_room * size >= 0) by (nonlinear_arith)
        requires
            bucket_room >= 0,
            size >= 0,
    ;
}

/// Closing a window counts what it closes: every touched bucket, every image of
/// the delta, a reset if the delta is one, and without a reset the touched
/// buckets that no image names. The sequence goes up exactly with a delta, and
/// no other counter changes.
pub proof fn law_closing_a_window_is_counted(state: DcCkfModel)
    requires
        state.inv(),
        state.telemetry.distinct_touched_buckets + state.touched.len() <= u64::MAX,
        state.telemetry.emitted_images + state.touched.len() <= u64::MAX,
        state.telemetry.net_reverted_buckets + state.touched.len() <= u64::MAX,
        state.telemetry.reset_count < u64::MAX,
        state.sequence < u64::MAX,
    ensures
        ({
            let (after, delta) = state.drained();
            let (before, counted) = (state.telemetry, after.telemetry);
            &&& counted.unknown_removals == before.unknown_removals
            &&& counted.capacity_failures == before.capacity_failures
            &&& counted.physical_touches == before.physical_touches
            &&& counted.distinct_touched_buckets == before.distinct_touched_buckets
                + state.touched.len()
            &&& match delta {
                Some(delta) => {
                    &&& after.sequence == state.sequence + 1
                    &&& delta.sequence == after.sequence
                    &&& delta.base_sequence == state.sequence
                    &&& counted.emitted_images == before.emitted_images + delta.images.len()
                    &&& delta.reset ==> {
                        &&& delta.images.len() == 0
                        &&& counted.reset_count == before.reset_count + 1
                        &&& counted.net_reverted_buckets == before.net_reverted_buckets
                    }
                    &&& !delta.reset ==> {
                        &&& counted.reset_count == before.reset_count
                        &&& counted.net_reverted_buckets == before.net_reverted_buckets
                            + state.touched.len() - delta.images.len()
                    }
                },
                None => {
                    &&& after.sequence == state.sequence
                    &&& counted.emitted_images == before.emitted_images
                    &&& counted.reset_count == before.reset_count
                    &&& counted.net_reverted_buckets == before.net_reverted_buckets
                        + state.touched.len()
                },
            }
        }),
{
    lemma_images_at_most_touched(state.lane, state.touched);
}

/// There is at most one image for every touched bucket.
proof fn lemma_images_at_most_touched(lane: Seq<u64>, touched: Seq<Write>)
    ensures
        crate::model::changed_images(lane, touched).len() <= touched.len(),
    decreases touched.len(),
{
    if touched.len() > 0 {
        lemma_images_at_most_touched(lane, touched.drop_last());
    }
}

/// Storing one block says whether the member is a new owner. A new owner raises
/// the block's count by one, and only the first one touches the lane. Nobody
/// else's blocks change, and a failure changes nobody's.
pub proof fn law_store_adds_one_owner(state: DcCkfModel, key: u128, hash: u64, granted: bool)
    requires
        state.inv(),
        key < MEMBER_KEY_END,
    ensures
        ({
            let (after, result) = state.stored(key, hash, granted);
            match result {
                Ok(added) => {
                    &&& added == !owns(state.members, key, hash)
                    &&& owns(after.members, key, hash)
                    &&& forall|k: u128, h: u64|
                        k != key || h != hash ==> #[trigger] owns(after.members, k, h) == owns(
                            state.members,
                            k,
                            h,
                        )
                    &&& after.refcount(hash) == state.refcount(hash) + (if added {
                        1int
                    } else {
                        0
                    })
                    &&& state.refcount(hash) > 0 ==> after.lane == state.lane
                        && after.telemetry.physical_touches == state.telemetry.physical_touches
                },
                Err(error) => {
                    &&& !owns(state.members, key, hash)
                    &&& after.members == state.members
                    &&& after.lane == state.lane
                    &&& after.refcount(hash) == state.refcount(hash)
                },
            }
        }),
        forall|other: u64|
            other != hash ==> #[trigger] state.stored(key, hash, granted).0.refcount(other)
                == state.refcount(other),
        owns(state.members, key, hash) ==> state.stored(key, hash, granted) == (
            state,
            Ok::<bool, KvCacheEventError>(false),
        ),
{
    state.lemma_stored(key, hash, granted);
    lemma_with_block(state.members, key, hash);
    if owns(state.members, key, hash) {
        law_lookup_misses_no_owned_block(state, key, hash);
    }
}

/// Removing one block says whether the member owned it. An owner that leaves
/// lowers the block's count by one, and only the last one touches the lane.
/// Nobody else's blocks change.
pub proof fn law_removal_takes_one_owner(state: DcCkfModel, key: u128, hash: u64)
    requires
        state.inv(),
    ensures
        ({
            let (after, found) = state.removed(key, hash);
            &&& found == owns(state.members, key, hash)
            &&& !owns(after.members, key, hash)
            &&& forall|k: u128, h: u64|
                k != key || h != hash ==> #[trigger] owns(after.members, k, h) == owns(
                    state.members,
                    k,
                    h,
                )
            &&& found ==> after.refcount(hash) == state.refcount(hash) - 1
            &&& !found ==> after == state
            &&& found && state.refcount(hash) > 1 ==> after.lane == state.lane
                && after.telemetry.physical_touches == state.telemetry.physical_touches
            &&& found && state.refcount(hash) == 1 ==> after.telemetry.physical_touches
                == state.telemetry.physical_touches.saturating_add(1)
        }),
        forall|other: u64|
            other != hash ==> #[trigger] state.removed(key, hash).0.refcount(other)
                == state.refcount(other),
{
    state.lemma_removed(key, hash);
    lemma_without_block(state.members, key, hash);
}

/// A block's count is the number of its owners.
pub proof fn law_count_is_the_number_of_owners(state: DcCkfModel, hash: u64)
    requires
        state.inv(),
    ensures
        state.refcount(hash) == owners(state.members, hash).len(),
        forall|key: u128| owners(state.members, hash).contains(key) == #[trigger] owns(
            state.members,
            key,
            hash,
        ),
{
    crate::upkeep::lemma_owners_finite(state.members, hash);
}

/// A snapshot says all that a reader needs: with the seed and the number of
/// buckets that it names, a reader finds in its buckets every block that someone
/// owned, and no block but those that collide with one.
pub proof fn law_reader_of_a_snapshot_finds_owned_blocks(
    state: DcCkfModel,
    reader: CkfAddressing,
    hash: u64,
)
    requires
        state.inv(),
        reader.wf(),
        reader.seed() == state.snapshot().format.seed,
        reader.bucket_count() == state.snapshot().format.bucket_count,
    ensures
        ({
            let snapshot = state.snapshot();
            let probe = reader.probe(hash);
            let found = holds(snapshot.buckets[probe.bucket_a as int], probe.fingerprint) || holds(
                snapshot.buckets[probe.bucket_b as int],
                probe.fingerprint,
            );
            &&& snapshot.buckets.len() == snapshot.format.bucket_count
            &&& snapshot.format.fingerprint_bits * snapshot.format.slots_per_bucket == 64
            &&& found == state.may_contain(hash)
            &&& (exists|key: u128| #[trigger] owns(state.members, key, hash)) ==> found
        }),
{
    state.addressing.lemma_bucket_count();
    state.addressing.lemma_determined(reader);
    lemma_lookup(state.addressing, state.lane, state.refcounts.dom(), hash);
    if exists|key: u128| #[trigger] owns(state.members, key, hash) {
        let key = choose|key: u128| #[trigger] owns(state.members, key, hash);
        law_lookup_misses_no_owned_block(state, key, hash);
    }
}

/// The list of members names everyone who owns a block, once, with the number of
/// their blocks, and is in order: by worker first and by rank second.
pub proof fn law_member_counts_list_everyone(
    state: DcCkfModel,
    counts: Seq<(WorkerWithDpRank, usize)>,
)
    requires
        state.inv(),
        state.is_member_counts(counts),
    ensures
        forall|i: int, j: int|
            #![trigger counts[i], counts[j]]
            0 <= i < j < counts.len() ==> counts[i].0.worker_id < counts[j].0.worker_id || (
            counts[i].0.worker_id == counts[j].0.worker_id && counts[i].0.dp_rank
                < counts[j].0.dp_rank),
        forall|i: int|
            0 <= i < counts.len() ==> (#[trigger] counts[i]).1 > 0 && counts[i].1 == Set::new(
                |hash: u64|
                    owns(
                        state.members,
                        (counts[i].0.worker_id * 0x1_0000_0000 + counts[i].0.dp_rank) as u128,
                        hash,
                    ),
            ).len(),
        forall|key: u128, hash: u64| #[trigger]
            owns(state.members, key, hash) ==> exists|i: int|
                0 <= i < counts.len() && (#[trigger] counts[i]).0.worker_id * 0x1_0000_0000
                    + counts[i].0.dp_rank == key,
{
    assert forall|i: int, j: int|
        #![trigger counts[i], counts[j]]
        0 <= i < j < counts.len() implies counts[i].0.worker_id < counts[j].0.worker_id || (
    counts[i].0.worker_id == counts[j].0.worker_id && counts[i].0.dp_rank
        < counts[j].0.dp_rank) by {
        law_member_keys_order_members(counts[i].0, counts[j].0);
    }
    assert forall|i: int| 0 <= i < counts.len() implies (#[trigger] counts[i]).1 > 0
        && counts[i].1 == Set::new(
        |hash: u64|
            owns(
                state.members,
                (counts[i].0.worker_id * 0x1_0000_0000 + counts[i].0.dp_rank) as u128,
                hash,
            ),
    ).len() by {
        let key = counts[i].0.spec_key();
        law_member_keys_order_members(counts[i].0, counts[i].0);
        assert(state.members.contains_key(key));
        assert(Set::new(
            |hash: u64|
                owns(
                    state.members,
                    (counts[i].0.worker_id * 0x1_0000_0000 + counts[i].0.dp_rank) as u128,
                    hash,
                ),
        ) =~= state.members[key]);
        if state.members[key].len() == 0 {
            vstd::set_lib::lemma_set_empty_equivalency_len(state.members[key]);
            assert(state.members[key] =~= Set::empty());
        }
    }
    assert forall|key: u128, hash: u64| #[trigger]
        owns(state.members, key, hash) implies exists|i: int|
        0 <= i < counts.len() && (#[trigger] counts[i]).0.worker_id * 0x1_0000_0000
            + counts[i].0.dp_rank == key by {
        assert(state.members.contains_key(key));
        let i = choose|i: int| 0 <= i < counts.len() && (#[trigger] counts[i]).0.spec_key() == key;
        assert(counts[i].0.worker_id * 0x1_0000_0000 + counts[i].0.dp_rank == key);
    }
}

} // verus!
