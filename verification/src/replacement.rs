//! Replacing everything that one member owns, in a state built anew.
use crate::config::CkfConfig;
use crate::model::{DcCkfModel, DcCkfTelemetry};
use crate::protocol::KvCacheEventError;
use vstd::prelude::*;
#[allow(unused_imports)]
use crate::addressing::CkfAddressing;
#[allow(unused_imports)]
use crate::config::lane_size;
#[allow(unused_imports)]
use crate::model::{grants_answered, store_room_refused};
#[allow(unused_imports)]
use crate::mutator::Write;
#[allow(unused_imports)]
use crate::ownership::{
    lemma_same_blocks, lemma_with_block, lemma_with_replaced, owns, with_replaced,
};
#[allow(unused_imports)]
use crate::protocol::MEMBER_KEY_END;
#[allow(unused_imports)]
use crate::window::{
    distinct, in_lane, lemma_published_word, published, published_word, touches,
};

verus! {

/// The touched buckets whose published words a new lane does not hold.
pub open spec fn carried(touched: Seq<Write>, lane: Seq<u64>) -> Seq<Write>
    decreases touched.len(),
{
    if touched.len() == 0 {
        Seq::empty()
    } else {
        let rest = carried(touched.drop_last(), lane);
        if lane[touched.last().0 as int] != touched.last().1 {
            rest.push(touched.last())
        } else {
            rest
        }
    }
}

/// The untouched buckets below `count` in which a new lane differs from the
/// one before, with the words before.
pub open spec fn differing(
    touched: Seq<Write>,
    before: Seq<u64>,
    lane: Seq<u64>,
    count: int,
) -> Seq<Write>
    decreases count,
{
    if count <= 0 {
        Seq::empty()
    } else {
        let bucket = count - 1;
        let rest = differing(touched, before, lane, bucket);
        if !touches(touched, bucket as usize) && before[bucket] != lane[bucket] {
            rest.push((bucket as usize, before[bucket]))
        } else {
            rest
        }
    }
}

/// The touched buckets of a window that is carried over to a new lane.
pub open spec fn rebased(touched: Seq<Write>, before: Seq<u64>, lane: Seq<u64>) -> Seq<Write> {
    carried(touched, lane) + differing(touched, before, lane, before.len() as int)
}

/// What is carried over are the touched buckets that changed.
pub proof fn lemma_carried(touched: Seq<Write>, lane: Seq<u64>)
    requires
        distinct(touched),
    ensures
        distinct(carried(touched, lane)),
        carried(touched, lane).len() <= touched.len(),
        forall|write: Write| #[trigger]
            carried(touched, lane).contains(write) == (touched.contains(write)
                && lane[write.0 as int] != write.1),
    decreases touched.len(),
{
    if touched.len() > 0 {
        let rest = touched.drop_last();
        let last = touched.last();
        let part = carried(rest, lane);
        lemma_carried(rest, lane);
        assert forall|write: Write| #[trigger]
            carried(touched, lane).contains(write) == (touched.contains(write)
                && lane[write.0 as int] != write.1) by {
            assert(touched =~= rest.push(last));
            vstd::seq_lib::lemma_seq_contains_after_push(rest, last, write);
            vstd::seq_lib::lemma_seq_contains_after_push(part, last, write);
        }
        assert forall|i: int| 0 <= i < part.len() implies #[trigger] part[i].0 != last.0 by {
            assert(part.contains(part[i]));
            let j = choose|j: int| 0 <= j < rest.len() && rest[j] == part[i];
            assert(touched[j].0 != touched[touched.len() - 1].0);
        }
    }
}

/// What is added are the untouched buckets that changed.
pub proof fn lemma_differing(touched: Seq<Write>, before: Seq<u64>, lane: Seq<u64>, count: int)
    requires
        0 <= count <= usize::MAX,
    ensures
        distinct(differing(touched, before, lane, count)),
        forall|write: Write| #[trigger]
            differing(touched, before, lane, count).contains(write) == (write.0 < count && !touches(
                touched,
                write.0,
            ) && before[write.0 as int] != lane[write.0 as int] && write.1
                == before[write.0 as int]),
    decreases count,
{
    if count > 0 {
        let bucket = count - 1;
        let part = differing(touched, before, lane, bucket);
        let last = (bucket as usize, before[bucket]);
        lemma_differing(touched, before, lane, bucket);
        assert forall|write: Write| #[trigger]
            differing(touched, before, lane, count).contains(write) == (write.0 < count && !touches(
                touched,
                write.0,
            ) && before[write.0 as int] != lane[write.0 as int] && write.1
                == before[write.0 as int]) by {
            vstd::seq_lib::lemma_seq_contains_after_push(part, last, write);
        }
        assert forall|i: int| 0 <= i < part.len() implies #[trigger] part[i].0 != last.0 by {
            assert(part.contains(part[i]));
        }
    }
}

/// A carried window shows the new lane against the same published one.
pub proof fn lemma_rebased(touched: Seq<Write>, before: Seq<u64>, lane: Seq<u64>)
    requires
        before.len() <= usize::MAX,
        lane.len() == before.len(),
        distinct(touched),
        in_lane(touched, before.len() as int),
    ensures
        distinct(rebased(touched, before, lane)),
        in_lane(rebased(touched, before, lane), lane.len() as int),
        published(lane, rebased(touched, before, lane)) == published(before, touched),
        forall|i: int|
            0 <= i < rebased(touched, before, lane).len() ==> (#[trigger] rebased(
                touched,
                before,
                lane,
            )[i]).1 != lane[rebased(touched, before, lane)[i].0 as int],
{
    let kept = carried(touched, lane);
    let added = differing(touched, before, lane, before.len() as int);
    let after = rebased(touched, before, lane);
    lemma_carried(touched, lane);
    lemma_differing(touched, before, lane, before.len() as int);
    assert forall|i: int| 0 <= i < after.len() implies {
        let write = #[trigger] after[i];
        &&& write.0 < lane.len()
        &&& write.1 != lane[write.0 as int]
        &&& write.1 == published_word(before, touched, write.0 as int)
        &&& i < kept.len() ==> touches(touched, write.0)
        &&& i >= kept.len() ==> !touches(touched, write.0)
    } by {
        let write = after[i];
        if i < kept.len() {
            assert(kept.contains(kept[i]));
            let j = choose|j: int| 0 <= j < touched.len() && touched[j] == write;
            lemma_published_word(before, touched, j);
        } else {
            assert(added.contains(added[i - kept.len()]));
        }
    }
    assert forall|i: int, j: int| 0 <= i < j < after.len() implies #[trigger] after[i].0
        != #[trigger] after[j].0 by {
        if j < kept.len() {
            assert(kept[i].0 != kept[j].0);
        } else if i >= kept.len() {
            assert(added[i - kept.len()].0 != added[j - kept.len()].0);
        }
    }
    assert forall|bucket: int| 0 <= bucket < lane.len() implies #[trigger] published_word(
        lane,
        after,
        bucket,
    ) == published_word(before, touched, bucket) by {
        if touches(after, bucket as usize) {
            let i = choose|i: int| 0 <= i < after.len() && #[trigger] after[i].0 == bucket as usize;
            lemma_published_word(lane, after, i);
        } else if touches(touched, bucket as usize) {
            let j = choose|j: int|
                0 <= j < touched.len() && #[trigger] touched[j].0 == bucket as usize;
            lemma_published_word(before, touched, j);
            if lane[bucket] != touched[j].1 {
                assert(touched.contains(touched[j]));
                assert(kept.contains(touched[j]));
                let i = choose|i: int| 0 <= i < kept.len() && kept[i] == touched[j];
                assert(after[i].0 == bucket as usize);
            }
        } else if before[bucket] != lane[bucket] {
            let write = (bucket as usize, before[bucket]);
            assert(added.contains(write));
            let i = choose|i: int| 0 <= i < added.len() && added[i] == write;
            assert(after[kept.len() + i].0 == bucket as usize);
        }
    }
    assert(published(lane, after) =~= published(before, touched));
}

/// Blocks of one member.
pub open spec fn listed(key: u128, hashes: Seq<u64>) -> Seq<(u128, u64)> {
    hashes.map_values(|hash: u64| (key, hash))
}

/// Blocks of one more member are added after those of others.
pub proof fn lemma_listed(pairs: Seq<(u128, u64)>, key: u128, hashes: Seq<u64>)
    requires
        pairs.no_duplicates(),
        hashes.no_duplicates(),
        forall|i: int| 0 <= i < pairs.len() ==> (#[trigger] pairs[i]).0 != key,
    ensures
        (pairs + listed(key, hashes)).no_duplicates(),
        forall|k: u128, h: u64| #[trigger]
            (pairs + listed(key, hashes)).contains((k, h)) == (pairs.contains((k, h)) || (k == key
                && hashes.contains(h))),
{
    let added = listed(key, hashes);
    let all = pairs + added;
    assert forall|i: int, j: int| 0 <= i < all.len() && 0 <= j < all.len() && i != j implies all[i]
        != all[j] by {
        if i >= pairs.len() && j >= pairs.len() {
            assert(hashes[i - pairs.len()] != hashes[j - pairs.len()]);
        } else if i < pairs.len() {
            assert(pairs[i] == all[i]);
        }
    }
    assert forall|k: u128, h: u64| #[trigger]
        all.contains((k, h)) == (pairs.contains((k, h)) || (k == key && hashes.contains(h))) by {
        if all.contains((k, h)) {
            let i = choose|i: int| 0 <= i < all.len() && all[i] == (k, h);
            if i < pairs.len() {
                assert(pairs[i] == (k, h));
            } else {
                assert(hashes[i - pairs.len()] == h);
            }
        }
        if pairs.contains((k, h)) {
            let i = choose|i: int| 0 <= i < pairs.len() && pairs[i] == (k, h);
            assert(all[i] == (k, h));
        }
        if k == key && hashes.contains(h) {
            let i = choose|i: int| 0 <= i < hashes.len() && hashes[i] == h;
            assert(all[pairs.len() + i] == (k, h));
        }
    }
}

impl DcCkfModel {
    /// A new aggregation into which members take blocks one after the other,
    /// up to the first error.
    pub open spec fn rebuilt(
        config: CkfConfig,
        addressing: CkfAddressing,
        pairs: Seq<(u128, u64)>,
        grants: Seq<bool>,
    ) -> (Self, Option<KvCacheEventError>)
        decreases pairs.len(),
    {
        if pairs.len() == 0 {
            (Self::initial(config, addressing), None)
        } else {
            let (before, error) = Self::rebuilt(config, addressing, pairs.drop_last(), grants);
            if error is Some {
                (before, error)
            } else {
                let (key, hash) = pairs.last();
                let (after, result) = before.stored(key, hash, grants[pairs.len() - 1]);
                (
                    after,
                    match result {
                        Ok(_) => None,
                        Err(next) => Some(next),
                    },
                )
            }
        }
    }

    /// Whether a member owns a block after everything that `key` owns was
    /// replaced by `hashes`.
    pub open spec fn is_wanted(self, key: u128, hashes: Set<u64>, pair: (u128, u64)) -> bool {
        if pair.0 == key {
            hashes.contains(pair.1)
        } else {
            owns(self.members, pair.0, pair.1)
        }
    }

    /// Whether these are blocks of members after a replacement: those of the
    /// others first, then those of the one that changes, in whatever order
    /// the tables hand them out.
    pub open spec fn pairs_within(
        self,
        key: u128,
        hashes: Set<u64>,
        pairs: Seq<(u128, u64)>,
    ) -> bool {
        &&& pairs.no_duplicates()
        &&& forall|i: int|
            0 <= i < pairs.len() ==> self.is_wanted(key, hashes, #[trigger] pairs[i])
        &&& forall|i: int, j: int|
            0 <= i < j < pairs.len() && (#[trigger] pairs[i]).0 == key ==> (
            #[trigger] pairs[j]).0 == key
    }

    /// Whether these are all the blocks of all members after a replacement.
    pub open spec fn pairs_fit(
        self,
        key: u128,
        hashes: Set<u64>,
        pairs: Seq<(u128, u64)>,
    ) -> bool {
        &&& self.pairs_within(key, hashes, pairs)
        &&& forall|k: u128, h: u64| #[trigger]
            pairs.contains((k, h)) == self.is_wanted(key, hashes, (k, h))
    }

    /// The state that takes the place of this one: a rebuilt state under the
    /// old sequence, with everything pending that subscribers have not seen.
    pub open spec fn replaced_by(self, rebuilt: Self) -> Self {
        DcCkfModel {
            touched: rebased(self.touched, self.lane, rebuilt.lane),
            sequence: self.sequence,
            pending_events: 1,
            published_nonempty: self.published_nonempty,
            telemetry: DcCkfTelemetry {
                physical_touches: self.telemetry.physical_touches.saturating_add(
                    rebuilt.telemetry.physical_touches,
                ),
                ..self.telemetry
            },
            ..rebuilt
        }
    }

    /// A state rebuilt under the configuration of this one.
    pub open spec fn replacement(self, pairs: Seq<(u128, u64)>, grants: Seq<bool>) -> (
        Self,
        Option<KvCacheEventError>,
    ) {
        Self::rebuilt(self.config, self.addressing, pairs, grants)
    }

    /// Blocks that are wanted, with those of the member that changes at the
    /// end, are blocks of the replacement.
    pub proof fn lemma_pairs_within(
        self,
        key: u128,
        hashes: Set<u64>,
        pairs: Seq<(u128, u64)>,
    )
        requires
            pairs.no_duplicates(),
            forall|k: u128, h: u64| #[trigger]
                pairs.contains((k, h)) ==> self.is_wanted(key, hashes, (k, h)),
            forall|i: int, j: int|
                0 <= i < j < pairs.len() && (#[trigger] pairs[i]).0 == key ==> (
                #[trigger] pairs[j]).0 == key,
        ensures
            self.pairs_within(key, hashes, pairs),
    {
        assert forall|i: int| 0 <= i < pairs.len() implies self.is_wanted(
            key,
            hashes,
            #[trigger] pairs[i],
        ) by {
            assert(pairs.contains((pairs[i].0, pairs[i].1)));
        }
    }

    /// Only the grants for the blocks at hand matter.
    pub proof fn lemma_rebuilt_grants(
        config: CkfConfig,
        addressing: CkfAddressing,
        pairs: Seq<(u128, u64)>,
        grants: Seq<bool>,
        others: Seq<bool>,
    )
        requires
            forall|i: int| 0 <= i < pairs.len() ==> #[trigger] grants[i] == others[i],
        ensures
            Self::rebuilt(config, addressing, pairs, grants) == Self::rebuilt(
                config,
                addressing,
                pairs,
                others,
            ),
        decreases pairs.len(),
    {
        if pairs.len() > 0 {
            Self::lemma_rebuilt_grants(config, addressing, pairs.drop_last(), grants, others);
            assert(grants[pairs.len() - 1] == others[pairs.len() - 1]);
        }
    }

    /// One block more is one store more.
    pub proof fn lemma_rebuilt_step(
        config: CkfConfig,
        addressing: CkfAddressing,
        pairs: Seq<(u128, u64)>,
        grants: Seq<bool>,
        pair: (u128, u64),
        granted: bool,
    )
        requires
            grants.len() == pairs.len(),
            Self::rebuilt(config, addressing, pairs, grants).1 is None,
        ensures
            ({
                let before = Self::rebuilt(config, addressing, pairs, grants).0;
                let (after, result) = before.stored(pair.0, pair.1, granted);
                Self::rebuilt(config, addressing, pairs.push(pair), grants.push(granted)) == (
                    after,
                    match result {
                        Ok(_) => None,
                        Err(error) => Some(error),
                    },
                )
            }),
    {
        assert(pairs.push(pair).drop_last() =~= pairs);
        Self::lemma_rebuilt_grants(config, addressing, pairs, grants, grants.push(granted));
    }

    /// Whether this state is rebuilt from blocks of others and the first
    /// `count` of a member's blocks.
    #[verifier::opaque]
    pub open spec fn is_rebuilt_from(
        self,
        pairs: Seq<(u128, u64)>,
        key: u128,
        hashes: Seq<u64>,
        count: int,
        grants: Seq<bool>,
        error: Option<KvCacheEventError>,
    ) -> bool {
        &&& 0 <= count <= hashes.len()
        &&& grants.len() == pairs.len() + count
        &&& grants_answered(grants)
        &&& (self, error) == Self::rebuilt(
            self.config,
            self.addressing,
            pairs + listed(key, hashes.take(count)),
            grants,
        )
    }

    /// A rebuilt state to which a member's next block is added is rebuilt from
    /// one block more.
    pub proof fn lemma_rebuilt_further(
        self,
        pairs: Seq<(u128, u64)>,
        key: u128,
        hashes: Seq<u64>,
        count: int,
        grants: Seq<bool>,
        granted: bool,
    )
        requires
            self.inv(),
            key < MEMBER_KEY_END,
            count < hashes.len(),
            self.is_rebuilt_from(pairs, key, hashes, count, grants, None),
            granted || store_room_refused(),
        ensures
            ({
                let (after, result) = self.stored(key, hashes[count], granted);
                &&& after.config == self.config
                &&& after.addressing == self.addressing
                &&& after.is_rebuilt_from(
                    pairs,
                    key,
                    hashes,
                    count + 1,
                    grants.push(granted),
                    match result {
                        Ok(_) => None,
                        Err(error) => Some(error),
                    },
                )
            }),
    {
        reveal(DcCkfModel::is_rebuilt_from);
        let done = pairs + listed(key, hashes.take(count));
        let pair = (key, hashes[count]);
        assert(pairs + listed(key, hashes.take(count + 1)) =~= done.push(pair));
        self.lemma_stored(key, hashes[count], granted);
        Self::lemma_rebuilt_step(self.config, self.addressing, done, grants, pair, granted);
    }

    /// A rebuilt state satisfies the invariant, and its members own what they
    /// took.
    pub proof fn lemma_rebuilt(
        config: CkfConfig,
        addressing: CkfAddressing,
        pairs: Seq<(u128, u64)>,
        grants: Seq<bool>,
    )
        requires
            config.fault() is None,
            addressing.wf(),
            addressing.seed() == config.seed,
            addressing.bucket_count() == lane_size(config.expected_blocks_per_dc),
            forall|i: int| 0 <= i < pairs.len() ==> (#[trigger] pairs[i]).0 < MEMBER_KEY_END,
        ensures
            ({
                let (after, error) = Self::rebuilt(config, addressing, pairs, grants);
                &&& after.inv()
                &&& after.config == config
                &&& after.addressing == addressing
                &&& error is None ==> forall|k: u128, h: u64| #[trigger]
                    owns(after.members, k, h) == pairs.contains((k, h))
            }),
        decreases pairs.len(),
    {
        if pairs.len() == 0 {
            Self::lemma_initial(config, addressing);
        } else {
            let rest = pairs.drop_last();
            let (before, error) = Self::rebuilt(config, addressing, rest, grants);
            let (key, hash) = pairs.last();
            Self::lemma_rebuilt(config, addressing, rest, grants);
            assert(pairs[pairs.len() - 1].0 < MEMBER_KEY_END);
            before.lemma_stored(key, hash, grants[pairs.len() - 1]);
            lemma_with_block(before.members, key, hash);
            assert(pairs =~= rest.push(pairs.last()));
            assert forall|k: u128, h: u64| #[trigger]
                pairs.contains((k, h)) == (rest.contains((k, h)) || (k == key && h == hash)) by {
                vstd::seq_lib::lemma_seq_contains_after_push(rest, pairs.last(), (k, h));
            }
        }
    }

    /// A replacement satisfies the invariant, gives the member its new blocks
    /// and every other member its old ones, and keeps what subscribers saw.
    pub proof fn lemma_replaced(
        self,
        key: u128,
        hashes: Set<u64>,
        pairs: Seq<(u128, u64)>,
        grants: Seq<bool>,
        rebuilt: Self,
    )
        requires
            self.inv(),
            key < MEMBER_KEY_END,
            hashes.finite(),
            self.is_accepted(key, hashes, pairs, grants, rebuilt),
        ensures
            ({
                let after = self.replaced_by(rebuilt);
                &&& after.inv()
                &&& after.config == self.config
                &&& after.addressing == self.addressing
                &&& after.members == with_replaced(self.members, key, hashes)
                &&& after.published() == self.published()
            }),
    {
        reveal(DcCkfModel::is_accepted);
        assert forall|i: int| 0 <= i < pairs.len() implies (#[trigger] pairs[i]).0
            < MEMBER_KEY_END by {
            assert(self.is_wanted(key, hashes, pairs[i]));
        }
        Self::lemma_rebuilt(self.config, self.addressing, pairs, grants);
        lemma_with_replaced(self.members, key, hashes);
        assert forall|k: u128, h: u64| #[trigger]
            owns(rebuilt.members, k, h) == owns(
                with_replaced(self.members, key, hashes),
                k,
                h,
            ) by {
            assert(pairs.contains((k, h)) == owns(rebuilt.members, k, h));
            assert(pairs.contains((k, h)) == self.is_wanted(key, hashes, (k, h)));
        }
        lemma_same_blocks(rebuilt.members, with_replaced(self.members, key, hashes));
        self.addressing.lemma_bucket_count();
        lemma_rebased(self.touched, self.lane, rebuilt.lane);
    }

    /// Whether a state is rebuilt from everything that members among `done`
    /// own, except for `key`.
    #[verifier::opaque]
    pub open spec fn is_copied(
        self,
        key: u128,
        done: Seq<u128>,
        pairs: Seq<(u128, u64)>,
        grants: Seq<bool>,
        state: Self,
    ) -> bool {
        &&& grants.len() == pairs.len()
        &&& grants_answered(grants)
        &&& (state, None::<KvCacheEventError>) == self.replacement(pairs, grants)
        &&& state.config == self.config
        &&& state.addressing == self.addressing
        &&& pairs.no_duplicates()
        &&& forall|k: u128, h: u64| #[trigger]
            pairs.contains((k, h)) == (k != key && done.contains(k) && owns(self.members, k, h))
    }

    /// Whether a replacement can stop with an error: the blocks stored so far
    /// are wanted, and the last of them was refused.
    #[verifier::opaque]
    pub open spec fn is_refused(
        self,
        key: u128,
        hashes: Set<u64>,
        pairs: Seq<(u128, u64)>,
        grants: Seq<bool>,
        error: KvCacheEventError,
    ) -> bool {
        &&& self.pairs_within(key, hashes, pairs)
        &&& grants.len() == pairs.len()
        &&& grants_answered(grants)
        &&& self.replacement(pairs, grants).1 == Some(error)
    }

    /// Whether a state can take the place of this one: it is rebuilt from all
    /// the wanted blocks without an error.
    #[verifier::opaque]
    pub open spec fn is_accepted(
        self,
        key: u128,
        hashes: Set<u64>,
        pairs: Seq<(u128, u64)>,
        grants: Seq<bool>,
        state: Self,
    ) -> bool {
        &&& self.pairs_fit(key, hashes, pairs)
        &&& grants.len() == pairs.len()
        &&& self.replacement(pairs, grants) == (state, None::<KvCacheEventError>)
    }

    /// What copying has led to so far is where a member's blocks come next.
    pub proof fn lemma_copied_state(
        self,
        key: u128,
        done: Seq<u128>,
        pairs: Seq<(u128, u64)>,
        grants: Seq<bool>,
        state: Self,
        member: u128,
        blocks: Seq<u64>,
    )
        requires
            self.is_copied(key, done, pairs, grants, state),
        ensures
            state.config == self.config,
            state.addressing == self.addressing,
            state.is_rebuilt_from(pairs, member, blocks, 0, grants, None),
    {
        reveal(DcCkfModel::is_copied);
        reveal(DcCkfModel::is_rebuilt_from);
        assert(pairs + listed(member, blocks.take(0)) =~= pairs);
    }

    /// A new aggregation is rebuilt from nothing.
    pub proof fn lemma_copied_nothing(self, key: u128)
        ensures
            self.is_copied(
                key,
                Seq::empty(),
                Seq::empty(),
                Seq::empty(),
                Self::initial(self.config, self.addressing),
            ),
    {
        reveal(DcCkfModel::is_copied);
    }

    /// The member that changes is passed over.
    pub proof fn lemma_copied_skip(
        self,
        key: u128,
        done: Seq<u128>,
        pairs: Seq<(u128, u64)>,
        grants: Seq<bool>,
        state: Self,
    )
        requires
            self.is_copied(key, done, pairs, grants, state),
        ensures
            self.is_copied(key, done.push(key), pairs, grants, state),
    {
        reveal(DcCkfModel::is_copied);
        assert forall|k: u128, h: u64| #[trigger]
            pairs.contains((k, h)) == (k != key && done.push(key).contains(k) && owns(
                self.members,
                k,
                h,
            )) by {
            vstd::seq_lib::lemma_seq_contains_after_push(done, key, k);
        }
    }

    /// Copying one more member copies it whole or stops with an error.
    pub proof fn lemma_copied_member(
        self,
        key: u128,
        wanted: Set<u64>,
        done: Seq<u128>,
        pairs: Seq<(u128, u64)>,
        grants: Seq<bool>,
        before: Self,
        member: u128,
        blocks: Seq<u64>,
        count: int,
        all_grants: Seq<bool>,
        refused: Option<KvCacheEventError>,
        after: Self,
    )
        requires
            self.is_copied(key, done, pairs, grants, before),
            member != key,
            !done.contains(member),
            self.members.contains_key(member),
            blocks.no_duplicates(),
            blocks.to_set() == self.members[member],
            after.is_rebuilt_from(pairs, member, blocks, count, all_grants, refused),
            refused is None ==> count == blocks.len(),
            after.config == self.config,
            after.addressing == self.addressing,
        ensures
            ({
                let all = pairs + listed(member, blocks.take(count));
                match refused {
                    None => self.is_copied(key, done.push(member), all, all_grants, after),
                    Some(error) => self.is_refused(key, wanted, all, all_grants, error),
                }
            }),
    {
        reveal(DcCkfModel::is_copied);
        reveal(DcCkfModel::is_rebuilt_from);
        reveal(DcCkfModel::is_refused);
        let taken = blocks.take(count);
        let all = pairs + listed(member, taken);
        assert forall|i: int| 0 <= i < pairs.len() implies (#[trigger] pairs[i]).0 != member by {
            assert(pairs.contains((pairs[i].0, pairs[i].1)));
        }
        lemma_listed(pairs, member, taken);
        assert forall|h: u64| taken.contains(h) implies owns(self.members, member, h) by {
            let j = choose|j: int| 0 <= j < count && taken[j] == h;
            assert(blocks.contains(blocks[j]));
            assert(blocks.to_set().contains(h));
        }
        if refused is None {
            assert(taken =~= blocks);
            assert forall|k: u128, h: u64| #[trigger]
                all.contains((k, h)) == (k != key && done.push(member).contains(k) && owns(
                    self.members,
                    k,
                    h,
                )) by {
                vstd::seq_lib::lemma_seq_contains_after_push(done, member, k);
                assert(blocks.to_set().contains(h) == blocks.contains(h));
            }
        } else {
            assert forall|i: int| 0 <= i < all.len() implies (#[trigger] all[i]).0 != key by {
                assert(all.contains((all[i].0, all[i].1)));
            }
            self.lemma_pairs_within(key, wanted, all);
        }
    }

    /// After all other members, the one that changes takes its new blocks or
    /// the replacement stops with an error.
    pub proof fn lemma_copied_all(
        self,
        key: u128,
        wanted: Set<u64>,
        done: Seq<u128>,
        pairs: Seq<(u128, u64)>,
        grants: Seq<bool>,
        before: Self,
        blocks: Seq<u64>,
        count: int,
        all_grants: Seq<bool>,
        refused: Option<KvCacheEventError>,
        after: Self,
    )
        requires
            self.is_copied(key, done, pairs, grants, before),
            done.to_set() == self.members.dom(),
            blocks.no_duplicates(),
            blocks.to_set() == wanted,
            after.is_rebuilt_from(pairs, key, blocks, count, all_grants, refused),
            refused is None ==> count == blocks.len(),
            after.config == self.config,
            after.addressing == self.addressing,
        ensures
            wanted.finite(),
            ({
                let all = pairs + listed(key, blocks.take(count));
                match refused {
                    None => self.is_accepted(key, wanted, all, all_grants, after),
                    Some(error) => self.is_refused(key, wanted, all, all_grants, error),
                }
            }),
    {
        reveal(DcCkfModel::is_copied);
        reveal(DcCkfModel::is_rebuilt_from);
        reveal(DcCkfModel::is_refused);
        reveal(DcCkfModel::is_accepted);
        vstd::seq_lib::seq_to_set_is_finite(blocks);
        let taken = blocks.take(count);
        let all = pairs + listed(key, taken);
        assert forall|i: int| 0 <= i < pairs.len() implies (#[trigger] pairs[i]).0 != key by {
            assert(pairs.contains((pairs[i].0, pairs[i].1)));
        }
        lemma_listed(pairs, key, taken);
        assert forall|h: u64| taken.contains(h) implies wanted.contains(h) by {
            let j = choose|j: int| 0 <= j < count && taken[j] == h;
            assert(blocks.contains(blocks[j]));
            assert(blocks.to_set().contains(h));
        }
        self.lemma_pairs_within(key, wanted, all);
        if refused is None {
            assert(taken =~= blocks);
            assert forall|k: u128, h: u64| #[trigger]
                all.contains((k, h)) == self.is_wanted(key, wanted, (k, h)) by {
                assert(blocks.to_set().contains(h) == blocks.contains(h));
                assert(done.to_set().contains(k) == done.contains(k));
            }
        }
    }
}

} // verus!
