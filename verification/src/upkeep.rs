//! Every transition of the aggregation state keeps its invariant.
use vstd::prelude::*;
#[allow(unused_imports)]
use crate::addressing::CkfAddressing;
#[allow(unused_imports)]
use crate::bucket::{first_slot, slot_at, with_slot};
#[allow(unused_imports)]
use crate::census::{lemma_empty, lemma_insertion_takes_one_slot, lemma_removal_frees_one_slot};
#[allow(unused_imports)]
use crate::config::{lane_size, CkfConfig};
#[allow(unused_imports)]
use crate::model::{changed_images, enumerates, refcounts_match, Choices, DcCkfModel};
#[allow(unused_imports)]
use crate::ownership::{
    is_ignored, lemma_with_block, lemma_without_all_blocks, lemma_without_block, members_after,
    owners, owns, with_block, with_blocks, without_block, without_blocks, Members,
};
#[allow(unused_imports)]
use crate::mutator::{advanced, insertion, relocation, removal, starts_in_second, victim_slot, Write};
#[allow(unused_imports)]
use crate::occupancy::{
    lemma_empty_exactly_when_nothing_held, lemma_empty_lane_holds_nothing, lemma_insertion,
    lemma_removal,
};
#[allow(unused_imports)]
use crate::protocol::{KvCacheEventData, RouterEvent, MEMBER_KEY_END};
#[allow(unused_imports)]
use crate::window::{
    distinct, in_lane, lemma_marked, lemma_published_untouched, lemma_touched_at_most_all, marked,
    marked_all, published,
};

verus! {

/// A block has finitely many owners.
pub proof fn lemma_owners_finite(members: Members, hash: u64)
    requires
        members.dom().finite(),
    ensures
        owners(members, hash).finite(),
{
    members.dom().lemma_len_filter(|key: u128| members[key].contains(hash));
}

/// Recording a first write and then the rest is recording them all.
proof fn lemma_marked_all_first(touched: Seq<Write>, write: Write, rest: Seq<Write>)
    ensures
        marked_all(touched, seq![write] + rest) == marked_all(marked(touched, write), rest),
    decreases rest.len(),
{
    let all = seq![write] + rest;
    if rest.len() == 0 {
        assert(all.drop_last() =~= Seq::empty());
        assert(marked_all(touched, all.drop_last()) == touched);
    } else {
        assert(all.drop_last() =~= seq![write] + rest.drop_last());
        lemma_marked_all_first(touched, write, rest.drop_last());
    }
}

/// Recording the writes of a relocation keeps the published lane.
proof fn lemma_relocation_keeps_published(
    addressing: CkfAddressing,
    lane: Seq<u64>,
    bucket: usize,
    fingerprint: u16,
    rng: u64,
    kicks: nat,
    touched: Seq<Write>,
)
    requires
        addressing.wf(),
        lane.len() == addressing.bucket_count(),
        bucket < lane.len(),
        distinct(touched),
        in_lane(touched, lane.len() as int),
    ensures
        ({
            let end = relocation(addressing, lane, bucket, fingerprint, rng, kicks);
            let after = marked_all(touched, end.writes);
            &&& end.lane.len() == lane.len()
            &&& distinct(after)
            &&& in_lane(after, lane.len() as int)
            &&& published(end.lane, after) == published(lane, touched)
        }),
    decreases kicks,
{
    addressing.lemma_bucket_count();
    let value = lane[bucket as int];
    let end = relocation(addressing, lane, bucket, fingerprint, rng, kicks);
    match first_slot(value, 0) {
        Some(slot) => {
            lemma_marked(lane, touched, bucket, with_slot(value, slot, fingerprint));
            lemma_marked_all_first(touched, (bucket, value), Seq::empty());
            assert(seq![(bucket, value)] + Seq::<Write>::empty() =~= seq![(bucket, value)]);
        },
        None => {
            if kicks > 0 {
                let next_rng = advanced(rng);
                let slot = victim_slot(next_rng);
                let victim = slot_at(value, slot);
                let next_lane = lane.update(bucket as int, with_slot(value, slot, fingerprint));
                let next_bucket = addressing.spec_alternate(bucket, victim);
                let rest = relocation(
                    addressing,
                    next_lane,
                    next_bucket,
                    victim,
                    next_rng,
                    (kicks - 1) as nat,
                );
                addressing.lemma_alternate(bucket, victim);
                lemma_marked(lane, touched, bucket, with_slot(value, slot, fingerprint));
                lemma_relocation_keeps_published(
                    addressing,
                    next_lane,
                    next_bucket,
                    victim,
                    next_rng,
                    (kicks - 1) as nat,
                    marked(touched, (bucket, value)),
                );
                lemma_marked_all_first(touched, (bucket, value), rest.writes);
                assert(end.writes == seq![(bucket, value)] + rest.writes);
            }
        },
    }
}

/// Recording the writes of an insertion keeps the published lane.
pub proof fn lemma_insertion_keeps_published(
    addressing: CkfAddressing,
    lane: Seq<u64>,
    hash: u64,
    rng: u64,
    max_kicks: nat,
    touched: Seq<Write>,
)
    requires
        addressing.wf(),
        lane.len() == addressing.bucket_count(),
        distinct(touched),
        in_lane(touched, lane.len() as int),
    ensures
        ({
            let end = insertion(addressing, lane, hash, rng, max_kicks);
            let after = marked_all(touched, end.writes);
            &&& end.lane.len() == lane.len()
            &&& distinct(after)
            &&& in_lane(after, lane.len() as int)
            &&& published(end.lane, after) == published(lane, touched)
        }),
{
    addressing.lemma_probe(hash);
    let probe = addressing.probe(hash);
    let next_rng = advanced(rng);
    lemma_relocation_keeps_published(
        addressing,
        lane,
        probe.bucket_a,
        probe.fingerprint,
        rng,
        0,
        touched,
    );
    lemma_relocation_keeps_published(
        addressing,
        lane,
        probe.bucket_b,
        probe.fingerprint,
        rng,
        0,
        touched,
    );
    let start = if starts_in_second(next_rng) {
        probe.bucket_b
    } else {
        probe.bucket_a
    };
    lemma_relocation_keeps_published(
        addressing,
        lane,
        start,
        probe.fingerprint,
        next_rng,
        max_kicks,
        touched,
    );
}

/// Every write of a relocation lies in the lane.
proof fn lemma_relocation_writes_in_lane(
    addressing: CkfAddressing,
    lane: Seq<u64>,
    bucket: usize,
    fingerprint: u16,
    rng: u64,
    kicks: nat,
)
    requires
        addressing.wf(),
        lane.len() == addressing.bucket_count(),
        bucket < lane.len(),
    ensures
        relocation(addressing, lane, bucket, fingerprint, rng, kicks).lane.len() == lane.len(),
        in_lane(
            relocation(addressing, lane, bucket, fingerprint, rng, kicks).writes,
            lane.len() as int,
        ),
    decreases kicks,
{
    let value = lane[bucket as int];
    if first_slot(value, 0) is None && kicks > 0 {
        let next_rng = advanced(rng);
        let slot = victim_slot(next_rng);
        let victim = slot_at(value, slot);
        addressing.lemma_alternate(bucket, victim);
        lemma_relocation_writes_in_lane(
            addressing,
            lane.update(bucket as int, with_slot(value, slot, fingerprint)),
            addressing.spec_alternate(bucket, victim),
            victim,
            next_rng,
            (kicks - 1) as nat,
        );
    }
}

/// Every write of an insertion lies in the lane.
pub proof fn lemma_insertion_writes_in_lane(
    addressing: CkfAddressing,
    lane: Seq<u64>,
    hash: u64,
    rng: u64,
    max_kicks: nat,
)
    requires
        addressing.wf(),
        lane.len() == addressing.bucket_count(),
    ensures
        insertion(addressing, lane, hash, rng, max_kicks).lane.len() == lane.len(),
        in_lane(insertion(addressing, lane, hash, rng, max_kicks).writes, lane.len() as int),
{
    addressing.lemma_probe(hash);
    let probe = addressing.probe(hash);
    let next_rng = advanced(rng);
    let start = if starts_in_second(next_rng) {
        probe.bucket_b
    } else {
        probe.bucket_a
    };
    let fingerprint = probe.fingerprint;
    lemma_relocation_writes_in_lane(addressing, lane, probe.bucket_a, fingerprint, rng, 0);
    lemma_relocation_writes_in_lane(addressing, lane, probe.bucket_b, fingerprint, rng, 0);
    lemma_relocation_writes_in_lane(addressing, lane, start, fingerprint, next_rng, max_kicks);
}

/// No more buckets have images than were touched.
proof fn lemma_images_at_most_touched(lane: Seq<u64>, touched: Seq<Write>)
    ensures
        changed_images(lane, touched).len() <= touched.len(),
    decreases touched.len(),
{
    if touched.len() > 0 {
        lemma_images_at_most_touched(lane, touched.drop_last());
    }
}

/// Counting one owner more or fewer of one block keeps counts and owners in
/// step.
proof fn lemma_refcounts_follow(
    before: Members,
    after: Members,
    refcounts: Map<u64, u32>,
    hash: u64,
    count: u32,
)
    requires
        refcounts_match(before, refcounts),
        owners(after, hash).len() == count,
        forall|other: u64|
            other != hash ==> #[trigger] owners(after, other) == owners(before, other),
    ensures
        count > 0 ==> refcounts_match(after, refcounts.insert(hash, count)),
        count == 0 ==> refcounts_match(after, refcounts.remove(hash)),
{
    let changed = if count > 0 {
        refcounts.insert(hash, count)
    } else {
        refcounts.remove(hash)
    };
    assert forall|other: u64| #[trigger]
        changed.contains_key(other) == (owners(after, other).len() > 0) by {
        assert(refcounts.contains_key(other) == (owners(before, other).len() > 0));
    }
    assert forall|other: u64| #[trigger] changed.contains_key(other) implies changed[other]
        == owners(after, other).len() by {
        if other != hash {
            assert(refcounts.contains_key(other));
        }
    }
}

impl DcCkfModel {
    /// Storing a block keeps the invariant and everything that subscribers
    /// were told.
    pub proof fn lemma_stored(self, key: u128, hash: u64, granted: bool)
        requires
            self.inv(),
            key < MEMBER_KEY_END,
        ensures
            ({
                let (after, result) = self.stored(key, hash, granted);
                &&& after.inv()
                &&& after.config == self.config
                &&& after.addressing == self.addressing
                &&& after.lane.len() == self.lane.len()
                &&& after.published() == self.published()
                &&& after.sequence == self.sequence
                &&& after.pending_events == self.pending_events
                &&& after.published_nonempty == self.published_nonempty
                &&& after.members == (if result is Ok {
                    with_block(self.members, key, hash)
                } else {
                    self.members
                })
            }),
    {
        let (after, result) = self.stored(key, hash, granted);
        lemma_with_block(self.members, key, hash);
        lemma_owners_finite(self.members, hash);
        assert(self.refcounts.contains_key(hash) == (owners(self.members, hash).len() > 0));
        let members = with_block(self.members, key, hash);
        if result == Ok::<bool, crate::protocol::KvCacheEventError>(true) {
            assert(!owners(self.members, hash).contains(key));
            let count = (self.refcount(hash) + 1) as u32;
            assert(owners(members, hash).len() == count);
            lemma_refcounts_follow(self.members, members, self.refcounts, hash, count);
            assert(after.refcounts == self.refcounts.insert(hash, count));
        }
        if self.refcount(hash) == 0 {
            assert(!self.refcounts.contains_key(hash));
            lemma_insertion(
                self.addressing,
                self.lane,
                self.refcounts.dom(),
                hash,
                self.rng,
                self.config.max_kicks as nat,
            );
            if result is Ok {
                lemma_insertion_takes_one_slot(
                    self.addressing,
                    self.lane,
                    hash,
                    self.rng,
                    self.config.max_kicks as nat,
                );
            }
            lemma_insertion_keeps_published(
                self.addressing,
                self.lane,
                hash,
                self.rng,
                self.config.max_kicks as nat,
                self.touched,
            );
            assert(self.refcounts.insert(hash, 1).dom() =~= self.refcounts.dom().insert(hash));
        } else {
            assert(self.refcounts.dom().insert(hash) =~= self.refcounts.dom());
            assert(self.refcounts.insert(hash, (self.refcount(hash) + 1) as u32).dom()
                =~= self.refcounts.dom());
        }
    }

    /// Removing a block keeps the invariant and everything that subscribers
    /// were told.
    pub proof fn lemma_removed(self, key: u128, hash: u64)
        requires
            self.inv(),
        ensures
            ({
                let (after, found) = self.removed(key, hash);
                &&& after.inv()
                &&& after.config == self.config
                &&& after.addressing == self.addressing
                &&& after.lane.len() == self.lane.len()
                &&& after.published() == self.published()
                &&& after.sequence == self.sequence
                &&& after.pending_events == self.pending_events
                &&& after.published_nonempty == self.published_nonempty
                &&& after.members == without_block(self.members, key, hash)
                &&& found == owns(self.members, key, hash)
                &&& found && self.refcount(hash) == 1 ==> removal(
                    self.addressing,
                    self.lane,
                    hash,
                ) is Some
                &&& found ==> self.refcounts.contains_key(hash) && self.refcount(hash) >= 1
            }),
    {
        let (after, found) = self.removed(key, hash);
        if found {
            lemma_without_block(self.members, key, hash);
            lemma_owners_finite(self.members, hash);
            let members = without_block(self.members, key, hash);
            assert(owners(self.members, hash).len() > 0);
            assert(self.refcounts.contains_key(hash));
            let count = (self.refcount(hash) - 1) as u32;
            assert(owners(members, hash).len() == count);
            lemma_refcounts_follow(self.members, members, self.refcounts, hash, count);
            if self.refcount(hash) == 1 {
                lemma_removal(self.addressing, self.lane, self.refcounts.dom(), hash);
                lemma_removal_frees_one_slot(self.addressing, self.lane, hash);
                let (write, lane) = removal(self.addressing, self.lane, hash).unwrap();
                self.addressing.lemma_bucket_count();
                assert(lane =~= self.lane.update(write.0 as int, lane[write.0 as int]));
                lemma_marked(self.lane, self.touched, write.0, lane[write.0 as int]);
                assert(seq![write].drop_last() =~= Seq::empty());
                assert(marked_all(self.touched, seq![write].drop_last()) == self.touched);
                assert(marked_all(self.touched, seq![write]) == marked(self.touched, write));
                assert(self.refcounts.remove(hash).dom() =~= self.refcounts.dom().remove(hash));
            } else {
                assert(self.refcounts.insert(hash, count).dom() =~= self.refcounts.dom());
            }
        }
    }

    /// Closing a publication window keeps the invariant, and afterwards
    /// subscribers have seen the lane as it is.
    pub proof fn lemma_drained(self)
        requires
            self.inv(),
        ensures
            ({
                let (after, delta) = self.drained();
                &&& after.inv()
                &&& after.config == self.config
                &&& after.addressing == self.addressing
                &&& after.lane == self.lane
                &&& after.members == self.members
                &&& after.refcounts == self.refcounts
                &&& after.rng == self.rng
                &&& after.pending_events == 0
                &&& after.touched == Seq::<Write>::empty()
                &&& after.published() == self.lane
            }),
    {
        let (after, delta) = self.drained();
        lemma_published_untouched(self.lane);
        lemma_touched_at_most_all(self.touched, self.lane.len() as int);
        lemma_images_at_most_touched(self.lane, self.touched);
        self.addressing.lemma_bucket_count();
        assert(after.touched =~= Seq::<Write>::empty());
        lemma_empty_exactly_when_nothing_held(self.addressing, self.lane, self.refcounts.dom());
    }

    /// What no transition but a publication changes.
    pub open spec fn same_publication(self, after: Self) -> bool {
        &&& after.config == self.config
        &&& after.addressing == self.addressing
        &&& after.lane.len() == self.lane.len()
        &&& after.published() == self.published()
        &&& after.sequence == self.sequence
        &&& after.pending_events == self.pending_events
        &&& after.published_nonempty == self.published_nonempty
    }

    /// A new aggregation satisfies the invariant.
    pub proof fn lemma_initial(config: CkfConfig, addressing: CkfAddressing)
        requires
            config.fault() is None,
            addressing.wf(),
            addressing.seed() == config.seed,
            addressing.bucket_count() == lane_size(config.expected_blocks_per_dc),
        ensures
            DcCkfModel::initial(config, addressing).inv(),
    {
        let state = DcCkfModel::initial(config, addressing);
        lemma_empty_lane_holds_nothing(addressing, state.lane);
        lemma_empty(state.lane.len());
        lemma_published_untouched(state.lane);
        assert(state.refcounts.dom() =~= Set::empty());
        assert forall|hash: u64| #[trigger]
            state.refcounts.contains_key(hash) == (owners(state.members, hash).len() > 0) by {
            assert(owners(state.members, hash) =~= Set::empty());
        }
    }

    /// Storing blocks keeps the invariant; without an error they are owned.
    pub proof fn lemma_stored_all(self, key: u128, hashes: Seq<u64>, grants: Seq<bool>)
        requires
            self.inv(),
            key < MEMBER_KEY_END,
        ensures
            ({
                let (after, error) = self.stored_all(key, hashes, grants);
                &&& after.inv()
                &&& self.same_publication(after)
                &&& error is None ==> after.members == with_blocks(self.members, key, hashes)
            }),
        decreases hashes.len(),
    {
        if hashes.len() > 0 {
            let (before, error) = self.stored_all(key, hashes.drop_last(), grants);
            self.lemma_stored_all(key, hashes.drop_last(), grants);
            before.lemma_stored(key, hashes.last(), grants[hashes.len() - 1]);
        }
    }

    /// Removing blocks keeps the invariant, and none of them is owned
    /// afterwards.
    pub proof fn lemma_removed_all(self, key: u128, hashes: Seq<u64>)
        requires
            self.inv(),
        ensures
            ({
                let (after, unknown) = self.removed_all(key, hashes);
                &&& after.inv()
                &&& self.same_publication(after)
                &&& after.members == without_blocks(self.members, key, hashes)
                &&& 0 <= unknown <= hashes.len()
            }),
        decreases hashes.len(),
    {
        if hashes.len() > 0 {
            self.lemma_removed_all(key, hashes.drop_last());
            self.removed_all(key, hashes.drop_last()).0.lemma_removed(key, hashes.last());
        }
    }

    /// A sweep that happens leaves the member without blocks, and every other
    /// member as it was.
    pub proof fn lemma_swept(self, key: u128, sweep: Option<Seq<u64>>)
        requires
            self.inv(),
            self.members.contains_key(key) && sweep is Some ==> enumerates(
                sweep.unwrap(),
                self.members[key],
            ),
        ensures
            ({
                let (after, error) = self.swept(key, sweep);
                &&& after.inv()
                &&& self.same_publication(after)
                &&& error is Some == (self.members.contains_key(key) && sweep is None)
                &&& after.members == (if error is None {
                    self.members.remove(key)
                } else {
                    self.members
                })
            }),
    {
        if self.members.contains_key(key) {
            if let Some(order) = sweep {
                self.lemma_removed_all(key, order);
                lemma_without_all_blocks(self.members, key, order);
            }
        } else {
            assert(self.members.remove(key) =~= self.members);
        }
    }

    /// Sweeps that happen leave their members without blocks, and every other
    /// member as it was.
    pub proof fn lemma_swept_all(
        self,
        worker_id: u64,
        order: Seq<u128>,
        sweeps: Seq<Option<Seq<u64>>>,
        count: int,
    )
        requires
            self.inv(),
            self.sweeps_fit(worker_id, order, sweeps),
            0 <= count <= sweeps.len(),
        ensures
            ({
                let (after, error) = self.swept_all(order.take(count), sweeps);
                &&& after.inv()
                &&& self.same_publication(after)
                &&& error is None == forall|i: int|
                    0 <= i < count ==> (#[trigger] sweeps[i]) is Some
                &&& error is Some ==> error
                    == Some(crate::protocol::KvCacheEventError::CapacityExhausted)
                &&& forall|i: int|
                    count <= i < order.len() ==> after.members.contains_key(#[trigger] order[i])
                        && after.members[order[i]] == self.members[order[i]]
                &&& error is None ==> after.members == self.members.remove_keys(
                    order.take(count).to_set(),
                )
                &&& forall|key: u128| #[trigger]
                    after.members.contains_key(key) ==> self.members.contains_key(key)
                        && after.members[key] == self.members[key]
            }),
        decreases count,
    {
        assert forall|i: int| 0 <= i < order.len() implies self.members.contains_key(
            #[trigger] order[i],
        ) by {
            assert(order.to_set().contains(order[i]));
        }
        let prefix = order.take(count);
        if count == 0 {
            assert(prefix.to_set() =~= Set::empty());
            assert(self.members.remove_keys(prefix.to_set()) =~= self.members);
        } else {
            let shorter = order.take(count - 1);
            let (before, error) = self.swept_all(shorter, sweeps);
            let key = order[count - 1];
            self.lemma_swept_all(worker_id, order, sweeps, count - 1);
            assert(prefix.drop_last() =~= shorter);
            assert(prefix.last() == key);
            assert(before.members[order[count - 1]] == self.members[order[count - 1]]);
            before.lemma_swept(key, sweeps[count - 1]);
            let (after, next) = before.swept(key, sweeps[count - 1]);
            assert forall|i: int| count <= i < order.len() implies after.members.contains_key(
                #[trigger] order[i],
            ) && after.members[order[i]] == self.members[order[i]] by {
                assert(order[i] != order[count - 1]);
            }
            if error is None && next is None {
                assert(prefix =~= shorter.push(key));
                assert forall|k: u128| prefix.to_set().contains(k) == (shorter.to_set().contains(k)
                    || k == key) by {
                    vstd::seq_lib::lemma_seq_contains_after_push(shorter, key, k);
                }
                assert(after.members =~= self.members.remove_keys(prefix.to_set()));
            }
        }
    }

    /// Applying an event keeps the invariant; without an error, ownership is
    /// what the event says.
    pub proof fn lemma_applied(self, event: RouterEvent, choices: Choices)
        requires
            self.inv(),
            self.choices_fit(event, choices),
        ensures
            ({
                let (after, outcome) = self.applied(event, choices);
                &&& after.inv()
                &&& after.config == self.config
                &&& after.addressing == self.addressing
                &&& after.lane.len() == self.lane.len()
                &&& outcome.first_error is None ==> after.members == members_after(
                    self.members,
                    event,
                )
            }),
    {
        if !is_ignored(event) {
            let key = event.member().spec_key();
            crate::protocol::law_member_keys_order_members(event.member(), event.member());
            let counted = self.counting_event();
            assert(counted.published() == self.published());
            assert(counted.inv());
            let (changed, first_error, unknown) = counted.recorded(event, choices);
            match event.event.data {
                KvCacheEventData::Stored(store) => {
                    counted.lemma_stored_all(key, store.hashes(), choices.grants);
                },
                KvCacheEventData::Removed(remove) => {
                    counted.lemma_removed_all(key, remove.hashes());
                },
                KvCacheEventData::Cleared => {
                    let count = choices.order.len() as int;
                    counted.lemma_swept_all(
                        event.worker_id,
                        choices.order,
                        choices.sweeps,
                        count,
                    );
                    assert(choices.order.take(count) =~= choices.order);
                },
            }
            let noted = changed.noting_unknown(unknown);
            assert(noted.published() == changed.published());
            assert(noted.inv());
            noted.lemma_drained();
        }
    }

    /// Only the grants for the blocks at hand matter.
    pub proof fn lemma_stored_all_grants(
        self,
        key: u128,
        hashes: Seq<u64>,
        grants: Seq<bool>,
        others: Seq<bool>,
    )
        requires
            forall|i: int| 0 <= i < hashes.len() ==> #[trigger] grants[i] == others[i],
        ensures
            self.stored_all(key, hashes, grants) == self.stored_all(key, hashes, others),
        decreases hashes.len(),
    {
        if hashes.len() > 0 {
            self.lemma_stored_all_grants(key, hashes.drop_last(), grants, others);
            assert(grants[hashes.len() - 1] == others[hashes.len() - 1]);
        }
    }

    /// Only the sweeps for the members at hand matter.
    pub proof fn lemma_swept_all_sweeps(
        self,
        order: Seq<u128>,
        sweeps: Seq<Option<Seq<u64>>>,
        others: Seq<Option<Seq<u64>>>,
    )
        requires
            forall|i: int| 0 <= i < order.len() ==> #[trigger] sweeps[i] == others[i],
        ensures
            self.swept_all(order, sweeps) == self.swept_all(order, others),
        decreases order.len(),
    {
        if order.len() > 0 {
            self.lemma_swept_all_sweeps(order.drop_last(), sweeps, others);
            assert(sweeps[order.len() - 1] == others[order.len() - 1]);
        }
    }
}

} // verus!
