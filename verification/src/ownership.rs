//! Who owns which blocks, apart from any filter.
use crate::protocol::{KvCacheEventData, RouterEvent};
use vstd::prelude::*;
#[allow(unused_imports)]
use crate::protocol::{member_worker, StorageTier, MEMBER_KEY_END};

verus! {

/// Which blocks each member owns.
pub type Members = Map<u128, Set<u64>>;

/// The members that own a block.
pub open spec fn owners(members: Members, hash: u64) -> Set<u128> {
    members.dom().filter(|key: u128| members[key].contains(hash))
}

/// Whether a member owns a block.
pub open spec fn owns(members: Members, key: u128, hash: u64) -> bool {
    members.contains_key(key) && members[key].contains(hash)
}

/// The members after one of them took a block.
pub open spec fn with_block(members: Members, key: u128, hash: u64) -> Members {
    if members.contains_key(key) {
        members.insert(key, members[key].insert(hash))
    } else {
        members.insert(key, Set::empty().insert(hash))
    }
}

/// The members after one of them gave up a block, if it owned it. A member
/// without blocks is no member.
pub open spec fn without_block(members: Members, key: u128, hash: u64) -> Members {
    if !owns(members, key, hash) {
        members
    } else if members[key].remove(hash).is_empty() {
        members.remove(key)
    } else {
        members.insert(key, members[key].remove(hash))
    }
}

/// The members after one of them took blocks one after the other.
pub open spec fn with_blocks(members: Members, key: u128, hashes: Seq<u64>) -> Members
    decreases hashes.len(),
{
    if hashes.len() == 0 {
        members
    } else {
        with_block(with_blocks(members, key, hashes.drop_last()), key, hashes.last())
    }
}

/// The members after one of them gave up blocks one after the other.
pub open spec fn without_blocks(members: Members, key: u128, hashes: Seq<u64>) -> Members
    decreases hashes.len(),
{
    if hashes.len() == 0 {
        members
    } else {
        without_block(without_blocks(members, key, hashes.drop_last()), key, hashes.last())
    }
}

/// The members of one worker.
pub open spec fn members_of(members: Members, worker_id: u64) -> Set<u128> {
    members.dom().filter(|key: u128| member_worker(key) == worker_id)
}

/// The members without those of one worker.
pub open spec fn without_worker(members: Members, worker_id: u64) -> Members {
    members.remove_keys(members_of(members, worker_id))
}

/// The members after one of them traded everything it owned for other blocks.
pub open spec fn with_replaced(members: Members, key: u128, hashes: Set<u64>) -> Members {
    if hashes.is_empty() {
        members.remove(key)
    } else {
        members.insert(key, hashes)
    }
}

/// Members have keys of members, own finitely many blocks, and own at least
/// one.
pub open spec fn members_wf(members: Members) -> bool {
    &&& members.dom().finite()
    &&& forall|key: u128| #[trigger]
        members.contains_key(key) ==> key < MEMBER_KEY_END && members[key].finite()
            && !members[key].is_empty()
}

/// Whether an event has no say in ownership: only the device tier counts,
/// except that clearing a worker clears every tier.
pub open spec fn is_ignored(event: RouterEvent) -> bool {
    event.storage_tier != StorageTier::Device && !(event.event.data is Cleared)
}

/// The members after an event that nothing prevented.
pub open spec fn members_after(members: Members, event: RouterEvent) -> Members {
    let key = event.member().spec_key();
    if is_ignored(event) {
        members
    } else {
        match event.event.data {
            KvCacheEventData::Stored(store) => with_blocks(members, key, store.hashes()),
            KvCacheEventData::Removed(remove) => without_blocks(members, key, remove.hashes()),
            KvCacheEventData::Cleared => without_worker(members, event.worker_id),
        }
    }
}

/// The members after a history of events that nothing prevented.
pub open spec fn members_after_all(members: Members, events: Seq<RouterEvent>) -> Members
    decreases events.len(),
{
    if events.len() == 0 {
        members
    } else {
        members_after(members_after_all(members, events.drop_last()), events.last())
    }
}

/// What an event decides about a member and a block: owned, not owned, or
/// nothing.
pub open spec fn verdict(event: RouterEvent, key: u128, hash: u64) -> Option<bool> {
    if is_ignored(event) {
        None
    } else {
        match event.event.data {
            KvCacheEventData::Stored(store) => if key == event.member().spec_key()
                && store.hashes().contains(hash) {
                Some(true)
            } else {
                None
            },
            KvCacheEventData::Removed(remove) => if key == event.member().spec_key()
                && remove.hashes().contains(hash) {
                Some(false)
            } else {
                None
            },
            KvCacheEventData::Cleared => if member_worker(key) == event.worker_id {
                Some(false)
            } else {
                None
            },
        }
    }
}

/// What the last event of a history that decides about a member and a block
/// says.
pub open spec fn last_verdict(events: Seq<RouterEvent>, key: u128, hash: u64) -> Option<bool>
    decreases events.len(),
{
    if events.len() == 0 {
        None
    } else if verdict(events.last(), key, hash) is Some {
        verdict(events.last(), key, hash)
    } else {
        last_verdict(events.drop_last(), key, hash)
    }
}

/// Members that own the same blocks are the same.
pub proof fn lemma_same_blocks(a: Members, b: Members)
    requires
        members_wf(a),
        members_wf(b),
        forall|key: u128, hash: u64| #[trigger] owns(a, key, hash) == owns(b, key, hash),
    ensures
        a == b,
{
    assert forall|key: u128| #[trigger] a.contains_key(key) == b.contains_key(key) by {
        if a.contains_key(key) {
            let hash = a[key].choose();
            assert(!(a[key] =~= Set::empty()));
            assert(owns(a, key, hash) == owns(b, key, hash));
        }
        if b.contains_key(key) {
            let hash = b[key].choose();
            assert(!(b[key] =~= Set::empty()));
            assert(owns(a, key, hash) == owns(b, key, hash));
        }
    }
    assert forall|key: u128| #[trigger] a.contains_key(key) implies a[key] == b[key] by {
        assert forall|hash: u64| a[key].contains(hash) == b[key].contains(hash) by {
            assert(owns(a, key, hash) == owns(b, key, hash));
        }
        assert(a[key] =~= b[key]);
    }
    assert(a =~= b);
}

/// Taking a block changes the ownership of that block by that member alone.
pub proof fn lemma_with_block(members: Members, key: u128, hash: u64)
    requires
        members_wf(members),
        key < MEMBER_KEY_END,
    ensures
        members_wf(with_block(members, key, hash)),
        forall|k: u128, h: u64| #[trigger]
            owns(with_block(members, key, hash), k, h) == (owns(members, k, h) || (k == key && h
                == hash)),
        owners(with_block(members, key, hash), hash) == owners(members, hash).insert(key),
        forall|other: u64|
            other != hash ==> #[trigger] owners(with_block(members, key, hash), other) == owners(
                members,
                other,
            ),
        owns(members, key, hash) ==> with_block(members, key, hash) == members,
{
    let after = with_block(members, key, hash);
    assert(after[key].contains(hash));
    assert(owners(after, hash) =~= owners(members, hash).insert(key));
    assert forall|other: u64| other != hash implies #[trigger] owners(after, other) == owners(
        members,
        other,
    ) by {
        assert(owners(after, other) =~= owners(members, other));
    }
    if owns(members, key, hash) {
        assert(members[key].insert(hash) =~= members[key]);
        assert(after =~= members);
    }
}

/// Giving up a block changes the ownership of that block by that member alone.
pub proof fn lemma_without_block(members: Members, key: u128, hash: u64)
    requires
        members_wf(members),
    ensures
        members_wf(without_block(members, key, hash)),
        forall|k: u128, h: u64| #[trigger]
            owns(without_block(members, key, hash), k, h) == (owns(members, k, h) && !(k == key && h
                == hash)),
        owners(without_block(members, key, hash), hash) == owners(members, hash).remove(key),
        owns(members, key, hash) == owners(members, hash).contains(key),
        forall|other: u64|
            other != hash ==> #[trigger] owners(without_block(members, key, hash), other) == owners(
                members,
                other,
            ),
{
    let after = without_block(members, key, hash);
    if owns(members, key, hash) {
        assert forall|other: u64| other != hash && members[key].contains(
            other,
        ) implies !members[key].remove(hash).is_empty() by {
            assert(members[key].remove(hash).contains(other));
        }
    }
    assert(owners(after, hash) =~= owners(members, hash).remove(key));
    assert forall|other: u64| other != hash implies #[trigger] owners(after, other) == owners(
        members,
        other,
    ) by {
        assert(owners(after, other) =~= owners(members, other));
    }
}

/// Taking blocks changes the ownership of those blocks by that member alone.
pub proof fn lemma_with_blocks(members: Members, key: u128, hashes: Seq<u64>)
    requires
        members_wf(members),
        key < MEMBER_KEY_END,
    ensures
        members_wf(with_blocks(members, key, hashes)),
        forall|k: u128, h: u64| #[trigger]
            owns(with_blocks(members, key, hashes), k, h) == (owns(members, k, h) || (k == key
                && hashes.contains(h))),
    decreases hashes.len(),
{
    if hashes.len() > 0 {
        let rest = hashes.drop_last();
        lemma_with_blocks(members, key, rest);
        lemma_with_block(with_blocks(members, key, rest), key, hashes.last());
        assert(hashes =~= rest.push(hashes.last()));
        assert forall|h: u64| hashes.contains(h) == (rest.contains(h) || h == hashes.last()) by {
            vstd::seq_lib::lemma_seq_contains_after_push(rest, hashes.last(), h);
        }
    }
}

/// Giving up blocks changes the ownership of those blocks by that member
/// alone.
pub proof fn lemma_without_blocks(members: Members, key: u128, hashes: Seq<u64>)
    requires
        members_wf(members),
    ensures
        members_wf(without_blocks(members, key, hashes)),
        forall|k: u128, h: u64| #[trigger]
            owns(without_blocks(members, key, hashes), k, h) == (owns(members, k, h) && !(k == key
                && hashes.contains(h))),
    decreases hashes.len(),
{
    if hashes.len() > 0 {
        let rest = hashes.drop_last();
        lemma_without_blocks(members, key, rest);
        lemma_without_block(without_blocks(members, key, rest), key, hashes.last());
        assert(hashes =~= rest.push(hashes.last()));
        assert forall|h: u64| hashes.contains(h) == (rest.contains(h) || h == hashes.last()) by {
            vstd::seq_lib::lemma_seq_contains_after_push(rest, hashes.last(), h);
        }
    }
}

/// A member that gives up all its blocks is gone.
pub proof fn lemma_without_all_blocks(members: Members, key: u128, hashes: Seq<u64>)
    requires
        members_wf(members),
        members.contains_key(key),
        hashes.to_set() == members[key],
    ensures
        without_blocks(members, key, hashes) == members.remove(key),
{
    lemma_without_blocks(members, key, hashes);
    assert forall|k: u128, h: u64| #[trigger]
        owns(without_blocks(members, key, hashes), k, h) == owns(members.remove(key), k, h) by {
        assert(hashes.to_set().contains(h) == hashes.contains(h));
    }
    assert(members_wf(members.remove(key)));
    lemma_same_blocks(without_blocks(members, key, hashes), members.remove(key));
}

/// Clearing a worker changes the ownership of its members alone.
pub proof fn lemma_without_worker(members: Members, worker_id: u64)
    requires
        members_wf(members),
    ensures
        members_wf(without_worker(members, worker_id)),
        forall|k: u128, h: u64| #[trigger]
            owns(without_worker(members, worker_id), k, h) == (owns(members, k, h)
                && member_worker(k) != worker_id),
{
    let after = without_worker(members, worker_id);
    assert(after.dom() =~= members.dom().difference(members_of(members, worker_id)));
    assert forall|key: u128| #[trigger] after.contains_key(key) implies members.contains_key(key)
        && after[key] == members[key] by {}
}

/// Replacing what a member owns changes the ownership of that member alone.
pub proof fn lemma_with_replaced(members: Members, key: u128, hashes: Set<u64>)
    requires
        members_wf(members),
        key < MEMBER_KEY_END,
        hashes.finite(),
    ensures
        members_wf(with_replaced(members, key, hashes)),
        forall|k: u128, h: u64| #[trigger]
            owns(with_replaced(members, key, hashes), k, h) == (if k == key {
                hashes.contains(h)
            } else {
                owns(members, k, h)
            }),
{
    if hashes.is_empty() {
        assert forall|h: u64| !hashes.contains(h) by {}
    }
}

/// An event changes what its verdict says and nothing else.
pub proof fn lemma_members_after(members: Members, event: RouterEvent)
    requires
        members_wf(members),
    ensures
        members_wf(members_after(members, event)),
        forall|k: u128, h: u64| #[trigger]
            owns(members_after(members, event), k, h) == (match verdict(event, k, h) {
                Some(decided) => decided,
                None => owns(members, k, h),
            }),
{
    let key = event.member().spec_key();
    crate::protocol::law_member_keys_order_members(event.member(), event.member());
    if !is_ignored(event) {
        match event.event.data {
            KvCacheEventData::Stored(store) => {
                lemma_with_blocks(members, key, store.hashes());
            },
            KvCacheEventData::Removed(remove) => {
                lemma_without_blocks(members, key, remove.hashes());
            },
            KvCacheEventData::Cleared => {
                lemma_without_worker(members, event.worker_id);
            },
        }
    }
}

/// A history changes what its last verdicts say and nothing else.
pub proof fn lemma_members_after_all(members: Members, events: Seq<RouterEvent>)
    requires
        members_wf(members),
    ensures
        members_wf(members_after_all(members, events)),
        forall|k: u128, h: u64| #[trigger]
            owns(members_after_all(members, events), k, h) == (match last_verdict(events, k, h) {
                Some(decided) => decided,
                None => owns(members, k, h),
            }),
    decreases events.len(),
{
    if events.len() > 0 {
        lemma_members_after_all(members, events.drop_last());
        lemma_members_after(members_after_all(members, events.drop_last()), events.last());
    }
}

/// A prefix of a history decides nothing that the history does not decide.
pub proof fn lemma_prefix_decides_no_more(
    events: Seq<RouterEvent>,
    count: int,
    key: u128,
    hash: u64,
)
    requires
        0 <= count <= events.len(),
    ensures
        last_verdict(events, key, hash) is None ==> last_verdict(events.take(count), key, hash)
            is None,
    decreases events.len(),
{
    if count == events.len() {
        assert(events.take(count) =~= events);
    } else {
        assert(events.take(count) =~= events.drop_last().take(count));
        lemma_prefix_decides_no_more(events.drop_last(), count, key, hash);
    }
}

/// A history decides what its second part decides, and for the rest what its
/// first part decides.
pub proof fn lemma_split_decides(events: Seq<RouterEvent>, at: int, key: u128, hash: u64)
    requires
        0 <= at <= events.len(),
    ensures
        last_verdict(events, key, hash) == (if last_verdict(events.skip(at), key, hash) is Some {
            last_verdict(events.skip(at), key, hash)
        } else {
            last_verdict(events.take(at), key, hash)
        }),
    decreases events.len() - at,
{
    let late = events.skip(at);
    if at == events.len() {
        assert(events.take(at) =~= events);
    } else {
        assert(late.last() == events.last());
        assert(late.drop_last() =~= events.drop_last().skip(at));
        assert(events.take(at) =~= events.drop_last().take(at));
        lemma_split_decides(events.drop_last(), at, key, hash);
    }
}

/// Whether a block is owned after a history, given whether it was before.
pub open spec fn owned_after(events: Seq<RouterEvent>, key: u128, hash: u64, before: bool) -> bool {
    match last_verdict(events, key, hash) {
        Some(owned) => owned,
        None => before,
    }
}

/// Seeing a first part of a history and then all of it from anywhere in that
/// part on is seeing it once.
pub proof fn lemma_replay_decides_the_same(
    events: Seq<RouterEvent>,
    seen: int,
    from: int,
    key: u128,
    hash: u64,
    before: bool,
)
    requires
        0 <= from <= seen <= events.len(),
    ensures
        owned_after(
            events.skip(from),
            key,
            hash,
            owned_after(events.take(seen), key, hash, before),
        ) == owned_after(events, key, hash, before),
{
    let first = events.take(seen);
    let again = events.skip(from);
    lemma_split_decides(events, from, key, hash);
    lemma_split_decides(first, from, key, hash);
    assert(first.take(from) =~= events.take(from));
    assert(first.skip(from) =~= again.take(seen - from));
    lemma_prefix_decides_no_more(again, seen - from, key, hash);
}

/// Every owned block, once per owner.
pub open spec fn contributions(members: Members) -> Set<(u128, u64)> {
    Set::new(|pair: (u128, u64)| owns(members, pair.0, pair.1))
}

/// The contributions of some members.
pub open spec fn contributions_of(members: Members, keys: Seq<u128>) -> Set<(u128, u64)> {
    Set::new(|pair: (u128, u64)| keys.contains(pair.0) && owns(members, pair.0, pair.1))
}

/// No members contribute nothing.
pub proof fn lemma_no_contributions(members: Members)
    ensures
        contributions_of(members, Seq::empty()).finite(),
        contributions_of(members, Seq::empty()).len() == 0,
{
    assert(contributions_of(members, Seq::empty()) =~= Set::empty());
}

/// One more member contributes as many blocks as it owns.
pub proof fn lemma_contributions_of_one_more(members: Members, keys: Seq<u128>, key: u128)
    requires
        members_wf(members),
        members.contains_key(key),
        !keys.contains(key),
        contributions_of(members, keys).finite(),
    ensures
        contributions_of(members, keys.push(key)).finite(),
        contributions_of(members, keys.push(key)).len() == contributions_of(members, keys).len()
            + members[key].len(),
{
    let before = contributions_of(members, keys);
    let pair_up = |hash: u64| (key, hash);
    let added = members[key].map(pair_up);
    assert forall|pair: (u128, u64)| added.contains(pair) == (pair.0 == key
        && members[key].contains(pair.1)) by {
        if pair.0 == key && members[key].contains(pair.1) {
            assert(pair_up(pair.1) == pair);
        }
    }
    members[key].lemma_map_finite(pair_up);
    vstd::set_lib::lemma_map_size(members[key], added, pair_up);
    vstd::set_lib::lemma_set_disjoint_lens(before, added);
    assert forall|pair: (u128, u64)| contributions_of(members, keys.push(key)).contains(pair)
        == before.union(added).contains(pair) by {
        vstd::seq_lib::lemma_seq_contains_after_push(keys, key, pair.0);
    }
    assert(contributions_of(members, keys.push(key)) =~= before.union(added));
}

/// All members contribute everything.
pub proof fn lemma_contributions_of_all(members: Members, keys: Seq<u128>)
    requires
        keys.to_set() == members.dom(),
    ensures
        contributions_of(members, keys) == contributions(members),
{
    assert forall|pair: (u128, u64)| contributions_of(members, keys).contains(pair)
        == contributions(members).contains(pair) by {
        assert(keys.to_set().contains(pair.0) == keys.contains(pair.0));
    }
    assert(contributions_of(members, keys) =~= contributions(members));
}

} // verus!
