use kv_dc_relay::config::{CkfBuildError, CkfConfig};
use kv_dc_relay::protocol::{
    ExternalSequenceBlockHash, KvCacheEvent, KvCacheEventData, KvCacheEventError,
    KvCacheRemoveData, KvCacheStoreData, KvCacheStoredBlockData, LocalBlockHash, RouterEvent,
    StorageTier, WorkerId, WorkerWithDpRank,
};
use kv_dc_relay::publication::DcCkfDelta;
use kv_dc_relay::state::{retain_first_error, DcCkfState};
use rustc_hash::FxHashSet;
use std::collections::HashMap;

fn stored(worker: WorkerWithDpRank, event_id: u64, hashes: &[u64]) -> RouterEvent {
    RouterEvent::new(
        worker.worker_id,
        KvCacheEvent {
            event_id,
            data: KvCacheEventData::Stored(KvCacheStoreData {
                parent_hash: None,
                start_position: None,
                blocks: hashes
                    .iter()
                    .copied()
                    .map(|hash| KvCacheStoredBlockData {
                        block_hash: ExternalSequenceBlockHash(hash),
                        tokens_hash: LocalBlockHash(hash),
                        mm_extra_info: None,
                    })
                    .collect(),
            }),
            dp_rank: worker.dp_rank,
        },
    )
}

fn removed(worker: WorkerWithDpRank, event_id: u64, hashes: &[u64]) -> RouterEvent {
    RouterEvent::new(
        worker.worker_id,
        KvCacheEvent {
            event_id,
            data: KvCacheEventData::Removed(KvCacheRemoveData {
                block_hashes: hashes
                    .iter()
                    .copied()
                    .map(ExternalSequenceBlockHash)
                    .collect(),
            }),
            dp_rank: worker.dp_rank,
        },
    )
}

fn cleared(worker_id: WorkerId, dp_rank: u32, event_id: u64) -> RouterEvent {
    RouterEvent::new(
        worker_id,
        KvCacheEvent {
            event_id,
            data: KvCacheEventData::Cleared,
            dp_rank,
        },
    )
}

fn follow(lane: &mut Vec<u64>, delta: &DcCkfDelta) {
    if delta.reset() {
        lane.fill(0);
    }
    for image in delta.images() {
        lane[image.bucket()] = image.value();
    }
}

fn sorted_hashes(state: &DcCkfState, worker: WorkerWithDpRank) -> Vec<u64> {
    let mut hashes = state.member_hashes(worker);
    hashes.sort_unstable();
    hashes
}

#[test]
fn shared_ownership_survives_nonfinal_then_final_removal() {
    let first = WorkerWithDpRank::new(1, 0);
    let second = WorkerWithDpRank::new(2, 0);
    let hash = ExternalSequenceBlockHash(11);
    let mut state = DcCkfState::new(CkfConfig::new(32)).unwrap();

    state.apply_event(stored(first, 1, &[hash.0]));
    state.apply_event(stored(second, 1, &[hash.0]));
    assert_eq!(state.stats().aggregation().contribution_count(), 2);
    assert_eq!(state.stats().aggregation().unique_block_count(), 1);

    state.apply_event(removed(first, 2, &[hash.0]));
    assert!(state.contains(hash));
    assert_eq!(state.stats().aggregation().unique_block_count(), 1);

    state.apply_event(removed(second, 2, &[hash.0]));
    assert!(!state.contains(hash));
    assert_eq!(state.stats().aggregation().member_count(), 0);
    assert_eq!(state.stats().aggregation().unique_block_count(), 0);
}

#[test]
fn worker_clear_spans_ranks_and_preserves_another_workers_shared_hash() {
    let first_rank = WorkerWithDpRank::new(1, 0);
    let second_rank = WorkerWithDpRank::new(1, 1);
    let other_worker = WorkerWithDpRank::new(2, 0);
    let shared = ExternalSequenceBlockHash(11);
    let mut state = DcCkfState::new(CkfConfig::new(32)).unwrap();

    state.apply_event(stored(first_rank, 1, &[shared.0]));
    state.apply_event(stored(second_rank, 1, &[12]));
    state.apply_event(stored(other_worker, 1, &[shared.0]));
    state.apply_event(cleared(first_rank.worker_id, 99, 2));

    assert_eq!(state.member_block_count(first_rank), 0);
    assert_eq!(state.member_block_count(second_rank), 0);
    assert_eq!(state.member_block_count(other_worker), 1);
    assert_eq!(state.stats().aggregation().unique_block_count(), 1);
    assert!(state.contains(shared));
}

#[test]
fn non_device_store_is_ignored_but_unknown_device_remove_is_counted() {
    let worker = WorkerWithDpRank::new(1, 0);
    let resident = ExternalSequenceBlockHash(7);
    let mut state = DcCkfState::new(CkfConfig::new(32)).unwrap();
    let mut host_store = stored(worker, 1, &[resident.0]);
    host_store.storage_tier = StorageTier::HostPinned;

    let ignored = state.apply_event(host_store);
    assert!(!ignored.publication_boundary());
    assert_eq!(state.stats().aggregation().contribution_count(), 0);

    state.apply_event(stored(worker, 2, &[resident.0]));
    let unknown = state.apply_event(removed(worker, 3, &[99]));
    assert_eq!(unknown.unknown_removals(), 1);
    assert_eq!(state.stats().aggregation().unknown_removals(), 1);
    assert_eq!(state.stats().aggregation().contribution_count(), 1);
    assert!(state.contains(resident));
}

#[test]
fn capacity_failure_keeps_successful_blocks_and_exact_filter_state_consistent() {
    let worker = WorkerWithDpRank::new(1, 0);
    let mut state = DcCkfState::new(CkfConfig::new(1)).unwrap();
    let hashes: Vec<_> = (1..=32).collect();

    let outcome = state.apply_event(stored(worker, 1, &hashes));
    assert!(matches!(
        outcome.first_error(),
        Some(KvCacheEventError::CapacityExhausted)
    ));
    let member = state.member_hashes(worker);
    assert!(!member.is_empty());
    assert!(member.len() < hashes.len());
    assert_eq!(
        member.len(),
        state.stats().aggregation().unique_block_count()
    );
    assert!(member
        .iter()
        .all(|&hash| state.refcount(ExternalSequenceBlockHash(hash)) == 1));
    assert!(member
        .iter()
        .all(|&hash| state.contains(ExternalSequenceBlockHash(hash))));
    assert_eq!(
        state.stats().aggregation().capacity_failures(),
        (hashes.len() - member.len()) as u64
    );
}

#[test]
fn publication_window_suppresses_store_remove_net_reversion() {
    let worker = WorkerWithDpRank::new(1, 0);
    let mut config = CkfConfig::new(32);
    config.publish_every_n_events = 2;
    let mut state = DcCkfState::new(config).unwrap();

    let first = state.apply_event(stored(worker, 1, &[7]));
    assert!(first.delta().is_none());
    let second = state.apply_event(removed(worker, 2, &[7]));
    assert!(second.delta().is_none());
    assert_eq!(state.stats().publication().sequence(), 0);
    assert_eq!(state.stats().aggregation().unique_block_count(), 0);
}

#[test]
fn failed_transactional_replacement_preserves_previous_rank() {
    let worker = WorkerWithDpRank::new(1, 0);
    let original = ExternalSequenceBlockHash(1);
    let mut state = DcCkfState::new(CkfConfig::new(1)).unwrap();
    state.apply_event(stored(worker, 1, &[original.0]));
    let before_counts = state.member_counts();
    let replacement: FxHashSet<u64> = (100..200).collect();

    assert!(state.replace_rank(worker, replacement).is_err());
    assert_eq!(state.member_counts(), before_counts);
    assert!(state.contains(original));
}

#[test]
fn replacement_diff_includes_the_pending_publication_window() {
    let worker = WorkerWithDpRank::new(1, 0);
    let hash = ExternalSequenceBlockHash(7);
    let mut config = CkfConfig::new(32);
    config.publish_every_n_events = 16;
    let mut state = DcCkfState::new(config).unwrap();
    let (_, base) = state.snapshot().unwrap();

    assert!(state
        .apply_event(stored(worker, 1, &[hash.0]))
        .delta()
        .is_none());
    let delta = state
        .replace_rank(worker, [hash.0].into_iter().collect())
        .unwrap()
        .expect("replacement must publish the pending state");
    let mut reconstructed = base.buckets().to_vec();
    for image in delta.images() {
        reconstructed[image.bucket()] = image.value();
    }
    let (_, current) = state.snapshot().unwrap();

    assert_eq!(reconstructed, current.buckets());
    assert!(state.contains(hash));
}

#[test]
fn replacement_suppresses_a_pending_change_that_returns_to_published_state() {
    let worker = WorkerWithDpRank::new(1, 0);
    let mut config = CkfConfig::new(32);
    config.publish_every_n_events = 16;
    let mut state = DcCkfState::new(config).unwrap();

    assert!(state.apply_event(stored(worker, 1, &[7])).delta().is_none());
    assert!(state
        .replace_rank(worker, FxHashSet::default())
        .unwrap()
        .is_none());
    assert_eq!(state.stats().publication().sequence(), 0);
    assert_eq!(state.stats().aggregation().unique_block_count(), 0);
}

#[test]
fn snapshot_and_absolute_deltas_reconstruct_producer_bytes() {
    let worker = WorkerWithDpRank::new(1, 0);
    let mut state = DcCkfState::new(CkfConfig::new(32)).unwrap();
    let (_, base) = state.snapshot().unwrap();
    let delta = state
        .apply_event(stored(worker, 1, &[1, 2, 3]))
        .into_delta()
        .unwrap();
    let mut reconstructed = base.buckets().to_vec();
    if delta.reset() {
        reconstructed.fill(0);
    }
    for image in delta.images() {
        reconstructed[image.bucket()] = image.value();
    }
    let (_, current) = state.snapshot().unwrap();

    assert_eq!(delta.base_sequence(), base.sequence());
    assert_eq!(delta.sequence(), current.sequence());
    assert_eq!(reconstructed, current.buckets());
}

#[test]
fn replay_churn_requires_logical_and_membership_not_byte_parity() {
    let worker = WorkerWithDpRank::new(1, 0);
    let mut direct = DcCkfState::new(CkfConfig::new(32)).unwrap();
    let mut replay = DcCkfState::new(CkfConfig::new(32)).unwrap();
    direct.apply_event(stored(worker, 1, &[1, 2, 3]));

    replay.apply_event(stored(worker, 1, &[1, 2, 3]));
    replay.apply_event(removed(worker, 2, &[2]));
    replay.apply_event(stored(worker, 3, &[2]));

    assert_eq!(direct.member_counts(), replay.member_counts());
    assert_eq!(sorted_hashes(&direct, worker), sorted_hashes(&replay, worker));
    assert_eq!(
        direct.stats().aggregation().unique_block_count(),
        replay.stats().aggregation().unique_block_count()
    );
    for hash in [1, 2, 3].map(ExternalSequenceBlockHash) {
        assert_eq!(direct.refcount(hash), replay.refcount(hash));
        assert!(direct.contains(hash));
        assert!(replay.contains(hash));
    }
}

#[test]
fn representation_collision_remains_present_until_both_owners_are_removed() {
    let worker = WorkerWithDpRank::new(1, 0);
    let mut state = DcCkfState::new(CkfConfig::new(64)).unwrap();
    let addressing = state.addressing();
    let mut seen = HashMap::new();
    let (first, second) = (1u64..)
        .find_map(|hash| {
            let probe = addressing.prepare(hash);
            let representation = (probe.fingerprint, probe.bucket_a, probe.bucket_b);
            seen.insert(representation, hash)
                .filter(|previous| *previous != hash)
                .map(|previous| (previous, hash))
        })
        .unwrap();

    state.apply_event(stored(worker, 1, &[first, second]));
    state.apply_event(removed(worker, 2, &[first]));
    assert!(state.contains(ExternalSequenceBlockHash(second)));
    state.apply_event(removed(worker, 3, &[second]));
    assert!(!state.contains(ExternalSequenceBlockHash(second)));
}

#[test]
fn unsound_configurations_are_refused_with_their_fault() {
    assert_eq!(
        DcCkfState::new(CkfConfig::new(0)).unwrap_err(),
        CkfBuildError::ZeroExpectedBlocks
    );
    let mut config = CkfConfig::new(1);
    config.publish_every_n_events = 0;
    assert_eq!(
        DcCkfState::new(config).unwrap_err(),
        CkfBuildError::ZeroPublicationInterval
    );
    assert_eq!(
        DcCkfState::new(CkfConfig::new(usize::MAX)).unwrap_err(),
        CkfBuildError::CapacityOverflow
    );
    let mut config = CkfConfig::new(1);
    config.max_kicks = usize::MAX;
    assert_eq!(
        DcCkfState::new(config).unwrap_err(),
        CkfBuildError::AllocationFailed
    );
}

#[test]
fn a_store_without_room_is_refused_and_changes_nothing() {
    let worker = WorkerWithDpRank::new(3, 1);
    let hash = ExternalSequenceBlockHash(5);
    let mut state = DcCkfState::new(CkfConfig::new(32)).unwrap();
    assert_eq!(
        state.store_granted(worker, hash, None),
        Err(KvCacheEventError::CapacityExhausted)
    );
    assert_eq!(state.refcount(hash), 0);
    assert!(!state.contains(hash));
    assert_eq!(
        state.store_granted(worker, hash, Some(FxHashSet::default())),
        Ok(true)
    );
    assert_eq!(state.store_granted(worker, hash, None), Ok(false));
    assert_eq!(state.refcount(hash), 1);
    assert!(state.contains(hash));
}

#[test]
fn counters_follow_a_store_and_a_removal() {
    let worker = WorkerWithDpRank::new(1, 0);
    let mut state = DcCkfState::new(CkfConfig::new(32)).unwrap();
    let outcome = state.apply_event(stored(worker, 1, &[1, 2]));
    assert!(outcome.publication_boundary());
    let stats = state.stats();
    assert_eq!(stats.aggregation().member_count(), 1);
    assert_eq!(stats.aggregation().occupied_slot_count(), 2);
    assert!(stats.aggregation().occupied_bucket_count() >= 1);
    assert!(stats.aggregation().occupied_bucket_count() <= 2);
    assert_eq!(stats.publication().sequence(), 1);
    assert_eq!(stats.publication().pending_events(), 0);
    assert_eq!(stats.publication().physical_touches(), 2);
    assert_eq!(stats.publication().net_reverted_buckets(), 0);
    assert_eq!(
        stats.publication().distinct_touched_buckets(),
        stats.publication().emitted_images()
    );
    assert_eq!(stats.publication().reset_count(), 0);
    assert_eq!(stats.memory().filter_bytes(), 16 * 8);
    assert!(stats.memory().member_set_capacity() >= 2);
    assert!(stats.memory().refcount_capacity() >= 32);
    assert!(stats.memory().insertion_scratch_capacity() >= 257);
    assert!(stats.memory().dirty_tracking_bytes() >= 8 + 16 * 16);

    let outcome = state.apply_event(removed(worker, 2, &[1, 2]));
    let delta = outcome.into_delta().unwrap();
    assert!(delta.reset());
    assert!(delta.images().is_empty());
    assert_eq!(state.stats().publication().reset_count(), 1);
    assert_eq!(state.stats().publication().physical_touches(), 4);
    assert_eq!(state.stats().aggregation().occupied_slot_count(), 0);
}

#[test]
fn format_says_how_to_read_the_lane() {
    let mut state = DcCkfState::new(CkfConfig::new(32)).unwrap();
    let format = state.format();
    assert_eq!(format.format_version(), 1);
    assert_eq!(format.seed(), CkfConfig::new(32).seed);
    assert_eq!(format.bucket_count(), 16);
    assert_eq!(format.fingerprint_bits(), 16);
    assert_eq!(format.slots_per_bucket(), 4);
    let (delta, snapshot) = state.snapshot().unwrap();
    assert!(delta.is_none());
    assert_eq!(snapshot.format(), format);
    assert_eq!(snapshot.sequence(), 0);
    assert_eq!(snapshot.buckets(), vec![0u64; 16]);
}

#[test]
fn member_counts_are_ordered_by_worker_and_then_by_rank() {
    let members = [(7, 1), (2, 9), (7, 0), (2, 3), (11, 4_000_000_000)];
    let mut state = DcCkfState::new(CkfConfig::new(64)).unwrap();
    for (i, &(worker_id, dp_rank)) in members.iter().enumerate() {
        let hashes: Vec<u64> = (0..=i as u64).collect();
        state.apply_event(stored(WorkerWithDpRank::new(worker_id, dp_rank), 1, &hashes));
    }
    let counts: Vec<(u64, u32, usize)> = state
        .member_counts()
        .into_iter()
        .map(|(worker, blocks)| (worker.worker_id, worker.dp_rank, blocks))
        .collect();
    assert_eq!(
        counts,
        vec![(2, 3, 4), (2, 9, 2), (7, 0, 3), (7, 1, 1), (11, 4_000_000_000, 5)]
    );
}

#[test]
fn removing_a_rank_keeps_the_others_and_removing_a_worker_takes_all_its_ranks() {
    let first = WorkerWithDpRank::new(1, 0);
    let second = WorkerWithDpRank::new(1, 1);
    let third = WorkerWithDpRank::new(2, 0);
    let mut state = DcCkfState::new(CkfConfig::new(32)).unwrap();
    state.apply_event(stored(first, 1, &[1, 2]));
    state.apply_event(stored(second, 1, &[2, 3]));
    state.apply_event(stored(third, 1, &[3, 4]));
    let (_, base) = state.snapshot().unwrap();
    let mut lane = base.buckets().to_vec();

    let delta = state.remove_rank(first).unwrap().unwrap();
    assert_eq!(delta.base_sequence(), base.sequence());
    follow(&mut lane, &delta);
    assert_eq!(state.member_counts(), vec![(second, 2), (third, 2)]);
    assert_eq!(state.refcount(ExternalSequenceBlockHash(1)), 0);
    assert_eq!(state.refcount(ExternalSequenceBlockHash(2)), 1);
    assert_eq!(state.refcount(ExternalSequenceBlockHash(3)), 2);
    assert!(state.remove_rank(first).unwrap().is_none());

    let delta = state.remove_worker(1).unwrap().unwrap();
    follow(&mut lane, &delta);
    assert_eq!(state.member_counts(), vec![(third, 2)]);
    assert!(state.contains(ExternalSequenceBlockHash(3)));
    assert!(state.remove_worker(1).unwrap().is_none());
    let (_, current) = state.snapshot().unwrap();
    assert_eq!(lane, current.buckets());
}

#[test]
fn a_reader_follows_a_long_history_byte_for_byte() {
    let mut config = CkfConfig::new(64);
    config.publish_every_n_events = 3;
    let mut state = DcCkfState::new(config).unwrap();
    let (_, base) = state.snapshot().unwrap();
    let mut lane = base.buckets().to_vec();
    let mut sequence = base.sequence();
    for step in 0..200u64 {
        let worker = WorkerWithDpRank::new(step % 3, (step % 2) as u32);
        let hashes = [step % 41, (step * 7) % 53];
        let event = match step % 5 {
            0 | 1 | 2 => stored(worker, step, &hashes),
            3 => removed(worker, step, &hashes),
            _ => cleared(step % 3, 0, step),
        };
        let outcome = state.apply_event(event);
        assert!(outcome.first_error().is_none());
        if let Some(delta) = outcome.into_delta() {
            assert_eq!(delta.base_sequence(), sequence);
            assert_eq!(delta.sequence(), sequence + 1);
            sequence = delta.sequence();
            follow(&mut lane, &delta);
        }
        let aggregation = state.stats().aggregation();
        assert_eq!(
            aggregation.occupied_slot_count(),
            aggregation.unique_block_count()
        );
    }
    if let Some(delta) = state.flush() {
        follow(&mut lane, &delta);
    }
    assert!(state.flush().is_none());
    let (_, current) = state.snapshot().unwrap();
    assert_eq!(lane, current.buckets());
}

#[test]
fn replaying_a_history_converges_to_the_same_owners_and_counts() {
    let first = WorkerWithDpRank::new(1, 0);
    let second = WorkerWithDpRank::new(2, 0);
    let history = vec![
        stored(first, 1, &[1, 2, 3]),
        stored(second, 1, &[3, 4]),
        removed(first, 2, &[2]),
        cleared(2, 0, 2),
        stored(second, 3, &[5]),
    ];
    let mut direct = DcCkfState::new(CkfConfig::new(32)).unwrap();
    let mut replayed = DcCkfState::new(CkfConfig::new(32)).unwrap();
    for event in &history {
        direct.apply_event(event.clone());
    }
    for event in history[..3].iter().chain(history.iter()) {
        replayed.apply_event(event.clone());
    }
    assert_eq!(direct.member_counts(), replayed.member_counts());
    for worker in [first, second] {
        assert_eq!(
            sorted_hashes(&direct, worker),
            sorted_hashes(&replayed, worker)
        );
    }
    for hash in (0..10).map(ExternalSequenceBlockHash) {
        assert_eq!(direct.refcount(hash), replayed.refcount(hash));
    }
    assert_eq!(sorted_hashes(&direct, first), vec![1, 3]);
    assert_eq!(sorted_hashes(&direct, second), vec![5]);
}

#[test]
fn replacement_keeps_what_others_own() {
    let first = WorkerWithDpRank::new(1, 0);
    let second = WorkerWithDpRank::new(2, 0);
    let mut state = DcCkfState::new(CkfConfig::new(32)).unwrap();
    state.apply_event(stored(first, 1, &[1, 2]));
    state.apply_event(stored(second, 1, &[2, 3]));
    let (_, base) = state.snapshot().unwrap();
    let mut lane = base.buckets().to_vec();
    let delta = state
        .replace_rank(first, [3, 4].into_iter().collect())
        .unwrap()
        .unwrap();
    follow(&mut lane, &delta);
    assert_eq!(sorted_hashes(&state, first), vec![3, 4]);
    assert_eq!(sorted_hashes(&state, second), vec![2, 3]);
    assert_eq!(state.refcount(ExternalSequenceBlockHash(1)), 0);
    assert_eq!(state.refcount(ExternalSequenceBlockHash(2)), 1);
    assert_eq!(state.refcount(ExternalSequenceBlockHash(3)), 2);
    let (none, current) = state.snapshot().unwrap();
    assert!(none.is_none());
    assert_eq!(lane, current.buckets());
}

#[test]
fn a_clear_of_another_tier_still_clears() {
    let worker = WorkerWithDpRank::new(1, 0);
    let mut state = DcCkfState::new(CkfConfig::new(32)).unwrap();
    state.apply_event(stored(worker, 1, &[1]));
    let mut event = cleared(1, 0, 2);
    event.storage_tier = StorageTier::Disk;
    let outcome = state.apply_event(event);
    assert!(outcome.publication_boundary());
    assert!(outcome.delta().unwrap().reset());
    assert_eq!(state.member_block_count(worker), 0);
}

#[test]
fn the_first_error_is_kept() {
    let mut slot = None;
    retain_first_error(&mut slot, KvCacheEventError::CapacityExhausted);
    retain_first_error(&mut slot, KvCacheEventError::IndexerInvariantViolation);
    assert_eq!(slot, Some(KvCacheEventError::CapacityExhausted));
}

#[test]
fn replaying_from_the_middle_converges_too() {
    let worker = WorkerWithDpRank::new(1, 0);
    let history = vec![
        stored(worker, 1, &[1, 2]),
        removed(worker, 2, &[1]),
        stored(worker, 3, &[3]),
        removed(worker, 4, &[2]),
    ];
    let mut direct = DcCkfState::new(CkfConfig::new(32)).unwrap();
    let mut replayed = DcCkfState::new(CkfConfig::new(32)).unwrap();
    for event in &history {
        direct.apply_event(event.clone());
    }
    for event in history.iter().chain(history[1..].iter()) {
        replayed.apply_event(event.clone());
    }
    assert_eq!(sorted_hashes(&direct, worker), vec![3]);
    assert_eq!(sorted_hashes(&replayed, worker), vec![3]);
    for hash in (1..=3).map(ExternalSequenceBlockHash) {
        assert_eq!(direct.refcount(hash), replayed.refcount(hash));
    }
}

#[test]
fn removal_undoes_a_store() {
    let first = WorkerWithDpRank::new(1, 0);
    let second = WorkerWithDpRank::new(2, 0);
    let mut state = DcCkfState::new(CkfConfig::new(32)).unwrap();
    state.apply_event(stored(first, 1, &[1]));
    let before = state.member_counts();
    for hash in [1, 2] {
        state.apply_event(stored(second, 1, &[hash]));
        assert_eq!(state.member_block_count(second), 1);
        assert_eq!(
            state.apply_event(removed(second, 2, &[hash])).unknown_removals(),
            0
        );
        assert_eq!(state.member_counts(), before);
        assert_eq!(state.refcount(ExternalSequenceBlockHash(1)), 1);
        assert_eq!(state.refcount(ExternalSequenceBlockHash(2)), 0);
        assert_eq!(
            state.apply_event(removed(second, 3, &[hash])).unknown_removals(),
            1
        );
    }
}

#[test]
fn publication_counters_balance_and_counts_agree() {
    let worker = WorkerWithDpRank::new(1, 0);
    let other = WorkerWithDpRank::new(1, 1);
    let mut config = CkfConfig::new(32);
    config.publish_every_n_events = 2;
    let mut state = DcCkfState::new(config).unwrap();
    state.apply_event(stored(other, 1, &[50, 51]));
    for step in 0..20u64 {
        let event = match step % 3 {
            0 => stored(worker, step, &[step % 7, step]),
            1 => removed(worker, step, &[step - 1]),
            _ => stored(worker, step, &[50]),
        };
        state.apply_event(event);
        let stats = state.stats();
        let publication = stats.publication();
        assert_eq!(publication.reset_count(), 0);
        assert_eq!(
            publication.emitted_images() + publication.net_reverted_buckets(),
            publication.distinct_touched_buckets()
        );
        let counts = state.member_counts();
        let aggregation = stats.aggregation();
        assert_eq!(aggregation.member_count(), counts.len());
        assert_eq!(
            aggregation.contribution_count(),
            counts.iter().map(|entry| entry.1).sum::<usize>()
        );
        let owned: FxHashSet<u64> = [worker, other]
            .into_iter()
            .flat_map(|member| state.member_hashes(member))
            .collect();
        assert_eq!(aggregation.unique_block_count(), owned.len());
        assert!(aggregation.occupied_bucket_count() <= aggregation.occupied_slot_count());
        assert!(aggregation.occupied_slot_count() <= 4 * aggregation.occupied_bucket_count());
        assert!(stats.memory().refcount_capacity() >= aggregation.unique_block_count());
        assert!(stats.memory().member_set_capacity() >= aggregation.contribution_count());
    }
    state.flush();
    state.remove_worker(1).unwrap();
    let publication = state.stats().publication();
    assert_eq!(publication.reset_count(), 1);
    assert!(
        publication.emitted_images() + publication.net_reverted_buckets()
            < publication.distinct_touched_buckets()
    );
}
