use kv_dc_relay::addressing::{mix64, CkfAddressing};
use kv_dc_relay::bucket::{OwnedPackedCkfLane, PackedBucket};
use kv_dc_relay::config::{bucket_count, validate_config, CkfBuildError, CkfConfig};
use kv_dc_relay::mutator::{lane_rng_seed, CuckooInsertionScratch, CuckooMutator};
use kv_dc_relay::protocol::WorkerWithDpRank;
use kv_dc_relay::window::{tracking_byte_len, DirtyWindow, PublicationWindow};

#[test]
fn lanes_are_the_least_power_of_two_for_three_quarters_load() {
    assert_eq!(bucket_count(1), Ok(2));
    assert_eq!(bucket_count(6), Ok(2));
    assert_eq!(bucket_count(7), Ok(4));
    assert_eq!(bucket_count(32), Ok(16));
    assert_eq!(bucket_count(64), Ok(32));
    assert_eq!(bucket_count(1_048_576), Ok(524_288));
    assert_eq!(bucket_count(usize::MAX), Err(CkfBuildError::CapacityOverflow));
}

#[test]
fn configurations_are_validated() {
    let mut config = CkfConfig::new(4);
    assert_eq!(config.max_kicks, 256);
    assert_eq!(validate_config(config), Ok(()));
    config.publish_every_n_events = 0;
    assert_eq!(
        validate_config(config),
        Err(CkfBuildError::ZeroPublicationInterval)
    );
    config.expected_blocks_per_dc = 0;
    assert_eq!(
        validate_config(config),
        Err(CkfBuildError::ZeroExpectedBlocks)
    );
}

#[test]
fn words_are_mixed_by_fixed_arithmetic() {
    assert_eq!(mix64(0), 0);
    assert_eq!(mix64(1), 0x5692_161d_100b_05e5);
    assert_ne!(lane_rng_seed(1, 0), lane_rng_seed(1, 1));
}

#[test]
fn the_two_buckets_of_a_block_lead_to_each_other() {
    let addressing = CkfAddressing::new(16, 99);
    for hash in 0..1000 {
        let probe = addressing.prepare(hash);
        assert_ne!(probe.fingerprint, 0);
        assert_ne!(probe.bucket_a, probe.bucket_b);
        assert!(probe.bucket_a < 16 && probe.bucket_b < 16);
        assert_eq!(
            addressing.alternate(probe.bucket_a, probe.fingerprint),
            probe.bucket_b
        );
        assert_eq!(
            addressing.alternate(probe.bucket_b, probe.fingerprint),
            probe.bucket_a
        );
    }
}

#[test]
fn slots_are_packed_sixteen_bits_each() {
    let bucket = PackedBucket(0).with(0, 0x1111).with(2, 0x3333).with(3, 0x4444);
    assert_eq!(bucket.0, 0x4444_3333_0000_1111);
    assert_eq!(bucket.slot(2), 0x3333);
    assert_eq!(bucket.find(0x4444), Some(3));
    assert_eq!(bucket.find(0), Some(1));
    assert_eq!(bucket.find(0x2222), None);
    assert!(bucket.contains(0x1111));
    assert_eq!(bucket.occupied(), 3);
    assert_eq!(bucket.with(2, 0).occupied(), 2);
}

#[test]
fn an_insertion_that_finds_no_place_puts_everything_back() {
    let addressing = CkfAddressing::new(2, 7);
    let mutator = CuckooMutator::new(addressing, 8);
    let mut lane = OwnedPackedCkfLane::new(2).unwrap();
    let mut scratch = CuckooInsertionScratch::new(8).unwrap();
    let mut rng = lane_rng_seed(7, 0);
    let mut held = Vec::new();
    for hash in 0..8 {
        assert!(mutator.insert_with_originals(&mut lane, hash, &mut rng, &mut scratch));
        assert!(scratch.len() >= 1);
        held.push(hash);
    }
    let before = (lane.load_bucket(0), lane.load_bucket(1));
    assert!(!mutator.insert_with_originals(&mut lane, 100, &mut rng, &mut scratch));
    assert_eq!(scratch.len(), 0);
    assert_eq!((lane.load_bucket(0), lane.load_bucket(1)), before);
    for hash in held {
        let write = mutator.remove_with_original(&mut lane, hash).unwrap();
        assert!(write.0 < 2);
    }
    assert_eq!(lane.load_bucket(0), PackedBucket(0));
    assert_eq!(lane.load_bucket(1), PackedBucket(0));
    assert_eq!(mutator.remove_with_original(&mut lane, 3), None);
    assert_eq!(lane.byte_len(), 16);
    assert_eq!(lane.len(), 2);
}

#[test]
fn a_window_keeps_the_first_word_of_each_bucket() {
    let mut window = DirtyWindow::new(130).unwrap();
    window.mark(129, PackedBucket(5));
    window.mark(3, PackedBucket(6));
    window.mark(129, PackedBucket(7));
    assert_eq!(window.len(), 2);
    assert!(window.contains(129) && window.contains(3));
    assert!(!window.contains(65));
    assert_eq!(window.touched_with_originals(0), (129, PackedBucket(5)));
    assert_eq!(window.touched_with_originals(1), (3, PackedBucket(6)));
    assert!(window.byte_len() >= 3 * 8 + 130 * 16);
    window.clear();
    assert_eq!(window.len(), 0);
    assert!(!window.contains(129) && !window.contains(3));
}

#[test]
fn a_new_publication_window_has_nothing_pending() {
    let window = PublicationWindow::new(4).unwrap();
    assert_eq!(window.sequence, 0);
    assert_eq!(window.pending_events, 0);
    assert!(!window.published_nonempty);
}

#[test]
fn tracking_bytes_saturate() {
    let index = std::mem::size_of::<usize>();
    assert_eq!(tracking_byte_len(3, 10, 20), 24 + 10 * index + 160);
    assert_eq!(tracking_byte_len(usize::MAX, 1, 1), usize::MAX);
}

#[test]
fn member_keys_order_by_worker_and_then_by_rank() {
    let low = WorkerWithDpRank::new(1, u32::MAX);
    let high = WorkerWithDpRank::new(2, 0);
    assert_eq!(low.key(), 0x1_ffff_ffff);
    assert_eq!(high.key(), 0x2_0000_0000);
    assert_eq!(WorkerWithDpRank::from_key(low.key()), low);
    assert_eq!(
        WorkerWithDpRank::new(u64::MAX, u32::MAX).key() + 1,
        1u128 << 96
    );
}

#[test]
fn windows_and_lanes_are_made_in_granted_memory() {
    let window = DirtyWindow::over(70, Vec::new(), Vec::new(), Vec::new());
    assert_eq!(window.len(), 0);
    assert!((0..70).all(|bucket| !window.contains(bucket)));
    let publication = PublicationWindow::over(window);
    assert_eq!(publication.sequence, 0);
    assert_eq!(publication.dirty.len(), 0);
    let lane = OwnedPackedCkfLane::over(3, Vec::with_capacity(3));
    assert_eq!(lane.len(), 3);
    assert!((0..3).all(|bucket| lane.load_bucket(bucket) == PackedBucket(0)));
}
