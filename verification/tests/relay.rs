use kv_dc_relay::actor::{
    retain_delivered, ActorActivity, ActorCommand, ActorReply, RelayActor,
};
use kv_dc_relay::config::{CkfBuildError, CkfConfig};
use kv_dc_relay::protocol::{
    ExternalSequenceBlockHash, KvCacheEvent, KvCacheEventData, KvCacheEventError,
    KvCacheStoreData, KvCacheStoredBlockData, LocalBlockHash, RouterEvent, StorageTier,
    WorkerWithDpRank,
};
use kv_dc_relay::publication::{DcCkfDelta, DcCkfSnapshot, DcCkfStats};
use kv_dc_relay::relay::{
    clamped, diagnostic_snapshot, mailbox_depth, relay_config, relay_health, relay_stats,
    replacement_hashes, submission_result, ActorCounters, KvDcRelayError, MailboxRoom,
    RecoveryHealth, DEFAULT_EXPECTED_UNIQUE_BLOCKS, DEFAULT_MAILBOX_CAPACITY,
    DEFAULT_SUBSCRIBER_CAPACITY,
};
use tokio::sync::mpsc;

fn stored(worker: WorkerWithDpRank, event_id: u64, hashes: &[u64]) -> RouterEvent {
    RouterEvent::new(
        worker.worker_id,
        KvCacheEvent {
            event_id,
            data: KvCacheEventData::Stored(KvCacheStoreData {
                parent_hash: None,
                start_position: None,
                blocks: hashes
                    .iter()
                    .copied()
                    .map(|hash| KvCacheStoredBlockData {
                        block_hash: ExternalSequenceBlockHash(hash),
                        tokens_hash: LocalBlockHash(hash),
                        mm_extra_info: None,
                    })
                    .collect(),
            }),
            dp_rank: worker.dp_rank,
        },
    )
}

struct Relay {
    actor: RelayActor,
    subscribers: Vec<mpsc::Sender<DcCkfDelta>>,
    counters: ActorCounters,
}

impl Relay {
    fn new(config: CkfConfig) -> Self {
        Relay {
            actor: RelayActor::new(config).unwrap(),
            subscribers: Vec::new(),
            counters: ActorCounters::default(),
        }
    }

    fn publish(&mut self, delta: &DcCkfDelta) {
        let delivered: Vec<bool> = self
            .subscribers
            .iter()
            .map(|subscriber| subscriber.try_send(delta.clone()).is_ok())
            .collect();
        let subscribers = std::mem::take(&mut self.subscribers);
        self.subscribers = retain_delivered(subscribers, &delivered);
    }

    fn submit(&mut self, command: ActorCommand) -> ActorReply {
        let reaction = self.actor.handle(command);
        self.counters.record(&reaction);
        if let Some(delta) = &reaction.publication {
            self.publish(delta);
        }
        reaction.reply
    }

    fn finish(&mut self) -> ActorReply {
        let reaction = self.actor.finish();
        self.counters.record(&reaction);
        if let Some(delta) = &reaction.publication {
            self.publish(delta);
        }
        reaction.reply
    }

    fn done(&mut self, command: ActorCommand) -> Result<(), KvDcRelayError> {
        match self.submit(command) {
            ActorReply::Done(result) => result,
            other => panic!("unexpected reply {:?}", other),
        }
    }

    fn apply(&mut self, event: RouterEvent) -> Result<(), KvDcRelayError> {
        self.done(ActorCommand::Apply { event })
    }

    fn subscribe(&mut self) -> (DcCkfSnapshot, mpsc::Receiver<DcCkfDelta>) {
        match self.submit(ActorCommand::Subscribe) {
            ActorReply::Subscribed(Ok(snapshot)) => {
                let (sender, deltas) = mpsc::channel(DEFAULT_SUBSCRIBER_CAPACITY);
                self.subscribers.push(sender);
                (snapshot, deltas)
            }
            other => panic!("unexpected reply {:?}", other),
        }
    }

    fn stats(&mut self) -> (DcCkfStats, Vec<(WorkerWithDpRank, usize)>) {
        match self.submit(ActorCommand::Stats) {
            ActorReply::Stats(stats, members) => (stats, members),
            other => panic!("unexpected reply {:?}", other),
        }
    }
}

#[test]
fn subscriber_gets_snapshot_then_one_atomic_replacement_delta() {
    let worker = WorkerWithDpRank::new(1, 0);
    let mut relay = Relay::new(CkfConfig::new(32));
    relay.apply(stored(worker, 1, &[1, 2])).unwrap();
    let (snapshot, mut deltas) = relay.subscribe();
    let base_sequence = snapshot.sequence();

    relay
        .done(ActorCommand::ReplaceRank {
            worker_id: worker.worker_id,
            dp_rank: worker.dp_rank,
            events: vec![stored(worker, 0, &[3, 4])],
        })
        .unwrap();
    let delta = deltas.try_recv().unwrap();
    assert_eq!(delta.base_sequence(), base_sequence);
    assert_eq!(delta.sequence(), base_sequence + 1);
    assert!(!delta.reset());
    assert!(deltas.try_recv().is_err());
}

#[test]
fn shared_owner_survives_transactional_rank_replacement() {
    let first = WorkerWithDpRank::new(1, 0);
    let second = WorkerWithDpRank::new(2, 0);
    let mut relay = Relay::new(CkfConfig::new(32));
    relay.apply(stored(first, 1, &[9])).unwrap();
    relay.apply(stored(second, 1, &[9])).unwrap();

    relay
        .done(ActorCommand::ReplaceRank {
            worker_id: first.worker_id,
            dp_rank: first.dp_rank,
            events: Vec::new(),
        })
        .unwrap();
    let (stats, members) = relay.stats();
    assert_eq!(stats.aggregation().unique_block_count(), 1);
    assert_eq!(stats.aggregation().contribution_count(), 1);
    assert_eq!(members, vec![(second, 1)]);
}

#[test]
fn shutdown_drains_accepted_commands_and_rejects_new_ones() {
    let worker = WorkerWithDpRank::new(1, 0);
    let mut relay = Relay::new(CkfConfig::new(32));
    let (mailbox, mut accepted) = mpsc::channel(4);
    assert!(mailbox
        .try_send(ActorCommand::Apply {
            event: stored(worker, 1, &[1])
        })
        .is_ok());
    assert!(mailbox.try_send(ActorCommand::Shutdown).is_ok());
    assert!(mailbox.try_send(ActorCommand::Shutdown).is_ok());

    assert!(relay.done(accepted.try_recv().unwrap()).is_ok());
    assert!(matches!(
        relay.submit(accepted.try_recv().unwrap()),
        ActorReply::Deferred
    ));
    accepted.close();
    assert!(relay.actor.is_shutting_down());
    assert!(matches!(
        relay.done(accepted.try_recv().unwrap()),
        Err(KvDcRelayError::ShuttingDown)
    ));
    assert!(accepted.try_recv().is_err());
    let (stats, _) = relay.stats();
    assert_eq!(stats.aggregation().unique_block_count(), 1);
    assert!(matches!(relay.finish(), ActorReply::Done(Ok(()))));

    let refused = mailbox.try_send(ActorCommand::Apply {
        event: stored(worker, 2, &[2]),
    });
    assert!(matches!(
        submission_result::<()>(refused.is_ok(), None),
        Err(KvDcRelayError::ShuttingDown)
    ));
}

#[test]
fn lagging_publication_subscriber_is_closed_before_updates_are_lost() {
    let worker = WorkerWithDpRank::new(1, 0);
    let mut relay = Relay::new(CkfConfig::new(128));
    let (_, mut deltas) = relay.subscribe();

    for event_id in 1..=DEFAULT_SUBSCRIBER_CAPACITY as u64 + 1 {
        relay.apply(stored(worker, event_id, &[event_id])).unwrap();
    }

    let mut received = 0;
    while deltas.try_recv().is_ok() {
        received += 1;
    }
    assert_eq!(received, DEFAULT_SUBSCRIBER_CAPACITY);
    assert!(relay.subscribers.is_empty());
    assert!(matches!(
        deltas.try_recv(),
        Err(mpsc::error::TryRecvError::Disconnected)
    ));
}

#[test]
fn a_subscriber_reconstructs_the_lane_through_every_kind_of_command() {
    let first = WorkerWithDpRank::new(1, 0);
    let second = WorkerWithDpRank::new(2, 0);
    let mut config = CkfConfig::new(64);
    config.publish_every_n_events = 2;
    let mut relay = Relay::new(config);
    relay.apply(stored(first, 1, &[1, 2, 3])).unwrap();
    let (snapshot, mut deltas) = relay.subscribe();
    let mut lane = snapshot.buckets().to_vec();

    relay.apply(stored(second, 1, &[3, 4])).unwrap();
    relay
        .done(ActorCommand::ReplaceRank {
            worker_id: 1,
            dp_rank: 0,
            events: vec![stored(first, 2, &[5]), stored(first, 3, &[6])],
        })
        .unwrap();
    relay.apply(stored(second, 2, &[7, 8, 9])).unwrap();
    relay.done(ActorCommand::Flush).unwrap();
    relay
        .done(ActorCommand::RemoveRank {
            worker_id: 1,
            dp_rank: 0,
            degraded: true,
        })
        .unwrap();
    relay.apply(stored(first, 4, &[10])).unwrap();
    relay
        .done(ActorCommand::RemoveWorker { worker_id: 2 })
        .unwrap();
    relay.apply(stored(first, 5, &[11])).unwrap();
    assert!(matches!(relay.finish(), ActorReply::Done(Ok(()))));

    while let Ok(delta) = deltas.try_recv() {
        if delta.reset() {
            lane.fill(0);
        }
        for image in delta.images() {
            lane[image.bucket()] = image.value();
        }
    }
    match relay.submit(ActorCommand::Snapshot) {
        ActorReply::Snapshot(Ok(base)) => {
            assert_eq!(lane, base.snapshot.buckets());
            assert_eq!(base.stats.aggregation().unique_block_count(), 2);
        }
        other => panic!("unexpected reply {:?}", other),
    }
    assert_eq!(relay.counters.degraded_resets, 1);
    assert_eq!(relay.counters.unchanged_publications, 0);
}

#[test]
fn counters_tell_publications_from_unchanged_ones() {
    let worker = WorkerWithDpRank::new(1, 0);
    let mut relay = Relay::new(CkfConfig::new(32));
    relay.apply(stored(worker, 1, &[1])).unwrap();
    relay.apply(stored(worker, 2, &[1])).unwrap();
    relay.done(ActorCommand::Flush).unwrap();
    relay
        .done(ActorCommand::RemoveWorker { worker_id: 9 })
        .unwrap();
    assert_eq!(relay.counters.publications, 1);
    assert_eq!(relay.counters.unchanged_publications, 3);
    relay.counters.record_wait(5);
    relay.counters.record_wait(3);
    relay.counters.record_rebuild(u128::MAX);
    relay.counters.record_rebuild(2);
    assert_eq!(relay.counters.mailbox_wait_ns, 8);
    assert_eq!(relay.counters.mailbox_max_wait_ns, 5);
    assert_eq!(relay.counters.rebuild_count, 2);
    assert_eq!(relay.counters.rebuild_ns, 1);
    assert_eq!(relay.counters.rebuild_max_ns, u64::MAX);
}

#[test]
fn errors_of_the_aggregation_are_reported() {
    let worker = WorkerWithDpRank::new(1, 0);
    let mut relay = Relay::new(CkfConfig::new(1));
    let hashes: Vec<u64> = (1..=32).collect();
    assert!(matches!(
        relay.apply(stored(worker, 1, &hashes)),
        Err(KvDcRelayError::Event(KvCacheEventError::CapacityExhausted))
    ));
    assert!(matches!(
        relay.done(ActorCommand::ReplaceRank {
            worker_id: 1,
            dp_rank: 0,
            events: vec![stored(worker, 2, &hashes)],
        }),
        Err(KvDcRelayError::Event(KvCacheEventError::CapacityExhausted))
    ));
    assert!(matches!(
        RelayActor::new(CkfConfig::new(0)).unwrap_err(),
        KvDcRelayError::Build(CkfBuildError::ZeroExpectedBlocks)
    ));
    assert!(matches!(
        submission_result::<u8>(true, None),
        Err(KvDcRelayError::ActorStopped)
    ));
    assert!(matches!(submission_result(true, Some(Ok(4u8))), Ok(4)));
}

#[test]
fn a_dump_is_the_union_of_its_device_stores() {
    let worker = WorkerWithDpRank::new(1, 2);
    let mut disk = stored(worker, 3, &[7]);
    disk.storage_tier = StorageTier::Disk;
    let events = vec![stored(worker, 1, &[1, 2]), disk, stored(worker, 2, &[2, 3])];
    let hashes = replacement_hashes(1, 2, &events).unwrap();
    let mut sorted: Vec<u64> = hashes.into_iter().collect();
    sorted.sort_unstable();
    assert_eq!(sorted, vec![1, 2, 3]);
}

#[test]
fn a_dump_with_a_foreign_or_other_event_is_refused() {
    let worker = WorkerWithDpRank::new(1, 2);
    let foreign = vec![stored(worker, 1, &[1]), stored(WorkerWithDpRank::new(1, 3), 1, &[2])];
    match replacement_hashes(1, 2, &foreign) {
        Err(KvDcRelayError::InvalidTreeDump {
            worker_id,
            dp_rank,
            message,
        }) => {
            assert_eq!((worker_id, dp_rank), (1, 2));
            assert_eq!(message, "event identity does not match replacement rank");
        }
        other => panic!("unexpected result {:?}", other),
    }
    let mut cleared = stored(worker, 1, &[]);
    cleared.event.data = KvCacheEventData::Cleared;
    match replacement_hashes(1, 2, &vec![cleared.clone()]) {
        Err(KvDcRelayError::InvalidTreeDump { message, .. }) => {
            assert_eq!(message, "tree dump contains a non-Stored event");
        }
        other => panic!("unexpected result {:?}", other),
    }
    cleared.storage_tier = StorageTier::External;
    assert!(replacement_hashes(1, 2, &vec![cleared]).unwrap().is_empty());
}

#[test]
fn commands_have_names() {
    let worker = WorkerWithDpRank::new(1, 0);
    let kinds: Vec<&str> = vec![
        ActorCommand::Apply {
            event: stored(worker, 1, &[]),
        },
        ActorCommand::ReplaceRank {
            worker_id: 1,
            dp_rank: 0,
            events: Vec::new(),
        },
        ActorCommand::RemoveRank {
            worker_id: 1,
            dp_rank: 0,
            degraded: false,
        },
        ActorCommand::RemoveWorker { worker_id: 1 },
        ActorCommand::Flush,
        ActorCommand::Snapshot,
        ActorCommand::Stats,
        ActorCommand::Subscribe,
        ActorCommand::Shutdown,
    ]
    .iter()
    .map(|command| command.kind())
    .collect();
    assert_eq!(
        kinds,
        vec![
            "apply_event",
            "replace_rank",
            "remove_rank",
            "remove_worker",
            "flush",
            "snapshot",
            "stats",
            "subscribe",
            "shutdown"
        ]
    );
}

#[test]
fn reports_are_put_together_from_their_parts() {
    let worker = WorkerWithDpRank::new(4, 2);
    let mut relay = Relay::new(CkfConfig::new(32));
    relay.apply(stored(worker, 1, &[1, 2])).unwrap();
    relay.counters.record_wait(17);
    let recovery = RecoveryHealth {
        worker_count: 1,
        rank_count: 2,
        recovering_rank_count: 3,
        pending_live_event_count: 4,
        discovered_endpoint_count: 5,
    };
    let mailbox = MailboxRoom {
        max_capacity: 10,
        capacity: 7,
    };
    let (stats, members) = relay.stats();
    let report = relay_stats("dc", "model", stats, members, relay.counters, recovery, mailbox);
    assert_eq!(report.identity.dc_id, "dc");
    assert_eq!(report.identity.model_name, "model");
    assert_eq!(report.aggregation.members.len(), 1);
    assert_eq!(report.aggregation.members[0].worker_id, 4);
    assert_eq!(report.aggregation.members[0].dp_rank, 2);
    assert_eq!(report.aggregation.members[0].blocks, 2);
    assert_eq!(report.aggregation.unique_block_count, 2);
    assert_eq!(report.publication.publication_count, 1);
    assert_eq!(report.publication.sequence, 1);
    assert_eq!(report.recovery.discovered_endpoint_count, 5);
    assert_eq!(report.memory.filter_bytes, 128);
    assert_eq!(report.actor.mailbox_depth, 3);
    assert_eq!(report.actor.mailbox_capacity, 10);
    assert_eq!(report.actor.mailbox_wait_ns, 17);

    match relay.submit(ActorCommand::Snapshot) {
        ActorReply::Snapshot(Ok(base)) => {
            let report = diagnostic_snapshot("dc", "model", &base.snapshot, base.stats);
            assert_eq!(report.sequence, 1);
            assert_eq!(report.member_count, 1);
            assert_eq!(report.contribution_count, 2);
            assert_eq!(report.format_version, 1);
            assert_eq!(report.bucket_count, 16);
            assert_eq!(report.buckets, base.snapshot.buckets());
        }
        other => panic!("unexpected reply {:?}", other),
    }

    let health = relay_health(false, false, Some(("flush", 1 << 70)), recovery, mailbox);
    assert!(health.healthy);
    assert_eq!(health.active_command, Some("flush".to_string()));
    assert_eq!(health.active_command_age_ms, Some(u64::MAX));
    assert_eq!(health.recovering_rank_count, 3);
    assert!(!relay_health(false, true, None, recovery, mailbox).healthy);
    let health = relay_health(true, false, None, recovery, mailbox);
    assert!(!health.healthy && health.shutting_down);
    assert!(health.active_command.is_none() && health.active_command_age_ms.is_none());
}

#[test]
fn defaults_of_a_relay() {
    let config = relay_config();
    assert_eq!(config.expected_blocks_per_dc, DEFAULT_EXPECTED_UNIQUE_BLOCKS);
    assert_eq!(config.publish_every_n_events, 1);
    assert_eq!(DEFAULT_EXPECTED_UNIQUE_BLOCKS, 1_048_576);
    assert_eq!(DEFAULT_MAILBOX_CAPACITY, 1_024);
    assert_eq!(mailbox_depth(4, 1), 3);
    assert_eq!(mailbox_depth(1, 4), 0);
    assert_eq!(clamped(12), 12);
    assert_eq!(clamped(u128::MAX), u64::MAX);
}

#[test]
fn only_subscribers_that_took_a_delta_are_kept() {
    assert_eq!(
        retain_delivered(vec!['a', 'b', 'c', 'd'], &vec![true, false, true, false]),
        vec!['a', 'c']
    );
    assert_eq!(retain_delivered(vec![1, 2], &vec![true, true]), vec![1, 2]);
    assert!(retain_delivered(vec![1], &vec![false]).is_empty());
}

#[test]
fn activity_follows_the_command_at_hand_and_shutdown() {
    let mut actor = RelayActor::new(CkfConfig::new(32)).unwrap();
    let mut activity: ActorActivity<u32> = ActorActivity::new();
    assert!(activity.active.is_none() && !activity.shutting_down);
    activity.begin(&ActorCommand::Flush, 17);
    assert_eq!(activity.active, Some(("flush", 17)));
    actor.handle(ActorCommand::Flush);
    activity.finish(&actor);
    assert!(activity.active.is_none() && !activity.shutting_down);
    activity.begin(&ActorCommand::Shutdown, 18);
    actor.handle(ActorCommand::Shutdown);
    activity.finish(&actor);
    assert!(activity.active.is_none() && activity.shutting_down);
}

#[test]
fn only_replacements_count_as_rebuilds() {
    let worker = WorkerWithDpRank::new(1, 0);
    let mut actor = RelayActor::new(CkfConfig::new(32)).unwrap();
    let replacement = |events| ActorCommand::ReplaceRank {
        worker_id: 1,
        dp_rank: 0,
        events,
    };
    assert!(actor.handle(replacement(vec![stored(worker, 1, &[1])])).rebuild);
    let foreign = stored(WorkerWithDpRank::new(2, 0), 1, &[1]);
    assert!(actor.handle(replacement(vec![foreign])).rebuild);
    let event = stored(worker, 2, &[2]);
    assert!(!actor.handle(ActorCommand::Apply { event }).rebuild);
    assert!(!actor.handle(ActorCommand::Snapshot).rebuild);
    assert!(!actor.handle(ActorCommand::Shutdown).rebuild);
}

#[test]
fn a_subscription_joins_without_a_gap() {
    let worker = WorkerWithDpRank::new(1, 0);
    let mut config = CkfConfig::new(64);
    config.publish_every_n_events = 3;
    let mut relay = Relay::new(config);
    let (base, mut early) = relay.subscribe();
    relay.apply(stored(worker, 1, &[1])).unwrap();
    assert!(early.try_recv().is_err());

    let (snapshot, mut late) = relay.subscribe();
    let pending = early.try_recv().unwrap();
    assert_eq!(pending.base_sequence(), base.sequence());
    assert_eq!(pending.sequence(), snapshot.sequence());
    assert!(late.try_recv().is_err());

    let mut lane = snapshot.buckets().to_vec();
    for event_id in 2..=8 {
        relay
            .apply(stored(worker, event_id, &[event_id * 10]))
            .unwrap();
    }
    assert!(matches!(relay.finish(), ActorReply::Done(Ok(()))));
    let mut sequence = snapshot.sequence();
    let mut count = 0;
    while let Ok(delta) = late.try_recv() {
        assert_eq!(delta.base_sequence(), sequence);
        sequence = delta.sequence();
        for image in delta.images() {
            lane[image.bucket()] = image.value();
        }
        count += 1;
    }
    assert_eq!(count, 3);
    match relay.submit(ActorCommand::Snapshot) {
        ActorReply::Snapshot(Ok(base)) => {
            assert_eq!(base.snapshot.sequence(), sequence);
            assert_eq!(base.snapshot.buckets(), lane);
        }
        other => panic!("unexpected reply {:?}", other),
    }
}

#[test]
fn commands_accepted_after_a_shutdown_are_still_carried_out() {
    let worker = WorkerWithDpRank::new(1, 0);
    let mut config = CkfConfig::new(32);
    config.publish_every_n_events = 8;
    let mut relay = Relay::new(config);
    let (_, mut deltas) = relay.subscribe();
    assert!(matches!(
        relay.submit(ActorCommand::Shutdown),
        ActorReply::Deferred
    ));
    relay.apply(stored(worker, 1, &[1])).unwrap();
    assert!(deltas.try_recv().is_err());
    assert!(matches!(relay.finish(), ActorReply::Done(Ok(()))));
    assert_eq!(deltas.try_recv().unwrap().sequence(), 1);
    assert_eq!(relay.counters.publications, 1);
    assert_eq!(relay.counters.unchanged_publications, 0);
}

#[test]
fn a_dump_of_an_empty_store_names_nothing() {
    let worker = WorkerWithDpRank::new(1, 0);
    let events = vec![stored(worker, 1, &[])];
    assert!(replacement_hashes(1, 0, &events).unwrap().is_empty());
}
