//! The serialized actor that owns an aggregation: what each command does to it
//! and what is answered.
//!
//! Commands come out of a mailbox one at a time. The caller that runs the
//! actor sends what a reaction publishes to all subscribers, drops those that
//! did not take it, and then answers.
use crate::config::CkfConfig;
use crate::model::DcCkfModel;
use crate::protocol::{
    DpRank, KvCacheEventError, RouterEvent, WorkerId, WorkerWithDpRank,
};
use crate::publication::{DcCkfDelta, DcCkfSnapshot, DcCkfStats};
use crate::relay::{replacement_hashes, ActorCounters, KvDcRelayError};
use crate::state::DcCkfState;
use vstd::prelude::*;
#[allow(unused_imports)]
use crate::memory::room_refused;
#[allow(unused_imports)]
use crate::model::build_room_refused;
#[allow(unused_imports)]
use crate::publication::{delta_model, DeltaModel, OutcomeModel};
#[allow(unused_imports)]
use crate::relay::{dump_hashes, faultless, may_refuse_dump};

verus! {

/// What the actor can be asked.
#[derive(Debug, Clone)]
pub enum ActorCommand {
    Apply { event: RouterEvent },
    ReplaceRank { worker_id: WorkerId, dp_rank: DpRank, events: Vec<RouterEvent> },
    RemoveRank { worker_id: WorkerId, dp_rank: DpRank, degraded: bool },
    RemoveWorker { worker_id: WorkerId },
    Flush,
    Snapshot,
    Stats,
    Subscribe,
    Shutdown,
}

impl ActorCommand {
    /// The name of a command in health reports.
    pub open spec fn spec_kind(self) -> Seq<char> {
        match self {
            ActorCommand::Apply { .. } => "apply_event"@,
            ActorCommand::ReplaceRank { .. } => "replace_rank"@,
            ActorCommand::RemoveRank { .. } => "remove_rank"@,
            ActorCommand::RemoveWorker { .. } => "remove_worker"@,
            ActorCommand::Flush => "flush"@,
            ActorCommand::Snapshot => "snapshot"@,
            ActorCommand::Stats => "stats"@,
            ActorCommand::Subscribe => "subscribe"@,
            ActorCommand::Shutdown => "shutdown"@,
        }
    }

    /// Names a command for health reports.
    pub fn kind(&self) -> (kind: &'static str)
        ensures
            kind@ == self.spec_kind(),
    {
        match self {
            ActorCommand::Apply { .. } => "apply_event",
            ActorCommand::ReplaceRank { .. } => "replace_rank",
            ActorCommand::RemoveRank { .. } => "remove_rank",
            ActorCommand::RemoveWorker { .. } => "remove_worker",
            ActorCommand::Flush => "flush",
            ActorCommand::Snapshot => "snapshot",
            ActorCommand::Stats => "stats",
            ActorCommand::Subscribe => "subscribe",
            ActorCommand::Shutdown => "shutdown",
        }
    }
}

/// A base for subscribers with the counters at the same moment.
#[derive(Debug)]
pub struct ActorSnapshot {
    pub snapshot: DcCkfSnapshot,
    pub stats: DcCkfStats,
}

/// What a command is answered.
#[derive(Debug)]
pub enum ActorReply {
    /// The command was carried out, or was not.
    Done(Result<(), KvDcRelayError>),
    /// A base with counters.
    Snapshot(Result<ActorSnapshot, KvDcRelayError>),
    /// Counters, and every member with the number of blocks that it owns.
    Stats(DcCkfStats, Vec<(WorkerWithDpRank, usize)>),
    /// A base for a new subscriber, which gets every delta from here on.
    Subscribed(Result<DcCkfSnapshot, KvDcRelayError>),
    /// Nothing yet: the answer comes when all accepted commands are done.
    Deferred,
}

/// What a command leads to outside the actor.
#[derive(Debug)]
pub struct ActorReaction {
    /// What the command is answered.
    pub reply: ActorReply,
    /// What goes to all subscribers before the answer.
    pub publication: Option<DcCkfDelta>,
    /// Whether a publication was due and there was nothing to publish.
    pub unchanged: bool,
    /// Whether a member was given up because its recovery failed.
    pub degraded_reset: bool,
    /// Removals that named blocks which were not owned.
    pub unknown_removals: usize,
    /// Whether the command was to rebuild the aggregation, whatever came of
    /// it: the time that it took then counts as a rebuild.
    pub rebuild: bool,
}

impl ActorReaction {
    /// A reaction that publishes a delta or notes that there was none.
    pub open spec fn is_published(
        self,
        reply: ActorReply,
        delta: Option<DeltaModel>,
        degraded_reset: bool,
    ) -> bool {
        &&& self.reply == reply
        &&& delta_model(self.publication) == delta
        &&& self.unchanged == (delta is None)
        &&& self.degraded_reset == degraded_reset
        &&& self.unknown_removals == 0
    }

    /// A reaction that does nothing but answer.
    pub open spec fn is_quiet(self) -> bool {
        &&& self.publication is None
        &&& !self.unchanged
        &&& !self.degraded_reset
        &&& self.unknown_removals == 0
    }

    fn quiet(reply: ActorReply) -> (reaction: Self)
        ensures
            reaction.reply == reply,
            reaction.is_quiet(),
            !reaction.rebuild,
    {
        ActorReaction {
            reply,
            publication: None,
            unchanged: false,
            degraded_reset: false,
            unknown_removals: 0,
            rebuild: false,
        }
    }

    fn published(delta: Option<DcCkfDelta>, degraded_reset: bool) -> (reaction: Self)
        ensures
            reaction.is_published(ActorReply::Done(Ok(())), delta_model(delta), degraded_reset),
            !reaction.rebuild,
    {
        let unchanged: bool = delta.is_none();
        ActorReaction {
            reply: ActorReply::Done(Ok(())),
            publication: delta,
            unchanged,
            degraded_reset,
            unknown_removals: 0,
            rebuild: false,
        }
    }

    fn rebuilding(self) -> (reaction: Self)
        ensures
            reaction == (ActorReaction { rebuild: true, ..self }),
    {
        ActorReaction { rebuild: true, ..self }
    }
}

/// The reply to a command that only succeeds or fails.
pub open spec fn done_with(error: Option<KvCacheEventError>) -> ActorReply {
    match error {
        Some(error) => ActorReply::Done(Err(KvDcRelayError::Event(error))),
        None => ActorReply::Done(Ok(())),
    }
}

impl ActorCounters {
    /// The counters after a reaction.
    pub open spec fn after(self, reaction: ActorReaction) -> Self {
        ActorCounters {
            publications: if reaction.publication is Some {
                self.publications.wrapping_add(1)
            } else {
                self.publications
            },
            unchanged_publications: if reaction.unchanged {
                self.unchanged_publications.wrapping_add(1)
            } else {
                self.unchanged_publications
            },
            degraded_resets: if reaction.degraded_reset {
                self.degraded_resets.wrapping_add(1)
            } else {
                self.degraded_resets
            },
            ..self
        }
    }

    /// Notes what a reaction published or did not, and whether it gave up a
    /// member.
    pub fn record(&mut self, reaction: &ActorReaction)
        ensures
            *final(self) == old(self).after(*reaction),
    {
        if reaction.publication.is_some() {
            self.publications = self.publications.wrapping_add(1);
        }
        if reaction.unchanged {
            self.unchanged_publications = self.unchanged_publications.wrapping_add(1);
        }
        if reaction.degraded_reset {
            self.degraded_resets = self.degraded_resets.wrapping_add(1);
        }
    }
}

/// What an actor is at: the name of the command at hand with the time since
/// when, and whether the actor shuts down.
#[derive(Debug)]
pub struct ActorActivity<T> {
    pub active: Option<(&'static str, T)>,
    pub shutting_down: bool,
}

impl<T> ActorActivity<T> {
    /// Nothing is at hand.
    pub fn new() -> (activity: Self)
        ensures
            activity.active is None,
            !activity.shutting_down,
    {
        ActorActivity { active: None, shutting_down: false }
    }

    /// A command is taken up.
    pub fn begin(&mut self, command: &ActorCommand, since: T)
        ensures
            final(self).active is Some,
            final(self).active.unwrap().0@ == command.spec_kind(),
            final(self).active.unwrap().1 == since,
            final(self).shutting_down == old(self).shutting_down,
    {
        self.active = Some((command.kind(), since));
    }

    /// The command at hand is done, and an actor is left.
    pub fn finish(&mut self, actor: &RelayActor)
        ensures
            final(self).active is None,
            final(self).shutting_down == actor@.shutting_down,
    {
        self.active = None;
        self.shutting_down = actor.is_shutting_down();
    }
}

/// The subscribers that took what was sent to them, in their order.
pub open spec fn delivered_to<T>(subscribers: Seq<T>, delivered: Seq<bool>) -> Seq<T>
    decreases subscribers.len(),
{
    if subscribers.len() == 0 {
        Seq::empty()
    } else {
        let rest = delivered_to(subscribers.drop_last(), delivered);
        if delivered[subscribers.len() - 1] {
            rest.push(subscribers.last())
        } else {
            rest
        }
    }
}

/// Drops every subscriber that did not take what was sent to it: one that is
/// gone, or one that lags so far behind that a delta would be lost.
pub fn retain_delivered<T>(subscribers: Vec<T>, delivered: &Vec<bool>) -> (kept: Vec<T>)
    requires
        delivered@.len() == subscribers@.len(),
    ensures
        kept@ == delivered_to(subscribers@, delivered@),
{
    let ghost all = subscribers@;
    let mut waiting: Vec<T> = subscribers;
    let mut lifo: Vec<T> = Vec::new();
    while waiting.len() > 0
        invariant
            waiting@ == all.take(waiting@.len() as int),
            waiting@.len() <= all.len(),
            delivered@.len() == all.len(),
            delivered_to(waiting@, delivered@) + lifo@.reverse() == delivered_to(all, delivered@),
        decreases waiting@.len(),
    {
        let ghost before = waiting@;
        let ghost stacked = lifo@;
        let index: usize = waiting.len() - 1;
        if let Some(subscriber) = waiting.pop() {
            assert(waiting@ =~= before.drop_last());
            assert(waiting@ =~= all.take(waiting@.len() as int));
            if delivered[index] {
                lifo.push(subscriber);
                proof {
                    assert(before.last() == subscriber);
                    assert(lifo@.reverse() =~= seq![subscriber] + stacked.reverse());
                    assert(delivered_to(waiting@, delivered@) + lifo@.reverse() =~= delivered_to(
                        before,
                        delivered@,
                    ) + stacked.reverse());
                }
            }
        }
    }
    let ghost stacked = lifo@;
    let mut kept: Vec<T> = Vec::new();
    proof {
        assert(waiting@ =~= Seq::empty());
        assert(stacked.reverse() =~= delivered_to(all, delivered@));
        assert(kept@ + lifo@.reverse() =~= stacked.reverse());
    }
    while lifo.len() > 0
        invariant
            kept@ + lifo@.reverse() == stacked.reverse(),
        decreases lifo@.len(),
    {
        let ghost before = lifo@;
        let ghost done = kept@;
        if let Some(subscriber) = lifo.pop() {
            kept.push(subscriber);
            proof {
                assert(before.reverse() =~= seq![subscriber] + lifo@.reverse());
                assert(kept@ + lifo@.reverse() =~= done + before.reverse());
            }
        }
    }
    assert(kept@ + lifo@.reverse() =~= kept@);
    kept
}

/// An aggregation and whether it is to be given up.
#[verifier::ext_equal]
pub struct ActorModel {
    pub state: DcCkfModel,
    pub shutting_down: bool,
}

impl ActorModel {
    /// What a command may lead to.
    pub open spec fn may_handle(
        self,
        command: ActorCommand,
        after: Self,
        reaction: ActorReaction,
    ) -> bool {
        &&& match command {
            ActorCommand::Apply { event } => self.may_apply(event, after.state, reaction),
            ActorCommand::ReplaceRank { worker_id, dp_rank, events } => self.may_replace(
                WorkerWithDpRank { worker_id, dp_rank },
                events@,
                after.state,
                reaction,
            ),
            ActorCommand::RemoveRank { worker_id, dp_rank, degraded } => {
                let key = (WorkerWithDpRank { worker_id, dp_rank }).spec_key();
                match reaction.reply {
                    ActorReply::Done(Ok(())) => {
                        let delta = delta_model(reaction.publication);
                        &&& self.state.may_remove_rank(key, after.state, Ok(delta))
                        &&& reaction.is_published(reaction.reply, delta, degraded)
                    },
                    ActorReply::Done(Err(KvDcRelayError::Event(error))) => {
                        &&& self.state.may_remove_rank(key, after.state, Err(error))
                        &&& reaction.is_quiet()
                    },
                    _ => false,
                }
            },
            ActorCommand::RemoveWorker { worker_id } => match reaction.reply {
                ActorReply::Done(Ok(())) => {
                    let delta = delta_model(reaction.publication);
                    &&& self.state.may_remove_worker(worker_id, after.state, Ok(delta))
                    &&& reaction.is_published(reaction.reply, delta, false)
                },
                ActorReply::Done(Err(KvDcRelayError::Event(error))) => {
                    &&& self.state.may_remove_worker(worker_id, after.state, Err(error))
                    &&& reaction.is_quiet()
                },
                _ => false,
            },
            ActorCommand::Flush => {
                let (drained, delta) = self.state.drained();
                &&& after.state == drained
                &&& reaction.is_published(ActorReply::Done(Ok(())), delta, false)
            },
            ActorCommand::Snapshot => match reaction.reply {
                ActorReply::Snapshot(Ok(base)) => {
                    &&& self.is_based(base.snapshot, after.state, reaction)
                    &&& after.state.is_stats(base.stats)
                },
                ActorReply::Snapshot(Err(error)) => self.is_unbased(
                    error,
                    after.state,
                    reaction,
                ),
                _ => false,
            },
            ActorCommand::Subscribe => match reaction.reply {
                ActorReply::Subscribed(Ok(snapshot)) => self.is_based(
                    snapshot,
                    after.state,
                    reaction,
                ),
                ActorReply::Subscribed(Err(error)) => self.is_unbased(
                    error,
                    after.state,
                    reaction,
                ),
                _ => false,
            },
            ActorCommand::Stats => {
                &&& after.state == self.state
                &&& reaction.is_quiet()
                &&& reaction.reply matches ActorReply::Stats(stats, members)
                &&& self.state.is_stats(stats)
                &&& self.state.is_member_counts(members@)
            },
            ActorCommand::Shutdown => {
                &&& after.state == self.state
                &&& reaction.is_quiet()
                &&& reaction.reply == (if self.shutting_down {
                    ActorReply::Done(Err(KvDcRelayError::ShuttingDown))
                } else {
                    ActorReply::Deferred
                })
            },
        }
        &&& after.shutting_down == (self.shutting_down || command is Shutdown)
        &&& reaction.rebuild == command is ReplaceRank
    }

    /// What applying an event may lead to.
    pub open spec fn may_apply(
        self,
        event: RouterEvent,
        after: DcCkfModel,
        reaction: ActorReaction,
    ) -> bool {
        exists|outcome: OutcomeModel|
            {
                &&& #[trigger] self.state.may_apply(event, after, outcome)
                &&& reaction.reply == done_with(outcome.first_error)
                &&& delta_model(reaction.publication) == outcome.delta
                &&& reaction.unchanged == (outcome.publication_boundary && outcome.delta is None)
                &&& !reaction.degraded_reset
                &&& reaction.unknown_removals == outcome.unknown_removals
            }
    }

    /// What replacing everything that a member owns by a dump may lead to.
    pub open spec fn may_replace(
        self,
        worker: WorkerWithDpRank,
        events: Seq<RouterEvent>,
        after: DcCkfModel,
        reaction: ActorReaction,
    ) -> bool {
        match reaction.reply {
            ActorReply::Done(Ok(())) => {
                let delta = delta_model(reaction.publication);
                &&& faultless(worker, events, events.len() as int)
                &&& self.state.may_replace_rank(
                    worker.spec_key(),
                    dump_hashes(events),
                    after,
                    Ok(delta),
                )
                &&& reaction.is_published(reaction.reply, delta, false)
            },
            ActorReply::Done(Err(error)) => {
                &&& after == self.state
                &&& reaction.is_quiet()
                &&& match error {
                    KvDcRelayError::Event(error) => {
                        &&& faultless(worker, events, events.len() as int)
                        &&& self.state.may_replace_rank(
                            worker.spec_key(),
                            dump_hashes(events),
                            after,
                            Err(error),
                        )
                    },
                    _ => may_refuse_dump(worker, events, error),
                }
            },
            _ => false,
        }
    }

    /// A base was handed out, after everything that leads up to it was
    /// published.
    pub open spec fn is_based(
        self,
        snapshot: DcCkfSnapshot,
        after: DcCkfModel,
        reaction: ActorReaction,
    ) -> bool {
        &&& (after, delta_model(reaction.publication)) == self.state.drained()
        &&& snapshot@ == after.snapshot()
        &&& !reaction.unchanged
        &&& !reaction.degraded_reset
        &&& reaction.unknown_removals == 0
    }

    /// The allocator refused the room for a base, and nothing changed.
    pub open spec fn is_unbased(
        self,
        error: KvDcRelayError,
        after: DcCkfModel,
        reaction: ActorReaction,
    ) -> bool {
        &&& error == KvDcRelayError::Build(crate::config::CkfBuildError::AllocationFailed)
        &&& room_refused::<u64>(self.state.lane.len() as usize)
        &&& after == self.state
        &&& reaction.is_quiet()
    }
}

/// The actor of one relay.
#[derive(Debug)]
pub struct RelayActor {
    state: DcCkfState,
    shutting_down: bool,
}

impl View for RelayActor {
    type V = ActorModel;

    closed spec fn view(&self) -> ActorModel {
        ActorModel { state: self.state@, shutting_down: self.shutting_down }
    }
}

impl RelayActor {
    /// What every constructed actor satisfies, and every method keeps.
    pub closed spec fn wf(&self) -> bool {
        self.state.wf()
    }

    /// Writes that the last insertion recorded.
    pub closed spec fn recorded_writes(&self) -> nat {
        self.state.recorded_writes()
    }

    /// What well-formedness means for the aggregation.
    pub proof fn lemma_wf(&self)
        requires
            self.wf(),
        ensures
            self@.state.inv(),
    {
    }

    /// An actor with an empty aggregation for a sound configuration, unless
    /// the allocator refuses it.
    pub fn new(config: CkfConfig) -> (result: Result<Self, KvDcRelayError>)
        ensures
            match result {
                Ok(actor) => {
                    &&& config.fault() is None
                    &&& actor.wf()
                    &&& !actor@.shutting_down
                    &&& actor@.state == DcCkfModel::initial(config, actor@.state.addressing)
                },
                Err(error) => match config.fault() {
                    Some(fault) => error == KvDcRelayError::Build(fault),
                    None => error == KvDcRelayError::Build(
                        crate::config::CkfBuildError::AllocationFailed,
                    ) && build_room_refused(config),
                },
            },
    {
        match DcCkfState::new(config) {
            Ok(state) => Ok(RelayActor { state, shutting_down: false }),
            Err(error) => Err(KvDcRelayError::from(error)),
        }
    }

    /// Whether the actor was told to shut down.
    pub fn is_shutting_down(&self) -> (shutting_down: bool)
        ensures
            shutting_down == self@.shutting_down,
    {
        self.shutting_down
    }

    /// Applies an event.
    pub fn apply_event(&mut self, event: RouterEvent) -> (reaction: ActorReaction)
        requires
            old(self).wf(),
        ensures
            final(self).wf(),
            old(self)@.may_apply(event, final(self)@.state, reaction),
            !reaction.rebuild,
            final(self)@.shutting_down == old(self)@.shutting_down,
    {
        let outcome = self.state.apply_event(event);
        let ghost model = outcome@;
        assert(old(self)@.state.may_apply(event, self@.state, model));
        let publication_boundary: bool = outcome.publication_boundary();
        let unknown_removals: usize = outcome.unknown_removals();
        let reply = match outcome.first_error() {
            Some(error) => ActorReply::Done(Err(KvDcRelayError::from(*error))),
            None => ActorReply::Done(Ok(())),
        };
        let publication = outcome.into_delta();
        let unchanged: bool = publication_boundary && publication.is_none();
        ActorReaction {
            reply,
            publication,
            unchanged,
            degraded_reset: false,
            unknown_removals,
            rebuild: false,
        }
    }

    /// Replaces everything that a member owns by what a dump names.
    pub fn replace_rank(
        &mut self,
        worker_id: WorkerId,
        dp_rank: DpRank,
        events: &Vec<RouterEvent>,
    ) -> (reaction: ActorReaction)
        requires
            old(self).wf(),
        ensures
            final(self).wf(),
            old(self)@.may_replace(
                WorkerWithDpRank { worker_id, dp_rank },
                events@,
                final(self)@.state,
                reaction,
            ),
            reaction.rebuild,
            final(self)@.shutting_down == old(self)@.shutting_down,
    {
        let hashes = match replacement_hashes(worker_id, dp_rank, events) {
            Ok(hashes) => hashes,
            Err(error) => {
                return ActorReaction::quiet(ActorReply::Done(Err(error))).rebuilding();
            },
        };
        match self.state.replace_rank(WorkerWithDpRank::new(worker_id, dp_rank), hashes) {
            Ok(delta) => ActorReaction::published(delta, false).rebuilding(),
            Err(error) => ActorReaction::quiet(
                ActorReply::Done(Err(KvDcRelayError::from(error))),
            ).rebuilding(),
        }
    }

    /// Carries out one command.
    pub fn handle(&mut self, command: ActorCommand) -> (reaction: ActorReaction)
        requires
            old(self).wf(),
        ensures
            final(self).wf(),
            old(self)@.may_handle(command, final(self)@, reaction),
            match reaction.reply {
                ActorReply::Stats(stats, _) => stats.memory.insertion_scratch_capacity
                    >= final(self).recorded_writes(),
                ActorReply::Snapshot(Ok(base)) => base.stats.memory.insertion_scratch_capacity
                    >= final(self).recorded_writes(),
                _ => true,
            },
    {
        match command {
            ActorCommand::Apply { event } => self.apply_event(event),
            ActorCommand::ReplaceRank { worker_id, dp_rank, events } => self.replace_rank(
                worker_id,
                dp_rank,
                &events,
            ),
            ActorCommand::RemoveRank { worker_id, dp_rank, degraded } => {
                match self.state.remove_rank(WorkerWithDpRank::new(worker_id, dp_rank)) {
                    Ok(delta) => ActorReaction::published(delta, degraded),
                    Err(error) => ActorReaction::quiet(
                        ActorReply::Done(Err(KvDcRelayError::from(error))),
                    ),
                }
            },
            ActorCommand::RemoveWorker { worker_id } => match self.state.remove_worker(worker_id) {
                Ok(delta) => ActorReaction::published(delta, false),
                Err(error) => ActorReaction::quiet(
                    ActorReply::Done(Err(KvDcRelayError::from(error))),
                ),
            },
            ActorCommand::Flush => {
                let delta = self.state.flush();
                ActorReaction::published(delta, false)
            },
            ActorCommand::Snapshot => match self.state.snapshot() {
                Ok((delta, snapshot)) => {
                    let stats = self.state.stats();
                    ActorReaction {
                        reply: ActorReply::Snapshot(Ok(ActorSnapshot { snapshot, stats })),
                        publication: delta,
                        unchanged: false,
                        degraded_reset: false,
                        unknown_removals: 0,
                        rebuild: false,
                    }
                },
                Err(error) => ActorReaction::quiet(
                    ActorReply::Snapshot(Err(KvDcRelayError::from(error))),
                ),
            },
            ActorCommand::Subscribe => match self.state.snapshot() {
                Ok((delta, snapshot)) => ActorReaction {
                    reply: ActorReply::Subscribed(Ok(snapshot)),
                    publication: delta,
                    unchanged: false,
                    degraded_reset: false,
                    unknown_removals: 0,
                    rebuild: false,
                },
                Err(error) => ActorReaction::quiet(
                    ActorReply::Subscribed(Err(KvDcRelayError::from(error))),
                ),
            },
            ActorCommand::Stats => ActorReaction::quiet(
                ActorReply::Stats(self.state.stats(), self.state.member_counts()),
            ),
            ActorCommand::Shutdown => {
                if self.shutting_down {
                    ActorReaction::quiet(ActorReply::Done(Err(KvDcRelayError::ShuttingDown)))
                } else {
                    self.shutting_down = true;
                    ActorReaction::quiet(ActorReply::Deferred)
                }
            },
        }
    }

    /// Publishes what is left when the mailbox is closed and empty. The reply
    /// is the deferred one, if shutdown was asked for.
    pub fn finish(&mut self) -> (reaction: ActorReaction)
        requires
            old(self).wf(),
        ensures
            final(self).wf(),
            (final(self)@.state, delta_model(reaction.publication))
                == old(self)@.state.drained(),
            final(self)@.shutting_down == old(self)@.shutting_down,
            reaction.reply == ActorReply::Done(Ok(())),
            !reaction.unchanged,
            !reaction.degraded_reset,
            reaction.unknown_removals == 0,
            !reaction.rebuild,
    {
        let publication = self.state.flush();
        ActorReaction {
            reply: ActorReply::Done(Ok(())),
            publication,
            unchanged: false,
            degraded_reset: false,
            unknown_removals: 0,
            rebuild: false,
        }
    }
}

} // verus!
