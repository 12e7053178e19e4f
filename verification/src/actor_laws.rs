//! What holds of a relay as a whole.
use crate::actor::{ActorCommand, ActorModel, ActorReaction};
use crate::publication::{DcCkfSnapshot, DeltaModel};
use vstd::prelude::*;
#[allow(unused_imports)]
use crate::actor::{delivered_to, ActorReply};
#[allow(unused_imports)]
use crate::laws::{
    continues, law_delta_brings_reader_up_to_date, law_deltas_chain, law_reader_follows_outcome,
    law_reader_follows_rank_removal, law_reader_follows_replacement,
    law_reader_follows_worker_removal, read, sequence_after,
};
#[allow(unused_imports)]
use crate::protocol::{law_member_keys_order_members, WorkerWithDpRank};
#[allow(unused_imports)]
use crate::publication::{delta_model, OutcomeModel};
#[allow(unused_imports)]
use crate::relay::{dump_hashes, lemma_dump_hashes_finite, KvDcRelayError};
#[allow(unused_imports)]
use crate::runs::{is_chain, lane_after, sequence_at_end};

verus! {

/// A subscriber that applies what a command publishes stays in step with the
/// actor, in content and in sequence; and a base that is handed out is what
/// subscribers have seen by then.
pub proof fn law_subscriber_follows_command(
    before: ActorModel,
    command: ActorCommand,
    after: ActorModel,
    reaction: ActorReaction,
)
    requires
        before.state.inv(),
        before.may_handle(command, after, reaction),
    ensures
        after.state.inv(),
        read(before.state.published(), delta_model(reaction.publication))
            == after.state.published(),
        continues(before.state.sequence, delta_model(reaction.publication)),
        after.state.sequence == sequence_after(
            before.state.sequence,
            delta_model(reaction.publication),
        ),
        match reaction.reply {
            ActorReply::Snapshot(Ok(base)) => is_base(base.snapshot, after),
            ActorReply::Subscribed(Ok(snapshot)) => is_base(snapshot, after),
            _ => true,
        },
{
    let state = before.state;
    state.lemma_drained();
    law_delta_brings_reader_up_to_date(state);
    law_deltas_chain(state);
    match command {
        ActorCommand::Apply { event } => {
            let outcome = choose|outcome: OutcomeModel|
                {
                    &&& #[trigger] state.may_apply(event, after.state, outcome)
                    &&& delta_model(reaction.publication) == outcome.delta
                };
            law_reader_follows_outcome(state, event, after.state, outcome);
        },
        ActorCommand::ReplaceRank { worker_id, dp_rank, events } => {
            let worker = WorkerWithDpRank { worker_id, dp_rank };
            law_member_keys_order_members(worker, worker);
            lemma_dump_hashes_finite(events@);
            if let ActorReply::Done(Ok(())) = reaction.reply {
                law_reader_follows_replacement(
                    state,
                    worker.spec_key(),
                    dump_hashes(events@),
                    after.state,
                    Ok(delta_model(reaction.publication)),
                );
            }
        },
        ActorCommand::RemoveRank { worker_id, dp_rank, .. } => {
            let key = (WorkerWithDpRank { worker_id, dp_rank }).spec_key();
            if let ActorReply::Done(Ok(())) = reaction.reply {
                law_reader_follows_rank_removal(
                    state,
                    key,
                    after.state,
                    Ok(delta_model(reaction.publication)),
                );
            }
        },
        ActorCommand::RemoveWorker { worker_id } => {
            match reaction.reply {
                ActorReply::Done(Ok(())) => {
                    law_reader_follows_worker_removal(
                        state,
                        worker_id,
                        after.state,
                        Ok(delta_model(reaction.publication)),
                    );
                },
                ActorReply::Done(Err(KvDcRelayError::Event(error))) => {
                    law_reader_follows_worker_removal(state, worker_id, after.state, Err(error));
                },
                _ => {},
            }
        },
        _ => {},
    }
}

/// Whether a snapshot is what subscribers of an actor have seen.
pub open spec fn is_base(snapshot: DcCkfSnapshot, actor: ActorModel) -> bool {
    &&& snapshot@.buckets == actor.state.published()
    &&& snapshot@.sequence == actor.state.sequence
}

/// One command with what it led to.
pub struct Step {
    pub command: ActorCommand,
    pub after: ActorModel,
    pub reaction: ActorReaction,
}

/// The actor after some commands.
pub open spec fn actor_after(start: ActorModel, steps: Seq<Step>) -> ActorModel {
    if steps.len() == 0 {
        start
    } else {
        steps.last().after
    }
}

/// Whether an actor may go through some commands one after the other.
pub open spec fn may_run(start: ActorModel, steps: Seq<Step>) -> bool
    decreases steps.len(),
{
    if steps.len() == 0 {
        true
    } else {
        may_run(start, steps.drop_last()) && actor_after(start, steps.drop_last()).may_handle(
            steps.last().command,
            steps.last().after,
            steps.last().reaction,
        )
    }
}

/// What some commands published, in order, with nothing for those that
/// published nothing.
pub open spec fn publications(steps: Seq<Step>) -> Seq<Option<DeltaModel>> {
    steps.map_values(|step: Step| delta_model(step.reaction.publication))
}

/// Over any run of commands, a subscriber that takes every delta has what was
/// last published; every delta continues where the one before it ended; and
/// nothing but deltas moves the sequence.
pub proof fn law_subscriber_follows_run(start: ActorModel, steps: Seq<Step>)
    requires
        start.state.inv(),
        may_run(start, steps),
    ensures
        ({
            let end = actor_after(start, steps);
            let deltas = publications(steps);
            &&& end.state.inv()
            &&& lane_after(start.state.published(), deltas) == end.state.published()
            &&& is_chain(start.state.sequence, deltas)
            &&& sequence_at_end(start.state.sequence, deltas) == end.state.sequence
        }),
    decreases steps.len(),
{
    if steps.len() > 0 {
        law_subscriber_follows_run(start, steps.drop_last());
        law_subscriber_follows_command(
            actor_after(start, steps.drop_last()),
            steps.last().command,
            steps.last().after,
            steps.last().reaction,
        );
        assert(publications(steps).drop_last() =~= publications(steps.drop_last()));
        assert(publications(steps).last() == delta_model(steps.last().reaction.publication));
    }
}

/// A subscription joins without a gap. Changes that were pending go as one
/// delta to the earlier subscribers, and are in the new one's snapshot. From
/// then on the deltas continue the snapshot's sequence one after the other and
/// rebuild the published lane from its buckets. What is still unpublished at
/// the end is one last delta, after which a subscriber has the actor's lane
/// byte for byte.
pub proof fn law_subscription_joins_without_a_gap(
    start: ActorModel,
    joined: Step,
    snapshot: DcCkfSnapshot,
    steps: Seq<Step>,
)
    requires
        start.state.inv(),
        joined.command is Subscribe,
        start.may_handle(joined.command, joined.after, joined.reaction),
        joined.reaction.reply == ActorReply::Subscribed(Ok(snapshot)),
        may_run(joined.after, steps),
    ensures
        ({
            let end = actor_after(joined.after, steps);
            let last = end.state.drained().1;
            let deltas = publications(steps);
            &&& delta_model(joined.reaction.publication) == start.state.drained().1
            &&& snapshot@.buckets == start.state.lane
            &&& is_chain(snapshot@.sequence, deltas.push(last))
            &&& sequence_at_end(snapshot@.sequence, deltas) == end.state.sequence
            &&& lane_after(snapshot@.buckets, deltas) == end.state.published()
            &&& lane_after(snapshot@.buckets, deltas.push(last)) == end.state.lane
        }),
{
    let end = actor_after(joined.after, steps);
    let last = end.state.drained().1;
    let deltas = publications(steps);
    start.state.lemma_drained();
    law_subscriber_follows_command(start, joined.command, joined.after, joined.reaction);
    law_subscriber_follows_run(joined.after, steps);
    law_delta_brings_reader_up_to_date(end.state);
    law_deltas_chain(end.state);
    assert(deltas.push(last).drop_last() =~= deltas);
}

/// Shutdown is final: the first request is answered last, every later one is
/// refused, and commands that were accepted in between are carried out.
pub proof fn law_shutdown_is_final(
    start: ActorModel,
    first: Step,
    steps: Seq<Step>,
    again: Step,
)
    requires
        start.may_handle(first.command, first.after, first.reaction),
        first.command is Shutdown,
        may_run(first.after, steps),
        actor_after(first.after, steps).may_handle(again.command, again.after, again.reaction),
        again.command is Shutdown,
    ensures
        actor_after(first.after, steps).shutting_down,
        again.reaction.reply == ActorReply::Done(Err(KvDcRelayError::ShuttingDown)),
        !start.shutting_down ==> first.reaction.reply == ActorReply::Deferred,
{
    if steps.len() > 0 {
        lemma_stays_shutting_down(first.after, steps);
    }
}

/// An actor that shuts down keeps shutting down.
proof fn lemma_stays_shutting_down(start: ActorModel, steps: Seq<Step>)
    requires
        start.shutting_down,
        may_run(start, steps),
    ensures
        actor_after(start, steps).shutting_down,
    decreases steps.len(),
{
    if steps.len() > 0 {
        lemma_stays_shutting_down(start, steps.drop_last());
    }
}

/// A subscriber is kept exactly if it took what was sent to it.
pub proof fn law_kept_subscribers_missed_nothing<T>(
    subscribers: Seq<T>,
    delivered: Seq<bool>,
    subscriber: T,
)
    requires
        delivered.len() == subscribers.len(),
    ensures
        delivered_to(subscribers, delivered).contains(subscriber) <==> exists|i: int|
            0 <= i < subscribers.len() && #[trigger] subscribers[i] == subscriber && delivered[i],
        delivered_to(subscribers, delivered).len() <= subscribers.len(),
    decreases subscribers.len(),
{
    if subscribers.len() > 0 {
        let rest = subscribers.drop_last();
        let part = delivered_to(rest, delivered.drop_last());
        law_kept_subscribers_missed_nothing(rest, delivered.drop_last(), subscriber);
        lemma_delivered_prefix(rest, delivered.drop_last(), delivered);
        vstd::seq_lib::lemma_seq_contains_after_push(part, subscribers.last(), subscriber);
        let last = subscribers.len() - 1;
        if exists|i: int|
            0 <= i < subscribers.len() && #[trigger] subscribers[i] == subscriber && delivered[i] {
            let i = choose|i: int|
                0 <= i < subscribers.len() && #[trigger] subscribers[i] == subscriber
                    && delivered[i];
            if i < last {
                assert(rest[i] == subscriber && delivered.drop_last()[i]);
            }
        }
        if part.contains(subscriber) {
            let i = choose|i: int|
                0 <= i < rest.len() && #[trigger] rest[i] == subscriber && delivered.drop_last()[i];
            assert(subscribers[i] == subscriber && delivered[i]);
        }
        if delivered[last] && subscribers.last() == subscriber {
            assert(subscribers[last] == subscriber);
        }
    }
}

/// Only the outcomes for the subscribers at hand matter.
proof fn lemma_delivered_prefix<T>(
    subscribers: Seq<T>,
    delivered: Seq<bool>,
    others: Seq<bool>,
)
    requires
        forall|i: int| 0 <= i < subscribers.len() ==> #[trigger] delivered[i] == others[i],
    ensures
        delivered_to(subscribers, delivered) == delivered_to(subscribers, others),
    decreases subscribers.len(),
{
    if subscribers.len() > 0 {
        lemma_delivered_prefix(subscribers.drop_last(), delivered, others);
        assert(delivered[subscribers.len() - 1] == others[subscribers.len() - 1]);
    }
}

} // verus!
