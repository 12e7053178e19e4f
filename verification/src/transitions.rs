//! What an operation may lead to, whatever the machine decides on the way: the
//! allocator what room it grants, hash tables in which order they hand out
//! their contents.
use crate::model::{Choices, DcCkfModel};
use crate::protocol::{KvCacheEventError, RouterEvent};
use crate::publication::{DcCkfDelta, DeltaModel, OutcomeModel};
use vstd::prelude::*;
#[allow(unused_imports)]
use crate::ownership::{
    is_ignored, members_after, members_of, with_replaced, without_worker,
};
#[allow(unused_imports)]
use crate::memory::listing_refused;
#[allow(unused_imports)]
use crate::model::build_room_refused;
#[allow(unused_imports)]
use crate::publication::delta_model;

verus! {

/// What an operation that may publish says.
pub open spec fn result_model(result: Result<Option<DcCkfDelta>, KvCacheEventError>) -> Result<
    Option<DeltaModel>,
    KvCacheEventError,
> {
    match result {
        Ok(delta) => Ok(delta_model(delta)),
        Err(error) => Err(error),
    }
}

impl DcCkfModel {
    /// What an event may lead to. Without an error, ownership is what the
    /// event says; ignored events and removals meet none.
    pub open spec fn may_apply(
        self,
        event: RouterEvent,
        after: Self,
        outcome: OutcomeModel,
    ) -> bool {
        &&& exists|choices: Choices| #[trigger]
            self.choices_fit(event, choices) && self.choices_answered(event, choices) && (
                after,
                outcome,
            ) == self.applied(event, choices)
        &&& outcome.first_error is None ==> after.members == members_after(self.members, event)
        &&& is_ignored(event) || event.event.data is Removed ==> outcome.first_error is None
    }

    /// What taking everything from one member may lead to: the member is gone
    /// and what changed is published, or there was such a member, the
    /// allocator refused the room to list its blocks, and nothing changed.
    pub open spec fn may_remove_rank(
        self,
        key: u128,
        after: Self,
        result: Result<Option<DeltaModel>, KvCacheEventError>,
    ) -> bool {
        match result {
            Ok(delta) => {
                &&& after.members == self.members.remove(key)
                &&& exists|sweep: Option<Seq<u64>>| #[trigger]
                    self.sweep_fits(key, sweep) && (after, delta) == self.swept(
                        key,
                        sweep,
                    ).0.drained()
            },
            Err(error) => {
                &&& error == KvCacheEventError::CapacityExhausted
                &&& self.members.contains_key(key)
                &&& listing_refused(self.members[key].len() as usize)
                &&& after == self
            },
        }
    }

    /// What taking everything from every member of a worker may lead to: they
    /// are gone and what changed is published, or the allocator refused the
    /// room to list one member's blocks, that member and those after it keep
    /// theirs, and nothing is published.
    pub open spec fn may_remove_worker(
        self,
        worker_id: u64,
        after: Self,
        result: Result<Option<DeltaModel>, KvCacheEventError>,
    ) -> bool {
        &&& exists|order: Seq<u128>, sweeps: Seq<Option<Seq<u64>>>|
            #![trigger self.sweeps_fit(worker_id, order, sweeps)]
            {
                let (swept, error) = self.swept_all(order.take(sweeps.len() as int), sweeps);
                &&& self.sweeps_fit(worker_id, order, sweeps)
                &&& self.sweeps_answered(order, sweeps)
                &&& forall|i: int| 0 <= i < sweeps.len() - 1 ==> (#[trigger] sweeps[i]) is Some
                &&& match result {
                    Ok(delta) => error is None && sweeps.len() == order.len() && (after, delta)
                        == swept.drained(),
                    Err(refused) => error == Some(refused) && after == swept,
                }
            }
        &&& match result {
            Ok(_) => after.members == without_worker(self.members, worker_id),
            Err(error) => error == KvCacheEventError::CapacityExhausted && !members_of(
                self.members,
                worker_id,
            ).is_empty(),
        }
    }

    /// What replacing everything that a member owns may lead to: the member
    /// owns the new blocks and what changed is published, or the allocator or
    /// the new lane refused, and nothing changed.
    pub open spec fn may_replace_rank(
        self,
        key: u128,
        hashes: Set<u64>,
        after: Self,
        result: Result<Option<DeltaModel>, KvCacheEventError>,
    ) -> bool {
        match result {
            Ok(delta) => {
                &&& after.members == with_replaced(self.members, key, hashes)
                &&& exists|pairs: Seq<(u128, u64)>, grants: Seq<bool>, rebuilt: Self| #[trigger]
                    self.is_accepted(key, hashes, pairs, grants, rebuilt) && (after, delta)
                        == self.replaced_by(rebuilt).drained()
            },
            Err(error) => {
                &&& after == self
                &&& (error == KvCacheEventError::CapacityExhausted && build_room_refused(
                    self.config,
                )) || exists|pairs: Seq<(u128, u64)>, grants: Seq<bool>| #[trigger]
                    self.is_refused(key, hashes, pairs, grants, error)
            },
        }
    }
}

} // verus!
