//! Exact aggregation of the blocks that workers of one data center hold, and
//! publication of it as a cuckoo filter.
//!
//! [`state::DcCkfState`] keeps who owns which block and a filter lane over all
//! owned blocks. It publishes the lane as snapshots and as deltas of absolute
//! bucket images. [`actor::RelayActor`] serializes commands over one such
//! state. What holds of the two as a whole is proved in [`laws`], in
//! [`runs`] and in [`actor_laws`].
//!
//! What the parts are for is proved beside them: where fingerprints find a
//! place in [`placement`], what they tell of blocks in [`addressing_laws`],
//! what events do in [`event_laws`], what removing and replacing ranks does in
//! [`rank_laws`], what is counted and reported in [`counter_laws`] and
//! [`report_laws`], and what commands do in [`relay_laws`]. What a caller may
//! rely on, call by call, stands in [`call_laws`] and [`relay_call_laws`].
pub mod actor;
pub mod actor_laws;
pub mod addressing;
pub mod addressing_laws;
pub mod bucket;
pub mod call_laws;
pub mod census;
pub mod config;
pub mod counter_laws;
pub mod event_laws;
mod fx;
pub mod laws;
mod memory;
pub mod model;
pub mod mutator;
pub mod occupancy;
pub mod ownership;
pub mod placement;
pub mod protocol;
pub mod publication;
pub mod rank_laws;
pub mod relay;
pub mod relay_call_laws;
pub mod relay_laws;
pub mod replacement;
pub mod report_laws;
pub mod runs;
mod sorting;
pub mod state;
pub mod transitions;
pub mod upkeep;
pub mod window;
