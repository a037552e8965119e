//! Property/decider engine of a plasma settlement client: predicate trees,
//! their deciders, state updates and their wire codec.
pub mod codec;
pub mod crypto;
pub mod decider;
pub mod laws;
pub mod query;
pub mod state_update;
pub mod types;
