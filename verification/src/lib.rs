//! A self-scaling pool of capacity-tiered voice channels.
//!
//! The pool keeps, for every tier, the channels that currently belong to it,
//! and decides when a tier needs one more channel, when an empty channel may
//! go, and in which order the channels are displayed. Talking to the remote
//! platform is left to the caller: every function here takes plain values
//! and returns the next state together with what the caller should do.

pub mod tier;
pub mod channel;
pub mod order;
pub mod model;
pub mod pool;
pub mod laws;
pub mod events;
pub mod slowmode;
