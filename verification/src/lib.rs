//! A rule-governance engine: a guardrail/rule catalog, a neuron stake
//! registry, and a time-boxed, majority-vote proposal state machine.
//!
//! The engine itself is pure state: every operation takes the current time
//! and any outside-world responses as arguments, and hands back the relay
//! calls that a driver must perform.

pub mod assoc;
pub mod catalog;
pub mod errors;
pub mod identifier;
pub mod principal;
pub mod registry;
pub mod relay;
pub mod voting;
