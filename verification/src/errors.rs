//! The error taxonomy of the governance engine.
//!
//! Validation errors are detected before any relay side effect; relay faults
//! carry the external tool's message verbatim; the remaining variants are
//! terminal, per-operation errors.

use vstd::prelude::*;

verus! {

/// A request was rejected before any external side effect took place.
#[derive(Clone, PartialEq, Eq, Structural, Debug)]
pub enum ValidationError {
    /// A bounded string field exceeded its maximum byte length.
    FieldTooLong,
    /// The requested stake is below the minimum stake.
    InsufficientStake,
    /// The requested dissolve delay is below the minimum delay.
    DissolveDelayTooShort,
}

/// Why a governance relay invocation failed.
#[derive(Clone, PartialEq, Eq, Debug)]
pub enum RelayFault {
    /// The external tool exited with an error; its message is carried verbatim.
    Tool(String),
    /// The relay's response was valid JSON but held no neuron id.
    MissingNeuronId,
    /// The relay's response was not valid JSON.
    InvalidJson,
    /// The relay's response held no stake information.
    NoStakeInfo,
}

/// The error surface of every governance operation.
#[derive(Clone, PartialEq, Eq, Debug)]
pub enum GovernanceError {
    /// A field or an amount failed validation; no side effect occurred.
    Validation(ValidationError),
    /// The named guardrail does not exist.
    NotFound,
    /// The caller has no registered neuron.
    Unauthenticated,
    /// An external relay invocation failed.
    Relay(RelayFault),
    /// The vote arrived after the proposal's voting window elapsed.
    WindowClosed,
}

} // verus!
