//! Causal-clock verification for a linear multi-stage pipeline.
//!
//! A workflow is an ordered chain of named stages. Independent compute nodes
//! run the stages and attach a clock value per completed stage; any observer
//! can then check, without re-running any computation, that a candidate stage
//! message or final result is causally consistent with the declared chain.

use vstd::prelude::*;

pub mod chain;
mod clock;
mod context;
mod message;

pub use message::{
    lemma_start_always_verifies, lemma_verify_idempotent, seq_get, spec_authentic,
    spec_chain_check, spec_chain_from, spec_source_before, stage_source_of, ClockMap, StageSource,
    TaskResult, TaskStage, Workflow,
};

pub use context::{
    pred_clocks, ClockClientContext, ClockContext, OrdinaryClientContext, OrdinaryContext,
};

pub use clock::{
    count_max, lemma_genesis_precedes, lemma_partial_cmp_antisymmetric,
    lemma_partial_cmp_reflexive, max_count, seq_count, OrdinaryClock,
};

verus! {

/// Identifies a compute node that may contribute causal history.
pub type NodeId = u32;

/// Correlates all messages belonging to one pipeline run; chosen at random by
/// the originator, so uniqueness is probabilistic, not guaranteed.
pub type TaskId = u32;

/// Why a candidate stage message or task result was rejected.
#[derive(Clone, Copy, Debug, PartialEq, Eq, Structural)]
pub enum VerificationError {
    /// A required stage entry is absent from the clocks map.
    MissingClock,
    /// A successor clock fails to compare strictly after its predecessor.
    CausalityViolation,
    /// The terminal clock/output pair fails context verification.
    AuthenticityFailure,
}

/// Why a `prove` call could not produce a clock.
#[derive(Clone, Copy, Debug, PartialEq, Eq, Structural)]
pub enum ProofError {
    /// A predecessor already carries the largest representable count for the
    /// producing node, so the self-increment would not fit.
    CounterOverflow,
    /// The clock of the declared prior stage is absent from the clocks map,
    /// so no predecessor pair can be assembled.
    MissingPredecessor,
}

} // verus!
