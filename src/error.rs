//! The ways in which a migration run can fail.

use vstd::prelude::*;

verus! {

/// Whether an invariant check ran before or after a step's transform.
#[derive(Clone, Copy, Debug, PartialEq, Eq, Structural)]
pub enum CheckPhase {
    Pre,
    Post,
}

/// An invariant that did not hold.
#[derive(Clone, Copy, Debug, PartialEq, Eq, Structural)]
pub enum Violation {
    /// A check of the step of `unit` from version `from` found under `key` a
    /// value other than the expected one.
    Check { unit: u64, from: u64, phase: CheckPhase, key: u64 },
    /// After a run, `unit` is recorded at `found` where its plan brings it to
    /// `expected`.
    Version { unit: u64, expected: u64, found: u64 },
    /// After a run, the parameter `key` holds `held` where `wanted` was asked.
    Value { key: u64, wanted: Option<u64>, held: Option<u64> },
}

#[derive(Clone, Copy, Debug, PartialEq, Eq, Structural)]
pub enum MigrationError {
    /// The store refused a write.
    WriteFailure,
    /// A version stamp was to be set to a value not above the recorded one.
    NonMonotonicVersion { unit: u64, current: u64, requested: u64 },
    /// A pre- or post-check found a value other than the expected one.
    InvariantViolation(Violation),
    /// A step's transform found data that it cannot transform: the key it
    /// reads from holds no value.
    StepFailure { unit: u64, from: u64, key: u64 },
}

} // verus!
