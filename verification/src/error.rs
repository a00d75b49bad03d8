//! The ways in which the execution of a circuit fails.

use vstd::prelude::*;

verus! {

/// Why an execution failed. Every failure is final: nothing is retried.
#[derive(Debug, PartialEq, Eq)]
pub enum ExecutionError {
    /// The circuit or a witness map handed in could not be read.
    Deserialization,
    /// Assigned values violate an arithmetic gate.
    UnsatisfiedConstraint,
    /// Solving stalled while opcodes other than foreign calls were left.
    UnresolvedConstraint,
    /// The circuit names a primitive that this engine does not know.
    UnsupportedBlackBoxFunction { name: String },
    /// The backend has no implementation of the primitive.
    UnimplementedBlackBoxFunction { name: String },
    /// The primitive rejected its inputs.
    BlackBoxFunctionFailed { name: String, reason: String },
    /// The resolver answered with the wrong number of values.
    ForeignCallOutputCountMismatch { name: String, expected: usize, actual: usize },
    /// The resolver answered with text that encodes no field element.
    MalformedForeignCallResult { name: String },
    /// A witness that has a value was offered a different one.
    WriteOnceViolation { witness: u32 },
    /// The resolver was asked more often than the limit allows.
    TooManyResolutionRounds,
}

} // verus!
