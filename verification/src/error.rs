//! The ways in which a verification can end without a verdict on the proof.

use vstd::prelude::*;

verus! {

/// Why an input was turned down, or that the proof did not verify.
///
/// The first four kinds are faults of the input. `VerificationFailed` is the
/// expected negative outcome on well-formed input.
#[derive(Clone, Copy, Debug, PartialEq, Eq, Structural)]
pub enum VerificationError {
    /// A buffer is not decimal text, or does not hold the fields that its place asks for.
    EncodingError,
    /// A decoded number is not below the modulus of its field.
    FieldRangeError,
    /// Coordinates that are neither on the curve and in the subgroup, nor the identity.
    InvalidPointError,
    /// The number of public inputs is not the number that the verifying key takes.
    PublicSignalLengthMismatch,
    /// The inputs are well formed and the pairing equation does not hold.
    VerificationFailed,
}

} // verus!
