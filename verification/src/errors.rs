use vstd::prelude::*;

verus! {

/// The error taxonomy of the voting program.
///
/// Every precondition violation aborts the whole instruction with one of
/// these signals and no partial state change.
#[derive(Clone, Copy, Debug, PartialEq, Eq, Structural)]
pub enum CustomError {
    /// Creation was attempted where a record already exists.
    AddressCollision,
    /// A referenced record does not exist.
    NotFound,
    /// A text field exceeds its bound.
    ValidationError,
    /// The supplied poll identifier disagrees with the identifier stored in
    /// the target poll record.
    PollIdMismatch,
}

} // verus!
