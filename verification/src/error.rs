//! What can stop the decoder.

use vstd::prelude::*;

verus! {

/// Why the decoder stopped without a value.
///
/// `NeedMoreData` is a continuation signal: the bytes seen so far are the
/// beginning of a value and the rest has not arrived. Every other kind is
/// fatal for the protocol session, since the grammar offers no point at
/// which to resynchronise.
#[derive(Clone, Copy, Debug, PartialEq, Eq, Structural)]
pub enum Error {
    /// The window ends before the value is complete.
    NeedMoreData,
    /// A byte that the grammar does not allow at its place.
    MalformedGrammar,
    /// A payload that is not followed by its terminator where the declared
    /// length says it ends.
    LengthMismatch,
    /// A leading byte that names no type.
    UnknownTypeTag,
    /// Aggregates nested deeper than the configured limit.
    RecursionLimitExceeded,
    /// A declared payload length above the configured cap.
    PayloadTooLarge,
    /// A number outside the range of its field.
    NumericOverflow,
}

impl Error {
    /// Whether the session cannot go on after this.
    pub open spec fn fatal(self) -> bool {
        self != Error::NeedMoreData
    }

    /// Whether the session cannot go on after this.
    pub fn is_fatal(&self) -> (r: bool)
        ensures
            r == self.fatal(),
    {
        match self {
            Error::NeedMoreData => false,
            _ => true,
        }
    }
}

} // verus!
