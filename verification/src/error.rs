use vstd::prelude::*;

verus! {

/// Errors that can occur during the proving stage.
#[derive(Debug, Clone, Copy, PartialEq, Eq, Structural)]
pub enum ProvingError {
    /// Options out of range, a trace length that is no power of two, or a
    /// column count that does not match the declared one.
    ConfigError,
    /// A constraint refers to a column, challenge or hint that was not
    /// declared, or needs a degree above the composition bound.
    InvalidConstraint,
    /// A constraint does not vanish on the rows where it has to.
    DebugAssertionFailure,
    /// Any other failure of the proving pipeline.
    Fail,
}

} // verus!
