//! The errors that the engine reports.

use vstd::prelude::*;

verus! {

/// Why an operation was refused.
#[derive(Clone, Copy, Debug, PartialEq, Eq, Structural)]
pub enum SonaError {
    /// A vector of the wrong dimension, a component, score or parameter
    /// out of range.
    InvalidInput,
    /// No trajectory was ever given this id.
    NotFound,
    /// The trajectory is closed already, a cycle is running already, or a
    /// counter is exhausted.
    InvalidState,
    /// No layer has this index.
    OutOfRange,
    /// A consolidation step left the range of the weights.
    Divergence,
    /// The engine is disabled.
    Disabled,
}

} // verus!
