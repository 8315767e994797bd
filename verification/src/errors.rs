//! The error taxonomy of the engine. Every failure of an edit, of request
//! construction, or of loading the initial grid is one of these variants.

use vstd::prelude::*;

verus! {

/// Why an edit or a load was rejected.
#[derive(Clone, Copy, Debug, PartialEq, Eq, Structural)]
pub enum EditError {
    /// The target cell holds a clue from the initial grid and is immutable.
    ImmutableClue,
    /// A 1-indexed row or column was outside 1..=9.
    InvalidCoordinate,
    /// A requested value was outside 0..=9.
    InvalidValue,
    /// A target index was outside 0..=80.
    OutOfRange,
    /// The initial grid did not hold exactly 81 digits.
    MalformedInitialGrid,
}

} // verus!
