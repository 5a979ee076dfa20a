//! How reading a page fails, and how contracts speak of outcomes.

use vstd::prelude::*;

verus! {

/// Why a page could not be read. Every one of these aborts the reading of the
/// whole page.
#[derive(Debug, Clone, Copy, PartialEq, Eq, Structural)]
pub enum ParseError {
    /// A structural query did not compile.
    BadQuery,
    /// An element that the page must have is absent.
    MissingElement,
    /// An attribute that an element must have is absent.
    MissingAttribute,
    /// An element that must hold text holds none.
    MissingText,
    /// A fragment occurs more or less often than it must.
    Cardinality,
    /// A score is not an unsigned number.
    BadScore,
    /// The two teams of a game are both marked as winner, or neither is.
    NoSingleWinner,
}

/// An outcome is the one that a contract names: the same error, or a value
/// whose view is the named one.
pub open spec fn yields<T: View>(
    outcome: Result<T, ParseError>,
    named: Result<T::V, ParseError>,
) -> bool {
    match outcome {
        Ok(value) => named == Ok::<T::V, ParseError>(value@),
        Err(e) => named == Err::<T::V, ParseError>(e),
    }
}

/// As [`yields`], for a value that is viewed in depth.
pub open spec fn yields_deep<T: DeepView>(
    outcome: Result<T, ParseError>,
    named: Result<T::V, ParseError>,
) -> bool {
    match outcome {
        Ok(value) => named == Ok::<T::V, ParseError>(value.deep_view()),
        Err(e) => named == Err::<T::V, ParseError>(e),
    }
}

} // verus!
