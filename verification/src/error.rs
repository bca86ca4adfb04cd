//! The errors of the library.

use vstd::prelude::*;

verus! {

/// Why a raw string is no player identity.
#[derive(Debug, Clone, Copy, PartialEq, Eq, Structural)]
pub enum ValidationError {
    /// The text holds a character outside ASCII.
    InvalidEncoding,
    /// The text is ASCII but not 36 characters long.
    InvalidLength,
}

/// A failure of the data source.
#[derive(Debug, Clone, Copy, PartialEq, Eq, Structural)]
pub enum SourceError {
    /// The source could not be reached.
    Unavailable,
    /// The source answered with something that is no valid response.
    ProtocolError,
    /// A record came without the player it belongs to.
    MissingPlayerReference,
}

/// Why a request's data could not be aggregated.
#[derive(Debug, Clone, Copy, PartialEq, Eq, Structural)]
pub enum AggregationError {
    Source(SourceError),
    Validation(ValidationError),
}

/// Why an aggregate could not be rendered.
#[derive(Debug, Clone, Copy, PartialEq, Eq, Structural)]
pub enum RenderError {
    /// An identity has no string form.
    EncodingError,
}

} // verus!
