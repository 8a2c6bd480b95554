//! The error kinds the query core surfaces. All of them are terminal for the
//! call site; the core performs no automatic retry.

use vstd::prelude::*;

verus! {

/// Spec-level mirror of [`Error`], with string payloads as character
/// sequences.
pub ghost enum ErrorSpec {
    /// The planner was called with no cells.
    EmptyIndexes,
    /// The planner was called with cells of differing resolutions.
    MixedResolutions,
    /// A cell failed the H3 validity check.
    InvalidCell,
    /// No tableset resolution lies at or below the target resolution.
    NoQueryableTables,
    /// A templated query lacks the named placeholder.
    MissingQueryPlaceholder(Seq<char>),
    /// A database-side failure, with its detail text.
    DatabaseError(Seq<char>),
    /// A background task panicked or could not be joined.
    SchedulerFailure,
    /// A result handle was awaited a second time.
    HandleConsumed,
}

#[derive(Clone, Debug, PartialEq, Eq)]
pub enum Error {
    EmptyIndexes,
    MixedResolutions,
    InvalidCell,
    NoQueryableTables,
    MissingQueryPlaceholder(String),
    DatabaseError(String),
    SchedulerFailure,
    HandleConsumed,
}

impl View for Error {
    type V = ErrorSpec;

    open spec fn view(&self) -> ErrorSpec {
        match self {
            Error::EmptyIndexes => ErrorSpec::EmptyIndexes,
            Error::MixedResolutions => ErrorSpec::MixedResolutions,
            Error::InvalidCell => ErrorSpec::InvalidCell,
            Error::NoQueryableTables => ErrorSpec::NoQueryableTables,
            Error::MissingQueryPlaceholder(s) => ErrorSpec::MissingQueryPlaceholder(s@),
            Error::DatabaseError(s) => ErrorSpec::DatabaseError(s@),
            Error::SchedulerFailure => ErrorSpec::SchedulerFailure,
            Error::HandleConsumed => ErrorSpec::HandleConsumed,
        }
    }
}

} // verus!
