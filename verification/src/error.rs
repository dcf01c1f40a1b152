//! The failures that replay, reconciliation and file reading can report.

use vstd::prelude::*;

verus! {

/// Why an operation was abandoned. Every failure aborts the whole operation:
/// no function of this crate hands back a partial result next to an error.
#[derive(Debug, Clone, Copy, PartialEq, Eq, Structural)]
pub enum Error {
    /// A requested column is absent from a batch, or holds another type.
    SchemaMismatch,
    /// A row announces an action but a mandatory field of it is missing.
    MalformedAction,
    /// A log or data file could not be opened or read.
    UnreadableLog,
    /// The file is not addressable on the local file system.
    UnsupportedLocation,
    /// A referenced data file holds no batch at all.
    EmptyData,
}

impl Error {
    /// The text shown to a user for this failure.
    pub open spec fn spec_message(self) -> Seq<char> {
        match self {
            Error::SchemaMismatch => "didn't find all requested columns with the expected type"@,
            Error::MalformedAction => "a log action lacks a mandatory field"@,
            Error::UnreadableLog => "could not read a log or data file"@,
            Error::UnsupportedLocation => "can only read local files"@,
            Error::EmptyData => "No data found reading parquet file"@,
        }
    }

    /// Renders the failure as text.
    pub fn message(&self) -> (text: String)
        ensures
            text@ == self.spec_message(),
    {
        match self {
            Error::SchemaMismatch => String::from_str(
                "didn't find all requested columns with the expected type",
            ),
            Error::MalformedAction => String::from_str("a log action lacks a mandatory field"),
            Error::UnreadableLog => String::from_str("could not read a log or data file"),
            Error::UnsupportedLocation => String::from_str("can only read local files"),
            Error::EmptyData => String::from_str("No data found reading parquet file"),
        }
    }
}

} // verus!
