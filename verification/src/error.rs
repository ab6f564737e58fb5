//! What can stop a run.

use vstd::prelude::*;

verus! {

/// The reasons for which the library refuses an input.
#[derive(Debug, Clone, PartialEq, Eq)]
pub enum SplitError {
    /// The path has no extension (`found` is `None`) or one that is not
    /// recognised.
    InvalidExtension { found: Option<String> },
    /// The path is not valid Unicode text.
    InvalidEncoding,
    /// There is no source unit to scan.
    NoInputFound,
    /// A start boundary names a module that is already in the store.
    DuplicateModule(String),
    /// The boundary pattern could not be compiled.
    PatternRejected,
}

/// The mathematical value of a [`SplitError`].
pub enum Failure {
    InvalidExtension { found: Option<Seq<char>> },
    InvalidEncoding,
    NoInputFound,
    DuplicateModule(Seq<char>),
    PatternRejected,
}

impl View for SplitError {
    type V = Failure;

    open spec fn view(&self) -> Failure {
        match *self {
            SplitError::InvalidExtension { found } => Failure::InvalidExtension {
                found: match found {
                    Some(ext) => Some(ext@),
                    None => None,
                },
            },
            SplitError::InvalidEncoding => Failure::InvalidEncoding,
            SplitError::NoInputFound => Failure::NoInputFound,
            SplitError::DuplicateModule(name) => Failure::DuplicateModule(name@),
            SplitError::PatternRejected => Failure::PatternRejected,
        }
    }
}

} // verus!
