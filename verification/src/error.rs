//! The ways in which the collector can be misused.

use vstd::prelude::*;

verus! {

/// Misuse of the collector interface, reported to the caller that builds the
/// tree as soon as it happens.
#[derive(Clone, Copy, Debug, PartialEq, Eq, Structural)]
pub enum CollectorError {
    /// A builder or a file was frozen a second time without a reset in between.
    AlreadyCollected,
    /// A reset was asked of a builder that does not stand for a whole file.
    InvalidReset,
    /// A label names none of the four lifecycle hooks.
    InvalidHookKind,
    /// A label names none of the four modes.
    InvalidModeValue,
}

impl CollectorError {
    /// A short sentence for the user, one per kind of misuse.
    pub fn message(&self) -> (text: &'static str)
        ensures
            text@ == match *self {
                CollectorError::AlreadyCollected => "collector node has been already collected"@,
                CollectorError::InvalidReset => "resetting state is only allowed on a file level collector"@,
                CollectorError::InvalidHookKind => "wrong lifetime hook method"@,
                CollectorError::InvalidModeValue => "invalid collector run mode"@,
            },
    {
        match self {
            CollectorError::AlreadyCollected => "collector node has been already collected",
            CollectorError::InvalidReset => "resetting state is only allowed on a file level collector",
            CollectorError::InvalidHookKind => "wrong lifetime hook method",
            CollectorError::InvalidModeValue => "invalid collector run mode",
        }
    }
}

} // verus!
