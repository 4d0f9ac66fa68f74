//! The mode that a suite or a task declares, and the state that a task is in.

use crate::error::CollectorError;
use vstd::prelude::*;
use vstd::string::*;

verus! {

/// Declared execution intent of a suite or of a task.
#[derive(Clone, Copy, Debug, PartialEq, Eq, Structural)]
pub enum CollectorMode {
    Run,
    Skip,
    Only,
    Todo,
}

impl Default for CollectorMode {
    fn default() -> (mode: Self)
        ensures
            mode == CollectorMode::Run,
    {
        CollectorMode::Run
    }
}

impl CollectorMode {
    /// The mode that a label stands for, if it stands for one.
    pub open spec fn of_label(label: Seq<char>) -> Option<CollectorMode> {
        if label == "run"@ {
            Some(CollectorMode::Run)
        } else if label == "skip"@ {
            Some(CollectorMode::Skip)
        } else if label == "only"@ {
            Some(CollectorMode::Only)
        } else if label == "todo"@ {
            Some(CollectorMode::Todo)
        } else {
            None
        }
    }

    /// Reads a mode from its label: `run`, `skip`, `only` or `todo`, in lower
    /// case. Any other label is refused with `InvalidModeValue`.
    pub fn from_label(value: String) -> (parsed: Result<CollectorMode, CollectorError>)
        ensures
            parsed == match Self::of_label(value@) {
                Some(mode) => Ok::<CollectorMode, CollectorError>(mode),
                None => Err(CollectorError::InvalidModeValue),
            },
    {
        if value == String::from_str("run") {
            Ok(CollectorMode::Run)
        } else if value == String::from_str("skip") {
            Ok(CollectorMode::Skip)
        } else if value == String::from_str("only") {
            Ok(CollectorMode::Only)
        } else if value == String::from_str("todo") {
            Ok(CollectorMode::Todo)
        } else {
            Err(CollectorError::InvalidModeValue)
        }
    }

    /// Whether a task in this mode has its callback invoked.
    pub open spec fn is_runnable(self) -> bool {
        self == CollectorMode::Run || self == CollectorMode::Only
    }

    /// Whether a task in this mode has its callback invoked.
    pub fn runnable(self) -> (yes: bool)
        ensures
            yes == self.is_runnable(),
    {
        match self {
            CollectorMode::Run => true,
            CollectorMode::Only => true,
            CollectorMode::Skip => false,
            CollectorMode::Todo => false,
        }
    }
}

/// Where a task stands: still as declared, passed, or failed with the error
/// that the engine reported.
#[derive(Debug)]
pub enum CollectorState {
    Custom(CollectorMode),
    Fail(String),
    Pass,
}

/// The mathematical value of a [`CollectorState`].
pub enum StateView {
    Custom(CollectorMode),
    Fail(Seq<char>),
    Pass,
}

impl View for CollectorState {
    type V = StateView;

    open spec fn view(&self) -> StateView {
        match *self {
            CollectorState::Custom(mode) => StateView::Custom(mode),
            CollectorState::Fail(error) => StateView::Fail(error@),
            CollectorState::Pass => StateView::Pass,
        }
    }
}

impl StateView {
    /// A task in this state was run to its end, whatever the verdict.
    pub open spec fn is_terminal(self) -> bool {
        self is Pass || self is Fail
    }
}

impl Clone for CollectorState {
    fn clone(&self) -> (copy: CollectorState)
        ensures
            copy@ == self@,
    {
        match self {
            CollectorState::Custom(mode) => CollectorState::Custom(*mode),
            CollectorState::Fail(error) => CollectorState::Fail(error.clone()),
            CollectorState::Pass => CollectorState::Pass,
        }
    }
}

} // verus!
