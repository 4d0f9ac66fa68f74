//! The execution core of a test runner.
//!
//! A test file registers suites, tasks and lifecycle hooks while a script
//! engine evaluates it. The [`collector`] holds what was registered and
//! freezes it, once, into a tree; [`context`] keeps the builders of one file
//! together while the file is evaluated. The [`plan`] lays out every
//! invocation of a run of a frozen file, in order, and the [`scheduler`]
//! goes through that plan one invocation at a time, leaving the invocations
//! themselves to its driver. The [`reporter`] sorts the tasks of the files
//! that were run into classes, and the [`runner`] selects the files to run.

pub mod collector;
pub mod context;
pub mod error;
pub mod hooks;
pub mod mode;
pub mod plan;
pub mod reporter;
pub mod runner;
pub mod scheduler;
