//! The failures that end an invocation.

use vstd::prelude::*;

verus! {

/// Why an operation on the command store failed.
#[derive(Debug, Clone, Copy, PartialEq, Eq, Structural)]
pub enum KeepError {
    /// The per-user configuration directory cannot be found.
    ConfigDirUnavailable,
    /// The stored file exists but does not hold a command store.
    StoreCorrupt,
    /// The store's directory or file could not be written.
    StoreWriteFailed,
    /// A new command was given as the empty text.
    EmptyCommandText,
    /// The editor for bulk editing could not be started.
    EditorLaunchFailed,
    /// The editor for bulk editing exited with a failure status.
    EditorNonZeroExit,
    /// An executed command exited with a failure status.
    ShellNonZeroExit,
}

} // verus!
