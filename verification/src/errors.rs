use vstd::prelude::*;

verus! {

/// Strict failure of the low-level store decoder. The tolerant `load`
/// policy maps it to an empty task list; it is public so that the policy
/// stays a visible, testable choice.
#[derive(Clone, Copy, Debug, PartialEq, Eq, Structural)]
pub enum DecodeError {
    /// The text is not a well-formed store document.
    Malformed,
}

/// Failure to write the task list back to its store. Surfaced to the
/// caller and aborts the invoking command; never silently swallowed.
#[derive(Clone, Copy, Debug, PartialEq, Eq, Structural)]
pub enum PersistenceError {
    WriteFailed,
}

/// Failure to resolve a writable per-user configuration location.
/// Both variants are fatal for the invoking command.
#[derive(Clone, Copy, Debug, PartialEq, Eq, Structural)]
pub enum LocatorError {
    /// The platform supplies no configuration directory.
    DirectoryUnavailable,
    /// The configuration directory could not be created.
    DirectoryCreationFailed,
}

/// Failure of the backup operation.
#[derive(Clone, Copy, Debug, PartialEq, Eq, Structural)]
pub enum BackupError {
    /// There is no store file to copy: nothing has ever been saved.
    SourceMissing,
}

/// Failure of the restore operation.
#[derive(Clone, Copy, Debug, PartialEq, Eq, Structural)]
pub enum RestoreError {
    /// The named backup does not exist.
    SourceMissing,
}

} // verus!
