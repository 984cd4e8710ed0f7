//! Error taxonomy of the library.
//!
//! Every failure is terminal for the operation that raised it: nothing is
//! silently swallowed, and the caller decides how to report it.  The variants
//! identify the failed step; the shell that performed the filesystem action
//! owns the operating-system error text and the paths, and renders the
//! message.

use vstd::prelude::*;

verus! {

/// Failure of one link-creation run.
#[derive(Clone, Copy, Debug, PartialEq, Eq, Structural)]
pub enum LinkError {
    /// The source path does not exist.
    SourceMissing,
    /// Source and destination are the same path; linking would destroy the
    /// source, so the request is rejected outright.
    SourceEqualsDestination,
    /// Probing the destination for existence failed and `force` was off.
    ProbeFailed,
    /// The destination exists (as a file or a non-empty directory) and
    /// `force` was off.
    DestinationExists,
    /// A forced removal of the destination failed; without a clear
    /// destination no link can be placed.
    CleanupFailed,
    /// The platform link primitive failed.  `retried` tells whether the
    /// failure was on the single retry that force mode allows.
    LinkFailed { retried: bool },
}

/// Failure of a recursive move.
#[derive(Clone, Copy, Debug, PartialEq, Eq, Structural)]
pub enum MoveError {
    /// The atomic rename of a regular file was rejected by the OS.
    RenameFailed,
    /// The destination directory exists, is not empty, and `force` was off.
    DestinationNotEmpty,
    /// Creating the destination directory (or recreating it after a forced
    /// clear) failed.
    CreateDirFailed,
    /// Removing the non-empty destination directory under `force` failed.
    RemoveDirFailed,
    /// Moving one direct child of the source failed.
    ChildMoveFailed,
}

/// Failure of a forced removal.
#[derive(Clone, Copy, Debug, PartialEq, Eq, Structural)]
pub enum RemoveError {
    /// The primary removal API failed and no fallback strategy exists on
    /// this platform.
    PrimaryFailed,
    /// The primary removal API failed and the platform fallback could not
    /// even be invoked.
    Fatal,
}

/// Failure of the mapping codec.
#[derive(Clone, Copy, Debug, PartialEq, Eq, Structural)]
pub enum CodecError {
    /// Reading the mapping file failed.
    ReadFailed,
    /// Writing the mapping file failed.
    WriteFailed,
    /// The mapping file text is not a well-formed mapping document.
    ParseFailed,
}

} // verus!
