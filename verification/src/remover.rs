//! The forced-remover policy: try the primary removal API, and on some
//! platforms fall back to the host's native forced-delete command.
//!
//! The primary directory-removal API can spuriously fail on some platforms
//! (open-handle contention, permission quirks), so a failed primary attempt
//! is followed by the platform fallback where one exists; an invocation of
//! the fallback that comes back at all is treated as success, its own exit
//! semantics being loosely checked by design.  Only a fallback that cannot
//! even be invoked — or a primary failure with no fallback — ends the
//! removal in an error.

use vstd::prelude::*;

use crate::errors::RemoveError;

verus! {

/// The states of one forced removal.
#[derive(Clone, Copy, Debug, PartialEq, Eq)]
pub enum RemoveState {
    /// Attempt the primary removal API (unlink for a file, recursive
    /// directory removal for a directory).
    Primary,
    /// The primary attempt failed: invoke the platform's forced-delete
    /// command.
    Fallback,
    /// The entry is gone (or the fallback was invoked and is trusted).
    Cleared,
    /// The removal failed.
    Stuck(RemoveError),
}

/// What the shell observed: did the attempted operation come back
/// successfully?  For the fallback this means the command was invoked, not
/// that it reported success.
#[derive(Clone, Copy, Debug, PartialEq, Eq)]
pub enum RemoveEvent {
    Attempted(bool),
}

/// The machine's transition function.  `has_fallback` says whether the
/// platform offers a forced-delete command at all.
pub open spec fn remove_next(has_fallback: bool, s: RemoveState, ev: RemoveEvent) -> RemoveState {
    match (s, ev) {
        (RemoveState::Primary, RemoveEvent::Attempted(ok)) => if ok {
            RemoveState::Cleared
        } else if has_fallback {
            RemoveState::Fallback
        } else {
            RemoveState::Stuck(RemoveError::PrimaryFailed)
        },
        (RemoveState::Fallback, RemoveEvent::Attempted(ok)) => if ok {
            RemoveState::Cleared
        } else {
            RemoveState::Stuck(RemoveError::Fatal)
        },
        (_, _) => s,
    }
}

/// The removal is over.
pub open spec fn remove_terminal(s: RemoveState) -> bool {
    s is Cleared || s is Stuck
}

/// Advance the removal on an observed event.
pub fn remove_step(has_fallback: bool, s: RemoveState, ev: RemoveEvent) -> (r: RemoveState)
    ensures
        r == remove_next(has_fallback, s, ev),
{
    match (s, ev) {
        (RemoveState::Primary, RemoveEvent::Attempted(ok)) => if ok {
            RemoveState::Cleared
        } else if has_fallback {
            RemoveState::Fallback
        } else {
            RemoveState::Stuck(RemoveError::PrimaryFailed)
        },
        (RemoveState::Fallback, RemoveEvent::Attempted(ok)) => if ok {
            RemoveState::Cleared
        } else {
            RemoveState::Stuck(RemoveError::Fatal)
        },
        (_, _) => s,
    }
}

/// The outcome of a terminal state, `None` while the removal still runs.
pub fn remove_outcome(s: &RemoveState) -> (r: Option<Result<(), RemoveError>>)
    ensures
        r == match *s {
            RemoveState::Cleared => Some(Result::<(), RemoveError>::Ok(())),
            RemoveState::Stuck(e) => Some(Result::<(), RemoveError>::Err(e)),
            _ => None::<Result<(), RemoveError>>,
        },
{
    match s {
        RemoveState::Cleared => Some(Ok(())),
        RemoveState::Stuck(e) => Some(Err(*e)),
        _ => None,
    }
}

/// A removal never gets stuck while the platform fallback can be invoked:
/// whatever the primary attempt did, at most two steps end in `Cleared`.
pub proof fn lemma_fallback_recovers(primary_ok: bool, fallback_invoked: bool)
    requires
        primary_ok || fallback_invoked,
    ensures
        remove_terminal(
            remove_next(
                true,
                remove_next(true, RemoveState::Primary, RemoveEvent::Attempted(primary_ok)),
                RemoveEvent::Attempted(fallback_invoked),
            ),
        ),
        remove_next(
            true,
            remove_next(true, RemoveState::Primary, RemoveEvent::Attempted(primary_ok)),
            RemoveEvent::Attempted(fallback_invoked),
        ) == RemoveState::Cleared,
{
}

} // verus!
