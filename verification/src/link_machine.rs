//! The link-creation state machine.
//!
//! Creating a link is a short transaction against the filesystem: validate
//! the source, probe the destination, clear a conflicting destination when
//! policy allows, invoke the platform link primitive, and retry once after a
//! forced cleanup.  The machine holds every decision of that transaction; the
//! unverified shell only performs the action that the current state requests
//! and feeds the observed outcome back as an event.
//!
//! A request whose source and destination are the same path is rejected
//! outright with [`LinkError::SourceEqualsDestination`], before any
//! filesystem action: linking a path onto itself would destroy the source.

use vstd::prelude::*;

use crate::errors::LinkError;
use crate::fsmodel::{at_or_under, FsEntry, FsModel};

verus! {

/// One link operation as the shell hands it to the library.
#[derive(Clone, Debug)]
pub struct LinkRequest {
    /// Path the link will point at.
    pub src: Vec<u8>,
    /// Path at which the link is created.
    pub dst: Vec<u8>,
    /// Overwrite an existing destination and retry a failed link once.
    pub force: bool,
    /// Prefer a directory junction over a directory symlink where the
    /// platform distinguishes them.
    pub junction: bool,
}

/// The states of the link transaction.
#[derive(Clone, Copy, Debug, PartialEq, Eq)]
pub enum LinkState {
    /// Probe whether the source exists.
    ValidateSource,
    /// Probe whether the destination exists.
    CheckDestination,
    /// Without force: remove the destination only if it is an empty
    /// directory.
    ClearEmptyDir,
    /// With force: remove the destination unconditionally.
    ForcedClear,
    /// Invoke the platform link primitive, first attempt.
    CreateLink,
    /// With force, after a failed first attempt: remove destination residue.
    RetryClear,
    /// Invoke the platform link primitive, second and last attempt.
    RetryLink,
    /// The link stands.
    Done,
    /// The transaction failed; no further action is taken.
    Failed(LinkError),
}

/// What the shell observed when performing the requested action.
#[derive(Clone, Copy, Debug, PartialEq, Eq)]
pub enum LinkEvent {
    /// Outcome of probing the source.
    SourceExists(bool),
    /// Outcome of probing the destination: `Some(exists)`, or `None` when
    /// the probe itself failed.
    DestProbe(Option<bool>),
    /// Outcome of a removal: did the destination get removed?
    Removed(bool),
    /// Outcome of the platform link primitive.
    Linked(bool),
}

/// The filesystem action a non-terminal state requests.
#[derive(Clone, Copy, Debug, PartialEq, Eq, Structural)]
pub enum LinkAction {
    /// Probe existence of the source path.
    ProbeSource,
    /// Probe existence of the destination path.
    ProbeDestination,
    /// Remove the destination only if it is an empty directory.
    RemoveEmptyDir,
    /// Remove the destination, whatever it is, by force.
    ForceRemove,
    /// Invoke the platform link primitive, source to destination.
    MakeLink,
}

/// Which platform primitive realizes the link.
#[derive(Clone, Copy, Debug, PartialEq, Eq, Structural)]
pub enum LinkFlavor {
    /// A file symlink.
    FileSymlink,
    /// A directory symlink.
    DirSymlink,
    /// A directory junction.
    DirJunction,
}

/// Initial state of the transaction for the given request paths.
pub open spec fn link_start(src: Seq<u8>, dst: Seq<u8>) -> LinkState {
    if src == dst {
        LinkState::Failed(LinkError::SourceEqualsDestination)
    } else {
        LinkState::ValidateSource
    }
}

/// The action each state requests; `None` for the terminal states.
pub open spec fn link_action_of(s: LinkState) -> Option<LinkAction> {
    match s {
        LinkState::ValidateSource => Some(LinkAction::ProbeSource),
        LinkState::CheckDestination => Some(LinkAction::ProbeDestination),
        LinkState::ClearEmptyDir => Some(LinkAction::RemoveEmptyDir),
        LinkState::ForcedClear => Some(LinkAction::ForceRemove),
        LinkState::CreateLink => Some(LinkAction::MakeLink),
        LinkState::RetryClear => Some(LinkAction::ForceRemove),
        LinkState::RetryLink => Some(LinkAction::MakeLink),
        LinkState::Done => None,
        LinkState::Failed(_) => None,
    }
}

/// The machine's transition function.
///
/// A probe failure on the destination aborts without force but is treated as
/// "destination exists" with force: attempting the cleanup is safer than
/// skipping it.  A failed first link attempt is fatal without force; with
/// force the destination is cleared once more and the link is retried exactly
/// once.  A failed removal during either forced clear is
/// [`LinkError::CleanupFailed`]: with no clear destination there is no safe
/// linking.  An event that does not belong to the state changes nothing.
pub open spec fn link_next(force: bool, s: LinkState, ev: LinkEvent) -> LinkState {
    match (s, ev) {
        (LinkState::ValidateSource, LinkEvent::SourceExists(ok)) => if ok {
            LinkState::CheckDestination
        } else {
            LinkState::Failed(LinkError::SourceMissing)
        },
        (LinkState::CheckDestination, LinkEvent::DestProbe(probe)) => match probe {
            Some(true) => if force {
                LinkState::ForcedClear
            } else {
                LinkState::ClearEmptyDir
            },
            Some(false) => LinkState::CreateLink,
            None => if force {
                LinkState::ForcedClear
            } else {
                LinkState::Failed(LinkError::ProbeFailed)
            },
        },
        (LinkState::ClearEmptyDir, LinkEvent::Removed(ok)) => if ok {
            LinkState::CreateLink
        } else {
            LinkState::Failed(LinkError::DestinationExists)
        },
        (LinkState::ForcedClear, LinkEvent::Removed(ok)) => if ok {
            LinkState::CreateLink
        } else {
            LinkState::Failed(LinkError::CleanupFailed)
        },
        (LinkState::CreateLink, LinkEvent::Linked(ok)) => if ok {
            LinkState::Done
        } else if force {
            LinkState::RetryClear
        } else {
            LinkState::Failed(LinkError::LinkFailed { retried: false })
        },
        (LinkState::RetryClear, LinkEvent::Removed(ok)) => if ok {
            LinkState::RetryLink
        } else {
            LinkState::Failed(LinkError::CleanupFailed)
        },
        (LinkState::RetryLink, LinkEvent::Linked(ok)) => if ok {
            LinkState::Done
        } else {
            LinkState::Failed(LinkError::LinkFailed { retried: true })
        },
        (_, _) => s,
    }
}

/// The transaction is over.
pub open spec fn link_terminal(s: LinkState) -> bool {
    s is Done || s is Failed
}

/// Initial state for a request.
pub fn link_init(req: &LinkRequest) -> (s: LinkState)
    ensures
        s == link_start(req.src@, req.dst@),
{
    if crate::bytes::bytes_eq(&req.src, &req.dst) {
        LinkState::Failed(LinkError::SourceEqualsDestination)
    } else {
        LinkState::ValidateSource
    }
}

/// The action the current state requests, or `None` when terminal.
pub fn link_action(s: &LinkState) -> (a: Option<LinkAction>)
    ensures
        a == link_action_of(*s),
{
    match s {
        LinkState::ValidateSource => Some(LinkAction::ProbeSource),
        LinkState::CheckDestination => Some(LinkAction::ProbeDestination),
        LinkState::ClearEmptyDir => Some(LinkAction::RemoveEmptyDir),
        LinkState::ForcedClear => Some(LinkAction::ForceRemove),
        LinkState::CreateLink => Some(LinkAction::MakeLink),
        LinkState::RetryClear => Some(LinkAction::ForceRemove),
        LinkState::RetryLink => Some(LinkAction::MakeLink),
        LinkState::Done => None,
        LinkState::Failed(_) => None,
    }
}

/// Advance the machine on an observed event.
pub fn link_step(force: bool, s: LinkState, ev: LinkEvent) -> (r: LinkState)
    ensures
        r == link_next(force, s, ev),
{
    match (s, ev) {
        (LinkState::ValidateSource, LinkEvent::SourceExists(ok)) => if ok {
            LinkState::CheckDestination
        } else {
            LinkState::Failed(LinkError::SourceMissing)
        },
        (LinkState::CheckDestination, LinkEvent::DestProbe(probe)) => match probe {
            Some(true) => if force {
                LinkState::ForcedClear
            } else {
                LinkState::ClearEmptyDir
            },
            Some(false) => LinkState::CreateLink,
            None => if force {
                LinkState::ForcedClear
            } else {
                LinkState::Failed(LinkError::ProbeFailed)
            },
        },
        (LinkState::ClearEmptyDir, LinkEvent::Removed(ok)) => if ok {
            LinkState::CreateLink
        } else {
            LinkState::Failed(LinkError::DestinationExists)
        },
        (LinkState::ForcedClear, LinkEvent::Removed(ok)) => if ok {
            LinkState::CreateLink
        } else {
            LinkState::Failed(LinkError::CleanupFailed)
        },
        (LinkState::CreateLink, LinkEvent::Linked(ok)) => if ok {
            LinkState::Done
        } else if force {
            LinkState::RetryClear
        } else {
            LinkState::Failed(LinkError::LinkFailed { retried: false })
        },
        (LinkState::RetryClear, LinkEvent::Removed(ok)) => if ok {
            LinkState::RetryLink
        } else {
            LinkState::Failed(LinkError::CleanupFailed)
        },
        (LinkState::RetryLink, LinkEvent::Linked(ok)) => if ok {
            LinkState::Done
        } else {
            LinkState::Failed(LinkError::LinkFailed { retried: true })
        },
        (_, _) => s,
    }
}

/// The outcome of a terminal state, `None` while the machine still runs.
pub fn link_outcome(s: &LinkState) -> (r: Option<Result<(), LinkError>>)
    ensures
        r == match *s {
            LinkState::Done => Some(Result::<(), LinkError>::Ok(())),
            LinkState::Failed(e) => Some(Result::<(), LinkError>::Err(e)),
            _ => None::<Result<(), LinkError>>,
        },
{
    match s {
        LinkState::Done => Some(Ok(())),
        LinkState::Failed(e) => Some(Err(*e)),
        _ => None,
    }
}

/// Which primitive the `MakeLink` action means.
pub open spec fn flavor_of(source_is_dir: bool, use_junction: bool) -> LinkFlavor {
    if source_is_dir {
        if use_junction {
            LinkFlavor::DirJunction
        } else {
            LinkFlavor::DirSymlink
        }
    } else {
        LinkFlavor::FileSymlink
    }
}

/// Pick the platform primitive for a source of the given kind.  Platforms
/// without junctions or without a file/directory distinction collapse the
/// flavors into a plain symlink.
pub fn link_flavor(source_is_dir: bool, use_junction: bool) -> (f: LinkFlavor)
    ensures
        f == flavor_of(source_is_dir, use_junction),
{
    if source_is_dir {
        if use_junction {
            LinkFlavor::DirJunction
        } else {
            LinkFlavor::DirSymlink
        }
    } else {
        LinkFlavor::FileSymlink
    }
}

// ---------------------------------------------------------------------------
// The machine run against the well-behaved filesystem model.
// ---------------------------------------------------------------------------

/// The event a well-behaved filesystem answers to the action of state `s`:
/// probes answer truthfully, the narrow empty-directory removal succeeds
/// exactly on an empty directory, forced removal always succeeds, and the
/// link primitive succeeds exactly when the destination path is free.
pub open spec fn fs_respond(fs: FsModel, src: Seq<u8>, dst: Seq<u8>, s: LinkState) -> LinkEvent {
    match s {
        LinkState::ValidateSource => LinkEvent::SourceExists(fs.exists_at(src)),
        LinkState::CheckDestination => LinkEvent::DestProbe(Some(fs.exists_at(dst))),
        LinkState::ClearEmptyDir => LinkEvent::Removed(fs.is_empty_dir(dst)),
        LinkState::ForcedClear => LinkEvent::Removed(true),
        LinkState::RetryClear => LinkEvent::Removed(true),
        LinkState::CreateLink => LinkEvent::Linked(!fs.exists_at(dst)),
        LinkState::RetryLink => LinkEvent::Linked(!fs.exists_at(dst)),
        _ => LinkEvent::Linked(false),
    }
}

/// The change a well-behaved filesystem undergoes for the action of state
/// `s`.
pub open spec fn fs_perform(fs: FsModel, src: Seq<u8>, dst: Seq<u8>, s: LinkState) -> FsModel {
    match s {
        LinkState::ClearEmptyDir => if fs.is_empty_dir(dst) {
            fs.remove_entry(dst)
        } else {
            fs
        },
        LinkState::ForcedClear => fs.remove_subtree(dst),
        LinkState::RetryClear => fs.remove_subtree(dst),
        LinkState::CreateLink => if !fs.exists_at(dst) {
            fs.set_entry(dst, FsEntry::Symlink(src))
        } else {
            fs
        },
        LinkState::RetryLink => if !fs.exists_at(dst) {
            fs.set_entry(dst, FsEntry::Symlink(src))
        } else {
            fs
        },
        _ => fs,
    }
}

/// Run the machine against the model from state `s`, for at most `fuel`
/// steps.
pub open spec fn run_link_from(
    fs: FsModel,
    src: Seq<u8>,
    dst: Seq<u8>,
    force: bool,
    s: LinkState,
    fuel: nat,
) -> (FsModel, LinkState)
    decreases fuel,
{
    if link_terminal(s) || fuel == 0 {
        (fs, s)
    } else {
        run_link_from(
            fs_perform(fs, src, dst, s),
            src,
            dst,
            force,
            link_next(force, s, fs_respond(fs, src, dst, s)),
            (fuel - 1) as nat,
        )
    }
}

/// Run one whole link transaction against the model.  Eight steps of fuel
/// cover the longest path through the machine, which has six states.
pub open spec fn run_link(fs: FsModel, src: Seq<u8>, dst: Seq<u8>, force: bool) -> (
    FsModel,
    LinkState,
) {
    run_link_from(fs, src, dst, force, link_start(src, dst), 8)
}

/// Linking an existing source to a fresh destination without force succeeds
/// and leaves the destination resolving to the source, which is untouched.
pub proof fn lemma_link_fresh_destination(fs: FsModel, src: Seq<u8>, dst: Seq<u8>)
    requires
        fs.is_file(src),
        !fs.exists_at(dst),
        src != dst,
    ensures
        run_link(fs, src, dst, false).1 == LinkState::Done,
        run_link(fs, src, dst, false).0 == fs.set_entry(dst, FsEntry::Symlink(src)),
        run_link(fs, src, dst, false).0.points_to(dst, src),
        run_link(fs, src, dst, false).0.is_file(src),
{
    reveal_with_fuel(run_link_from, 9);
}

/// Without force, an occupied destination that is not an empty directory
/// blocks the operation: the run fails with `DestinationExists` and the
/// filesystem is unchanged.
pub proof fn lemma_link_blocked_destination(fs: FsModel, src: Seq<u8>, dst: Seq<u8>)
    requires
        fs.exists_at(src),
        fs.exists_at(dst),
        !fs.is_empty_dir(dst),
        src != dst,
    ensures
        run_link(fs, src, dst, false).1 == LinkState::Failed(LinkError::DestinationExists),
        run_link(fs, src, dst, false).0 == fs,
{
    reveal_with_fuel(run_link_from, 9);
}

/// Without force, a destination that is an empty directory is removed and
/// the link proceeds.
pub proof fn lemma_link_empty_dir_destination(fs: FsModel, src: Seq<u8>, dst: Seq<u8>)
    requires
        fs.exists_at(src),
        fs.is_empty_dir(dst),
        src != dst,
    ensures
        run_link(fs, src, dst, false).1 == LinkState::Done,
        run_link(fs, src, dst, false).0 == fs.remove_entry(dst).set_entry(
            dst,
            FsEntry::Symlink(src),
        ),
        run_link(fs, src, dst, false).0.points_to(dst, src),
{
    reveal_with_fuel(run_link_from, 9);
}

/// With force, any pre-existing conflicting destination — file, non-empty
/// directory, or (broken) link — is cleared and the run succeeds; the final
/// destination resolves to the source, which keeps its old entry.  The
/// source must not lie inside the destination, else the clearing itself
/// would take it away.
pub proof fn lemma_link_forced(fs: FsModel, src: Seq<u8>, dst: Seq<u8>)
    requires
        fs.exists_at(src),
        fs.exists_at(dst),
        src != dst,
        !at_or_under(src, dst),
    ensures
        run_link(fs, src, dst, true).1 == LinkState::Done,
        run_link(fs, src, dst, true).0 == fs.remove_subtree(dst).set_entry(
            dst,
            FsEntry::Symlink(src),
        ),
        run_link(fs, src, dst, true).0.points_to(dst, src),
        run_link(fs, src, dst, true).0.entries[src] == fs.entries[src],
        run_link(fs, src, dst, true).0.exists_at(src),
{
    reveal_with_fuel(run_link_from, 9);
}

/// A request whose source equals its destination fails with
/// `SourceEqualsDestination` before any filesystem action: nothing is
/// destroyed, whatever the force flag says.
pub proof fn lemma_link_source_equals_destination(fs: FsModel, p: Seq<u8>, force: bool)
    ensures
        run_link(fs, p, p, force).1 == LinkState::Failed(LinkError::SourceEqualsDestination),
        run_link(fs, p, p, force).0 == fs,
{
    reveal_with_fuel(run_link_from, 9);
}

/// A forced link is idempotent on the filesystem: running the same request
/// twice leaves the same state as running it once, whether the runs succeed
/// or fail.  The filesystem must be parent-closed at the destination — a
/// path with entries inside it exists itself — as every real filesystem is.
pub proof fn lemma_link_forced_idempotent(fs: FsModel, src: Seq<u8>, dst: Seq<u8>)
    requires
        fs.has_children(dst) ==> fs.exists_at(dst),
    ensures
        run_link(run_link(fs, src, dst, true).0, src, dst, true).0 == run_link(
            fs,
            src,
            dst,
            true,
        ).0,
{
    reveal_with_fuel(run_link_from, 9);
    if src == dst {
    } else if !fs.exists_at(src) {
    } else if fs.exists_at(dst) {
        let cleared = fs.remove_subtree(dst);
        let fs1 = cleared.set_entry(dst, FsEntry::Symlink(src));
        assert(run_link(fs, src, dst, true).0 == fs1);
        if at_or_under(src, dst) {
            // The first run removed the source; the second fails at
            // validation and changes nothing.
            assert(!fs1.exists_at(src));
        } else {
            assert(fs1.remove_subtree(dst).entries =~= cleared.entries);
            assert(fs1.remove_subtree(dst).set_entry(dst, FsEntry::Symlink(src)).entries
                =~= fs1.entries);
            assert(run_link(fs1, src, dst, true).0.entries =~= fs1.entries);
        }
    } else {
        let fs1 = fs.set_entry(dst, FsEntry::Symlink(src));
        assert(run_link(fs, src, dst, true).0 == fs1);
        // The destination had no entries inside it, so the second run's
        // forced clear takes away exactly the link the first run made.
        assert forall|p: Seq<u8>| fs.entries.dom().contains(p) implies !crate::fsmodel::strictly_under(
            p,
            dst,
        ) by {
            if crate::fsmodel::strictly_under(p, dst) {
                assert(fs.has_children(dst));
            }
        }
        assert(fs1.remove_subtree(dst).entries =~= fs.entries);
        assert(fs1.remove_subtree(dst).set_entry(dst, FsEntry::Symlink(src)).entries
            =~= fs1.entries);
        assert(run_link(fs1, src, dst, true).0.entries =~= fs1.entries);
    }
}

} // verus!
