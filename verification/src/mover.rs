//! The recursive-move state machine.
//!
//! Relocating an entry is a transaction: a regular file is renamed
//! atomically; a directory has the destination prepared (created, or — under
//! force — emptied), and its direct children are then moved one at a time,
//! each child subtree as a whole, in listing order.  The first failure
//! aborts the whole move.  As with the link machine, every decision lives
//! here; the unverified shell performs the filesystem actions and reports
//! the outcomes as events.

use vstd::prelude::*;

use crate::bytes::clone_bytes;
use crate::errors::MoveError;
use crate::fsmodel::{
    at_or_under, lemma_at_or_under_trans, lemma_incomparable_disjoint,
    lemma_join_distinct_incomparable, lemma_join_strictly_under, lemma_join_transfer,
    lemma_move_subtree_maps, path_join, plain_name, strictly_under, FsEntry, FsModel,
};

verus! {

/// The states of one move transaction.
#[derive(Clone, Debug, PartialEq, Eq)]
pub enum MoveState {
    /// Probe whether the source is a regular file.
    ClassifySource,
    /// The source is a file: rename it onto the destination.
    RenameSource,
    /// The source is a directory: probe whether the destination exists.
    ProbeDest,
    /// Create the destination directory (with parents).
    MakeDest,
    /// The destination exists: probe whether it is empty.
    ProbeDestEmpty,
    /// The destination is occupied and force is on: remove its subtree.
    ClearDest,
    /// Recreate the destination directory after the forced clear.
    RemakeDest,
    /// List the direct children of the source.
    ListChildren,
    /// Move child `next` of `names`, each child subtree as a whole.
    MoveChildren { names: Vec<Vec<u8>>, next: usize },
    /// Every child is in place.
    Moved,
    /// The move failed; no further action is taken.
    Stopped(MoveError),
}

/// What the shell observed when performing the requested action.
#[derive(Clone, Debug, PartialEq, Eq)]
pub enum MoveEvent {
    /// The source is a regular file (else it is treated as a directory).
    SourceIsFile(bool),
    /// Outcome of the atomic rename.
    Renamed(bool),
    /// Outcome of probing the destination.
    DestExists(bool),
    /// Outcome of creating the destination directory.
    Created(bool),
    /// The destination directory has no entries.
    DestEmpty(bool),
    /// Outcome of removing the destination subtree.
    Removed(bool),
    /// The direct children of the source, as plain names.
    Children(Vec<Vec<u8>>),
    /// Outcome of moving one child subtree.
    ChildMoved(bool),
}

/// The filesystem action a non-terminal state requests.
#[derive(Clone, Debug, PartialEq, Eq)]
pub enum MoveAction {
    /// Is the source a regular file?
    ProbeSourceKind,
    /// Rename the source onto the destination.
    RenameFile,
    /// Does the destination exist?
    ProbeDestination,
    /// Create the destination directory and its parents.
    CreateDirAll,
    /// Is the destination directory empty?
    ProbeEmpty,
    /// Remove the destination subtree.
    RemoveTree,
    /// List the direct children of the source.
    ReadChildren,
    /// Move the named direct child of the source, subtree and all, to the
    /// same name under the destination.
    MoveChild { name: Vec<u8> },
}

/// Spec-level mirror of [`MoveState`].
pub enum MoveStateV {
    ClassifySource,
    RenameSource,
    ProbeDest,
    MakeDest,
    ProbeDestEmpty,
    ClearDest,
    RemakeDest,
    ListChildren,
    MoveChildren { names: Seq<Seq<u8>>, next: int },
    Moved,
    Stopped(MoveError),
}

/// Spec-level mirror of [`MoveEvent`].
pub enum MoveEventV {
    SourceIsFile(bool),
    Renamed(bool),
    DestExists(bool),
    Created(bool),
    DestEmpty(bool),
    Removed(bool),
    Children(Seq<Seq<u8>>),
    ChildMoved(bool),
}

/// Spec-level mirror of [`MoveAction`].
pub enum MoveActionV {
    ProbeSourceKind,
    RenameFile,
    ProbeDestination,
    CreateDirAll,
    ProbeEmpty,
    RemoveTree,
    ReadChildren,
    MoveChild { name: Seq<u8> },
}

pub open spec fn move_action_view(a: Option<MoveAction>) -> Option<MoveActionV> {
    match a {
        None => None,
        Some(MoveAction::ProbeSourceKind) => Some(MoveActionV::ProbeSourceKind),
        Some(MoveAction::RenameFile) => Some(MoveActionV::RenameFile),
        Some(MoveAction::ProbeDestination) => Some(MoveActionV::ProbeDestination),
        Some(MoveAction::CreateDirAll) => Some(MoveActionV::CreateDirAll),
        Some(MoveAction::ProbeEmpty) => Some(MoveActionV::ProbeEmpty),
        Some(MoveAction::RemoveTree) => Some(MoveActionV::RemoveTree),
        Some(MoveAction::ReadChildren) => Some(MoveActionV::ReadChildren),
        Some(MoveAction::MoveChild { name }) => Some(MoveActionV::MoveChild { name: name@ }),
    }
}

/// The names in a listing, as byte sequences.
pub open spec fn names_view(names: Seq<Vec<u8>>) -> Seq<Seq<u8>> {
    names.map_values(|n: Vec<u8>| n@)
}

pub open spec fn move_state_view(s: MoveState) -> MoveStateV {
    match s {
        MoveState::ClassifySource => MoveStateV::ClassifySource,
        MoveState::RenameSource => MoveStateV::RenameSource,
        MoveState::ProbeDest => MoveStateV::ProbeDest,
        MoveState::MakeDest => MoveStateV::MakeDest,
        MoveState::ProbeDestEmpty => MoveStateV::ProbeDestEmpty,
        MoveState::ClearDest => MoveStateV::ClearDest,
        MoveState::RemakeDest => MoveStateV::RemakeDest,
        MoveState::ListChildren => MoveStateV::ListChildren,
        MoveState::MoveChildren { names, next } => MoveStateV::MoveChildren {
            names: names_view(names@),
            next: next as int,
        },
        MoveState::Moved => MoveStateV::Moved,
        MoveState::Stopped(e) => MoveStateV::Stopped(e),
    }
}

pub open spec fn move_event_view(ev: MoveEvent) -> MoveEventV {
    match ev {
        MoveEvent::SourceIsFile(b) => MoveEventV::SourceIsFile(b),
        MoveEvent::Renamed(b) => MoveEventV::Renamed(b),
        MoveEvent::DestExists(b) => MoveEventV::DestExists(b),
        MoveEvent::Created(b) => MoveEventV::Created(b),
        MoveEvent::DestEmpty(b) => MoveEventV::DestEmpty(b),
        MoveEvent::Removed(b) => MoveEventV::Removed(b),
        MoveEvent::Children(names) => MoveEventV::Children(names_view(names@)),
        MoveEvent::ChildMoved(b) => MoveEventV::ChildMoved(b),
    }
}

/// The machine's transition function.  A non-empty destination directory
/// stops the move unless force is on, in which case its subtree is removed
/// and the directory recreated empty.  An event that does not belong to the
/// state changes nothing.
pub open spec fn move_next(force: bool, s: MoveStateV, ev: MoveEventV) -> MoveStateV {
    match (s, ev) {
        (MoveStateV::ClassifySource, MoveEventV::SourceIsFile(b)) => if b {
            MoveStateV::RenameSource
        } else {
            MoveStateV::ProbeDest
        },
        (MoveStateV::RenameSource, MoveEventV::Renamed(ok)) => if ok {
            MoveStateV::Moved
        } else {
            MoveStateV::Stopped(MoveError::RenameFailed)
        },
        (MoveStateV::ProbeDest, MoveEventV::DestExists(b)) => if b {
            MoveStateV::ProbeDestEmpty
        } else {
            MoveStateV::MakeDest
        },
        (MoveStateV::MakeDest, MoveEventV::Created(ok)) => if ok {
            MoveStateV::ListChildren
        } else {
            MoveStateV::Stopped(MoveError::CreateDirFailed)
        },
        (MoveStateV::ProbeDestEmpty, MoveEventV::DestEmpty(b)) => if b {
            MoveStateV::ListChildren
        } else if force {
            MoveStateV::ClearDest
        } else {
            MoveStateV::Stopped(MoveError::DestinationNotEmpty)
        },
        (MoveStateV::ClearDest, MoveEventV::Removed(ok)) => if ok {
            MoveStateV::RemakeDest
        } else {
            MoveStateV::Stopped(MoveError::RemoveDirFailed)
        },
        (MoveStateV::RemakeDest, MoveEventV::Created(ok)) => if ok {
            MoveStateV::ListChildren
        } else {
            MoveStateV::Stopped(MoveError::CreateDirFailed)
        },
        (MoveStateV::ListChildren, MoveEventV::Children(names)) => if names.len() == 0 {
            MoveStateV::Moved
        } else {
            MoveStateV::MoveChildren { names, next: 0 }
        },
        (MoveStateV::MoveChildren { names, next }, MoveEventV::ChildMoved(ok)) => if !ok {
            MoveStateV::Stopped(MoveError::ChildMoveFailed)
        } else if next + 1 < names.len() {
            MoveStateV::MoveChildren { names, next: next + 1 }
        } else {
            MoveStateV::Moved
        },
        (_, _) => s,
    }
}

/// The action each state requests; `None` for the terminal states.
pub open spec fn move_action_of(s: MoveStateV) -> Option<MoveActionV> {
    match s {
        MoveStateV::ClassifySource => Some(MoveActionV::ProbeSourceKind),
        MoveStateV::RenameSource => Some(MoveActionV::RenameFile),
        MoveStateV::ProbeDest => Some(MoveActionV::ProbeDestination),
        MoveStateV::MakeDest => Some(MoveActionV::CreateDirAll),
        MoveStateV::ProbeDestEmpty => Some(MoveActionV::ProbeEmpty),
        MoveStateV::ClearDest => Some(MoveActionV::RemoveTree),
        MoveStateV::RemakeDest => Some(MoveActionV::CreateDirAll),
        MoveStateV::ListChildren => Some(MoveActionV::ReadChildren),
        MoveStateV::MoveChildren { names, next } => Some(
            MoveActionV::MoveChild { name: names[next] },
        ),
        MoveStateV::Moved => None,
        MoveStateV::Stopped(_) => None,
    }
}

/// The move is over.
pub open spec fn move_terminal(s: MoveStateV) -> bool {
    s is Moved || s is Stopped
}

/// Structural validity: the child index stays inside the listing.  The
/// initial state is valid and every step keeps validity.
pub open spec fn move_state_wf(s: MoveState) -> bool {
    match s {
        MoveState::MoveChildren { names, next } => next < names.len(),
        _ => true,
    }
}

/// Initial state of a move.
pub fn move_init() -> (s: MoveState)
    ensures
        move_state_view(s) == MoveStateV::ClassifySource,
        move_state_wf(s),
{
    MoveState::ClassifySource
}

/// Advance the machine on an observed event.
pub fn move_step(force: bool, s: MoveState, ev: MoveEvent) -> (r: MoveState)
    requires
        move_state_wf(s),
    ensures
        move_state_view(r) == move_next(force, move_state_view(s), move_event_view(ev)),
        move_state_wf(r),
{
    match (s, ev) {
        (MoveState::ClassifySource, MoveEvent::SourceIsFile(b)) => if b {
            MoveState::RenameSource
        } else {
            MoveState::ProbeDest
        },
        (MoveState::RenameSource, MoveEvent::Renamed(ok)) => if ok {
            MoveState::Moved
        } else {
            MoveState::Stopped(MoveError::RenameFailed)
        },
        (MoveState::ProbeDest, MoveEvent::DestExists(b)) => if b {
            MoveState::ProbeDestEmpty
        } else {
            MoveState::MakeDest
        },
        (MoveState::MakeDest, MoveEvent::Created(ok)) => if ok {
            MoveState::ListChildren
        } else {
            MoveState::Stopped(MoveError::CreateDirFailed)
        },
        (MoveState::ProbeDestEmpty, MoveEvent::DestEmpty(b)) => if b {
            MoveState::ListChildren
        } else if force {
            MoveState::ClearDest
        } else {
            MoveState::Stopped(MoveError::DestinationNotEmpty)
        },
        (MoveState::ClearDest, MoveEvent::Removed(ok)) => if ok {
            MoveState::RemakeDest
        } else {
            MoveState::Stopped(MoveError::RemoveDirFailed)
        },
        (MoveState::RemakeDest, MoveEvent::Created(ok)) => if ok {
            MoveState::ListChildren
        } else {
            MoveState::Stopped(MoveError::CreateDirFailed)
        },
        (MoveState::ListChildren, MoveEvent::Children(names)) => if names.len() == 0 {
            MoveState::Moved
        } else {
            MoveState::MoveChildren { names, next: 0 }
        },
        (MoveState::MoveChildren { names, next }, MoveEvent::ChildMoved(ok)) => if !ok {
            MoveState::Stopped(MoveError::ChildMoveFailed)
        } else if names.len() > 0 && next < names.len() - 1 {
            MoveState::MoveChildren { names, next: next + 1 }
        } else {
            MoveState::Moved
        },
        (s, _) => s,
    }
}

/// The action the current state requests, or `None` when terminal.  For
/// `MoveChild` the requested child's name is handed out as a copy.
pub fn move_action(s: &MoveState) -> (a: Option<MoveAction>)
    requires
        move_state_wf(*s),
    ensures
        move_action_view(a) == move_action_of(move_state_view(*s)),
{
    match s {
        MoveState::ClassifySource => Some(MoveAction::ProbeSourceKind),
        MoveState::RenameSource => Some(MoveAction::RenameFile),
        MoveState::ProbeDest => Some(MoveAction::ProbeDestination),
        MoveState::MakeDest => Some(MoveAction::CreateDirAll),
        MoveState::ProbeDestEmpty => Some(MoveAction::ProbeEmpty),
        MoveState::ClearDest => Some(MoveAction::RemoveTree),
        MoveState::RemakeDest => Some(MoveAction::CreateDirAll),
        MoveState::ListChildren => Some(MoveAction::ReadChildren),
        MoveState::MoveChildren { names, next } => Some(
            MoveAction::MoveChild { name: clone_bytes(&names[*next]) },
        ),
        MoveState::Moved => None,
        MoveState::Stopped(_) => None,
    }
}

// ---------------------------------------------------------------------------
// The machine run against the well-behaved filesystem model.
// ---------------------------------------------------------------------------

/// The event a well-behaved filesystem answers to the action of state `s`.
/// Probes answer truthfully; rename, directory creation, removal and child
/// moves succeed; the listing of the source's children is `listing`.
pub open spec fn mv_respond(
    fs: FsModel,
    src: Seq<u8>,
    dst: Seq<u8>,
    listing: Seq<Seq<u8>>,
    s: MoveStateV,
) -> MoveEventV {
    match s {
        MoveStateV::ClassifySource => MoveEventV::SourceIsFile(fs.is_file(src)),
        MoveStateV::RenameSource => MoveEventV::Renamed(true),
        MoveStateV::ProbeDest => MoveEventV::DestExists(fs.exists_at(dst)),
        MoveStateV::MakeDest => MoveEventV::Created(true),
        MoveStateV::ProbeDestEmpty => MoveEventV::DestEmpty(!fs.has_children(dst)),
        MoveStateV::ClearDest => MoveEventV::Removed(true),
        MoveStateV::RemakeDest => MoveEventV::Created(true),
        MoveStateV::ListChildren => MoveEventV::Children(listing),
        MoveStateV::MoveChildren { names, next } => MoveEventV::ChildMoved(true),
        _ => MoveEventV::ChildMoved(false),
    }
}

/// The change a well-behaved filesystem undergoes for the action of state
/// `s`.
pub open spec fn mv_perform(fs: FsModel, src: Seq<u8>, dst: Seq<u8>, s: MoveStateV) -> FsModel {
    match s {
        MoveStateV::RenameSource => fs.remove_entry(src).set_entry(dst, fs.entries[src]),
        MoveStateV::MakeDest => fs.set_entry(dst, FsEntry::Dir),
        MoveStateV::ClearDest => fs.remove_subtree(dst),
        MoveStateV::RemakeDest => fs.set_entry(dst, FsEntry::Dir),
        MoveStateV::MoveChildren { names, next } => fs.move_subtree(
            path_join(src, names[next]),
            path_join(dst, names[next]),
        ),
        _ => fs,
    }
}

/// Run the machine against the model from state `s`, for at most `fuel`
/// steps.
pub open spec fn run_move_from(
    fs: FsModel,
    src: Seq<u8>,
    dst: Seq<u8>,
    force: bool,
    listing: Seq<Seq<u8>>,
    s: MoveStateV,
    fuel: nat,
) -> (FsModel, MoveStateV)
    decreases fuel,
{
    if move_terminal(s) || fuel == 0 {
        (fs, s)
    } else {
        run_move_from(
            mv_perform(fs, src, dst, s),
            src,
            dst,
            force,
            listing,
            move_next(force, s, mv_respond(fs, src, dst, listing, s)),
            (fuel - 1) as nat,
        )
    }
}

/// Run one whole move against the model, with fuel for every child.
pub open spec fn run_move(
    fs: FsModel,
    src: Seq<u8>,
    dst: Seq<u8>,
    force: bool,
    listing: Seq<Seq<u8>>,
) -> (FsModel, MoveStateV) {
    run_move_from(fs, src, dst, force, listing, MoveStateV::ClassifySource, listing.len() + 8)
}

/// The filesystem after the child subtrees from `next` on are relocated,
/// one after the other, from under `src` to under `dst`.
pub open spec fn moved_children(
    fs: FsModel,
    src: Seq<u8>,
    dst: Seq<u8>,
    l: Seq<Seq<u8>>,
    next: int,
) -> FsModel
    decreases l.len() - next,
{
    if next < 0 || next >= l.len() {
        fs
    } else {
        moved_children(
            fs.move_subtree(path_join(src, l[next]), path_join(dst, l[next])),
            src,
            dst,
            l,
            next + 1,
        )
    }
}

/// Against the model, the child-moving phase runs to `Moved` and its effect
/// is the fold of the single-child relocations.
pub proof fn lemma_run_move_children(
    fs: FsModel,
    src: Seq<u8>,
    dst: Seq<u8>,
    force: bool,
    l: Seq<Seq<u8>>,
    next: int,
    fuel: nat,
)
    requires
        0 <= next < l.len(),
        fuel >= l.len() - next,
    ensures
        run_move_from(fs, src, dst, force, l, MoveStateV::MoveChildren { names: l, next }, fuel)
            == (moved_children(fs, src, dst, l, next), MoveStateV::Moved),
    decreases l.len() - next,
{
    reveal_with_fuel(run_move_from, 3);
    reveal_with_fuel(moved_children, 3);
    let fs1 = fs.move_subtree(path_join(src, l[next]), path_join(dst, l[next]));
    if next + 1 < l.len() {
        lemma_run_move_children(fs1, src, dst, force, l, next + 1, (fuel - 1) as nat);
    } else {
        assert(moved_children(fs1, src, dst, l, next + 1) == fs1);
    }
}

/// Some child listed from `next` on contains `q` in its subtree under
/// `root`.
pub open spec fn in_zone(root: Seq<u8>, l: Seq<Seq<u8>>, next: int, q: Seq<u8>) -> bool {
    exists|i: int| next <= i < l.len() && at_or_under(q, #[trigger] path_join(root, l[i]))
}

/// A directory listing as the model expects it: plain names, no repeats.
pub open spec fn listing_ok(l: Seq<Seq<u8>>) -> bool {
    &&& forall|i: int| 0 <= i < l.len() ==> plain_name(#[trigger] l[i])
    &&& forall|i: int, j: int| 0 <= i < j < l.len() ==> l[i] != l[j]
}

/// Neither path contains the other.
pub open spec fn roots_disjoint(src: Seq<u8>, dst: Seq<u8>) -> bool {
    !at_or_under(src, dst) && !at_or_under(dst, src)
}

/// Pointwise characterization of the child-moving fold: a path inside a
/// moved child's destination holds what its counterpart under the source
/// held; paths inside the moved children's sources are gone; every other
/// path is untouched.
pub proof fn lemma_moved_children_pointwise(
    fs: FsModel,
    src: Seq<u8>,
    dst: Seq<u8>,
    l: Seq<Seq<u8>>,
    next: int,
    q: Seq<u8>,
)
    requires
        0 <= next <= l.len(),
        listing_ok(l),
        roots_disjoint(src, dst),
    ensures
        ({
            let m = moved_children(fs, src, dst, l, next);
            &&& forall|i: int|
                next <= i < l.len() && at_or_under(q, #[trigger] path_join(dst, l[i])) ==> {
                    let p = path_join(src, l[i]) + q.skip(path_join(dst, l[i]).len() as int);
                    &&& m.entries.dom().contains(q) == fs.entries.dom().contains(p)
                    &&& (fs.entries.dom().contains(p) ==> m.entries[q] == fs.entries[p])
                }
            &&& in_zone(src, l, next, q) ==> !m.entries.dom().contains(q)
            &&& (!in_zone(src, l, next, q) && !in_zone(dst, l, next, q)) ==> {
                &&& m.entries.dom().contains(q) == fs.entries.dom().contains(q)
                &&& (fs.entries.dom().contains(q) ==> m.entries[q] == fs.entries[q])
            }
        }),
    decreases l.len() - next,
{
    reveal_with_fuel(moved_children, 2);
    let m = moved_children(fs, src, dst, l, next);
    if next == l.len() {
        if in_zone(src, l, next, q) {
            let i = choose|i: int| next <= i < l.len() && at_or_under(
                q,
                #[trigger] path_join(src, l[i]),
            );
            assert(false);
        }
        if in_zone(dst, l, next, q) {
            let i = choose|i: int| next <= i < l.len() && at_or_under(
                q,
                #[trigger] path_join(dst, l[i]),
            );
            assert(false);
        }
    } else {
        let na = l[next];
        let sa = path_join(src, na);
        let ta = path_join(dst, na);
        let fs1 = fs.move_subtree(sa, ta);
        lemma_moved_children_pointwise(fs1, src, dst, l, next + 1, q);
        let m1 = moved_children(fs1, src, dst, l, next + 1);
        assert(m == m1);
        lemma_join_strictly_under(src, na);
        lemma_join_strictly_under(dst, na);
        // Zones of distinct children never meet, and the source-side zones
        // never meet the destination-side ones.
        assert forall|i: int| next + 1 <= i < l.len() implies !at_or_under(
            q,
            #[trigger] path_join(dst, l[i]),
        ) || !(at_or_under(q, ta) || at_or_under(q, sa)) by {
            lemma_join_strictly_under(dst, l[i]);
            if at_or_under(q, path_join(dst, l[i])) {
                if at_or_under(q, ta) {
                    lemma_join_distinct_incomparable(dst, na, l[i]);
                    lemma_incomparable_disjoint(ta, path_join(dst, l[i]), q);
                }
                if at_or_under(q, sa) {
                    lemma_at_or_under_trans(q, sa, src);
                    lemma_at_or_under_trans(q, path_join(dst, l[i]), dst);
                    lemma_incomparable_disjoint(src, dst, q);
                }
            }
        }
        assert forall|i: int| next + 1 <= i < l.len() implies !at_or_under(
            q,
            #[trigger] path_join(src, l[i]),
        ) || !(at_or_under(q, ta) || at_or_under(q, sa)) by {
            lemma_join_strictly_under(src, l[i]);
            if at_or_under(q, path_join(src, l[i])) {
                if at_or_under(q, sa) {
                    lemma_join_distinct_incomparable(src, na, l[i]);
                    lemma_incomparable_disjoint(sa, path_join(src, l[i]), q);
                }
                if at_or_under(q, ta) {
                    lemma_at_or_under_trans(q, path_join(src, l[i]), src);
                    lemma_at_or_under_trans(q, ta, dst);
                    lemma_incomparable_disjoint(src, dst, q);
                }
            }
        }
        if at_or_under(q, ta) {
            // q sits in the destination zone of the child moved now.
            assert(!in_zone(src, l, next + 1, q));
            assert(!in_zone(dst, l, next + 1, q));
            // Through the induction hypothesis, m keeps what fs1 holds at q,
            // and the single move put the counterpart of q there.
            assert(m.entries.dom().contains(q) == fs1.entries.dom().contains(q));
            if in_zone(src, l, next, q) {
                let i = choose|i: int| next <= i < l.len() && at_or_under(
                    q,
                    #[trigger] path_join(src, l[i]),
                );
                if i == next {
                    lemma_at_or_under_trans(q, sa, src);
                    lemma_at_or_under_trans(q, ta, dst);
                    lemma_incomparable_disjoint(src, dst, q);
                }
                assert(false);
            }
        } else if at_or_under(q, sa) {
            // q sits in the source zone of the child moved now: the move
            // took it away, and no later move brings anything back there.
            assert(!in_zone(src, l, next + 1, q));
            assert(!in_zone(dst, l, next + 1, q));
            assert(!fs1.entries.dom().contains(q));
            assert(!m.entries.dom().contains(q));
        } else {
            // q is outside both zones of the child moved now.
            if in_zone(dst, l, next + 1, q) {
                let i = choose|i: int| next + 1 <= i < l.len() && at_or_under(
                    q,
                    #[trigger] path_join(dst, l[i]),
                );
                let si = path_join(src, l[i]);
                let ti = path_join(dst, l[i]);
                let p = si + q.skip(ti.len() as int);
                lemma_move_subtree_maps(fs, ti, si, q);
                lemma_join_strictly_under(src, l[i]);
                lemma_join_strictly_under(dst, l[i]);
                // The counterpart p lies under the source of child i, hence
                // away from the child moved now.
                assert(at_or_under(p, si));
                if at_or_under(p, sa) {
                    lemma_join_distinct_incomparable(src, na, l[i]);
                    lemma_incomparable_disjoint(sa, si, p);
                }
                if at_or_under(p, ta) {
                    lemma_at_or_under_trans(p, si, src);
                    lemma_at_or_under_trans(p, ta, dst);
                    lemma_incomparable_disjoint(src, dst, p);
                }
                assert(fs1.entries.dom().contains(p) == fs.entries.dom().contains(p));
                assert(fs.entries.dom().contains(p) ==> fs1.entries[p] == fs.entries[p]);
                // Only child i's destination zone holds q.
                assert forall|j: int|
                    next <= j < l.len() && at_or_under(q, #[trigger] path_join(dst, l[j]))
                    implies j == i by {
                    if j != i {
                        lemma_join_distinct_incomparable(dst, l[i], l[j]);
                        lemma_incomparable_disjoint(ti, path_join(dst, l[j]), q);
                    }
                }
                if in_zone(src, l, next, q) {
                    let k = choose|k: int| next <= k < l.len() && at_or_under(
                        q,
                        #[trigger] path_join(src, l[k]),
                    );
                    lemma_join_strictly_under(src, l[k]);
                    lemma_at_or_under_trans(q, path_join(src, l[k]), src);
                    lemma_at_or_under_trans(q, ti, dst);
                    lemma_incomparable_disjoint(src, dst, q);
                    assert(false);
                }
            } else if in_zone(src, l, next + 1, q) {
                assert(!m.entries.dom().contains(q));
                assert forall|j: int|
                    next <= j < l.len() implies !at_or_under(
                    q,
                    #[trigger] path_join(dst, l[j]),
                ) by {
                    if at_or_under(q, path_join(dst, l[j])) {
                        let k = choose|k: int| next + 1 <= k < l.len() && at_or_under(
                            q,
                            #[trigger] path_join(src, l[k]),
                        );
                        lemma_join_strictly_under(src, l[k]);
                        lemma_join_strictly_under(dst, l[j]);
                        lemma_at_or_under_trans(q, path_join(src, l[k]), src);
                        lemma_at_or_under_trans(q, path_join(dst, l[j]), dst);
                        lemma_incomparable_disjoint(src, dst, q);
                    }
                }
            } else {
                // q lies in no zone at all: every layer leaves it alone.
                assert(fs1.entries.dom().contains(q) == fs.entries.dom().contains(q));
                if in_zone(src, l, next, q) {
                    let k = choose|k: int| next <= k < l.len() && at_or_under(
                        q,
                        #[trigger] path_join(src, l[k]),
                    );
                    assert(k == next || (next + 1 <= k < l.len() && at_or_under(
                        q,
                        path_join(src, l[k]),
                    )));
                    assert(false);
                }
                if in_zone(dst, l, next, q) {
                    let k = choose|k: int| next <= k < l.len() && at_or_under(
                        q,
                        #[trigger] path_join(dst, l[k]),
                    );
                    assert(k == next || (next + 1 <= k < l.len() && at_or_under(
                        q,
                        path_join(dst, l[k]),
                    )));
                    assert(false);
                }
            }
        }
    }
}

/// Moving a regular file is one atomic rename: the entry leaves the source
/// path and appears at the destination path.
pub proof fn lemma_move_file(
    fs: FsModel,
    src: Seq<u8>,
    dst: Seq<u8>,
    force: bool,
    listing: Seq<Seq<u8>>,
)
    requires
        fs.is_file(src),
        src != dst,
    ensures
        run_move(fs, src, dst, force, listing).1 == MoveStateV::Moved,
        run_move(fs, src, dst, force, listing).0 == fs.remove_entry(src).set_entry(
            dst,
            fs.entries[src],
        ),
{
    reveal_with_fuel(run_move_from, 5);
}

/// The destination directory after the preparation phase: created when
/// missing, kept when empty, emptied and recreated under force.
pub open spec fn prepared_dest(fs: FsModel, dst: Seq<u8>) -> FsModel {
    if !fs.exists_at(dst) {
        fs.set_entry(dst, FsEntry::Dir)
    } else if !fs.has_children(dst) {
        fs
    } else {
        fs.remove_subtree(dst).set_entry(dst, FsEntry::Dir)
    }
}

/// Moving a directory relocates its whole content: the run succeeds, the
/// source keeps its (now empty) directory entry, every path of the source's
/// content reappears under the destination with its old entry, and paths
/// outside both roots are untouched.
pub proof fn lemma_move_dir(
    fs: FsModel,
    src: Seq<u8>,
    dst: Seq<u8>,
    force: bool,
    listing: Seq<Seq<u8>>,
)
    requires
        fs.is_dir(src),
        roots_disjoint(src, dst),
        listing_ok(listing),
        // the listing covers the whole content of the source
        forall|p: Seq<u8>|
            fs.entries.dom().contains(p) && strictly_under(p, src) ==> in_zone(
                src,
                listing,
                0,
                p,
            ),
        // destination sanity, as on a real filesystem
        fs.exists_at(dst) ==> fs.is_dir(dst),
        fs.has_children(dst) ==> fs.exists_at(dst),
        (fs.exists_at(dst) && fs.has_children(dst)) ==> force,
    ensures
        ({
            let out = run_move(fs, src, dst, force, listing);
            &&& out.1 == MoveStateV::Moved
            &&& out.0.entries.dom().contains(src) && out.0.entries[src] == fs.entries[src]
            &&& out.0.is_dir(src)
            &&& forall|q: Seq<u8>| strictly_under(q, src) ==> !out.0.entries.dom().contains(q)
            &&& forall|p: Seq<u8>|
                fs.entries.dom().contains(p) && strictly_under(p, src) ==> {
                    &&& out.0.entries.dom().contains(dst + p.skip(src.len() as int))
                    &&& out.0.entries[dst + p.skip(src.len() as int)] == fs.entries[p]
                }
            &&& out.0.is_dir(dst)
            &&& forall|q: Seq<u8>|
                !at_or_under(q, src) && !at_or_under(q, dst) ==> {
                    &&& out.0.entries.dom().contains(q) == fs.entries.dom().contains(q)
                    &&& (fs.entries.dom().contains(q) ==> out.0.entries[q] == fs.entries[q])
                }
        }),
{
    reveal_with_fuel(run_move_from, 8);
    let fuel = (listing.len() + 8) as nat;
    let prep = prepared_dest(fs, dst);
    let out = run_move(fs, src, dst, force, listing);

    // Walk the preparation phase to the child-moving loop.
    if listing.len() == 0 {
        assert(out == (prep, MoveStateV::Moved));
        assert(moved_children(prep, src, dst, listing, 0) == prep);
    } else {
        if !fs.exists_at(dst) {
            lemma_run_move_children(prep, src, dst, force, listing, 0, (fuel - 4) as nat);
        } else if !fs.has_children(dst) {
            lemma_run_move_children(prep, src, dst, force, listing, 0, (fuel - 4) as nat);
        } else {
            lemma_run_move_children(prep, src, dst, force, listing, 0, (fuel - 6) as nat);
        }
        assert(out == (moved_children(prep, src, dst, listing, 0), MoveStateV::Moved));
    }
    let m = moved_children(prep, src, dst, listing, 0);

    // No child path of either side contains a root, and the two roots'
    // subtrees never meet.
    assert forall|i: int| 0 <= i < listing.len() implies !at_or_under(
        src,
        #[trigger] path_join(src, listing[i]),
    ) && !at_or_under(src, path_join(dst, listing[i])) && !at_or_under(
        dst,
        path_join(dst, listing[i]),
    ) && !at_or_under(dst, path_join(src, listing[i])) by {
        lemma_join_strictly_under(src, listing[i]);
        lemma_join_strictly_under(dst, listing[i]);
        if at_or_under(src, path_join(dst, listing[i])) {
            lemma_at_or_under_trans(src, path_join(dst, listing[i]), dst);
        }
        if at_or_under(dst, path_join(src, listing[i])) {
            lemma_at_or_under_trans(dst, path_join(src, listing[i]), src);
        }
    }

    // The source root itself.
    lemma_moved_children_pointwise(prep, src, dst, listing, 0, src);
    assert(prep.entries.dom().contains(src) && prep.entries[src] == fs.entries[src]);

    // The destination root itself.
    lemma_moved_children_pointwise(prep, src, dst, listing, 0, dst);
    assert(prep.entries.dom().contains(dst) && prep.entries[dst] is Dir);

    // Nothing stays inside the source.
    assert forall|q: Seq<u8>| strictly_under(q, src) implies !m.entries.dom().contains(q) by {
        lemma_moved_children_pointwise(prep, src, dst, listing, 0, q);
        if !in_zone(src, listing, 0, q) {
            if in_zone(dst, listing, 0, q) {
                let i = choose|i: int| 0 <= i < listing.len() && at_or_under(
                    q,
                    #[trigger] path_join(dst, listing[i]),
                );
                lemma_join_strictly_under(dst, listing[i]);
                lemma_at_or_under_trans(q, path_join(dst, listing[i]), dst);
                lemma_incomparable_disjoint(src, dst, q);
                assert(false);
            }
            // q is in no zone: it kept its entry from prep, which kept it
            // from fs; the coverage premise then puts it in a zone after
            // all, so it was never there.
            assert(prep.entries.dom().contains(q) == fs.entries.dom().contains(q));
            assert(!fs.entries.dom().contains(q));
        }
    }

    // The whole content reappears under the destination.
    assert forall|p: Seq<u8>|
        fs.entries.dom().contains(p) && strictly_under(p, src) implies {
        &&& m.entries.dom().contains(dst + p.skip(src.len() as int))
        &&& m.entries[dst + p.skip(src.len() as int)] == fs.entries[p]
    } by {
        let i = choose|i: int| 0 <= i < listing.len() && at_or_under(
            p,
            #[trigger] path_join(src, listing[i]),
        );
        let si = path_join(src, listing[i]);
        let ti = path_join(dst, listing[i]);
        let q = dst + p.skip(src.len() as int);
        lemma_move_subtree_maps(fs, si, ti, p);
        lemma_join_transfer(src, dst, listing[i], p);
        assert(q == ti + p.skip(si.len() as int));
        assert(at_or_under(q, ti));
        assert((ti + p.skip(si.len() as int)).skip(ti.len() as int) =~= p.skip(si.len() as int));
        assert(si + q.skip(ti.len() as int) =~= p) by {
            assert(forall|k: int| 0 <= k < si.len() ==> #[trigger] p[k] == si[k]) by {
                if p != si {
                    assert(forall|k: int| 0 <= k < si.len() ==> #[trigger] p.subrange(
                        0,
                        si.len() as int,
                    )[k] == p[k]);
                }
            }
        }
        lemma_moved_children_pointwise(prep, src, dst, listing, 0, q);
        // The counterpart p kept its entry through the preparation phase.
        lemma_join_strictly_under(src, listing[i]);
        lemma_at_or_under_trans(p, si, src);
        if at_or_under(p, dst) {
            lemma_incomparable_disjoint(src, dst, p);
        }
        assert(prep.entries.dom().contains(p) && prep.entries[p] == fs.entries[p]);
    }

    // Paths outside both roots are untouched.
    assert forall|q: Seq<u8>|
        !at_or_under(q, src) && !at_or_under(q, dst) implies {
        &&& m.entries.dom().contains(q) == fs.entries.dom().contains(q)
        &&& (fs.entries.dom().contains(q) ==> m.entries[q] == fs.entries[q])
    } by {
        lemma_moved_children_pointwise(prep, src, dst, listing, 0, q);
        if in_zone(src, listing, 0, q) {
            let i = choose|i: int| 0 <= i < listing.len() && at_or_under(
                q,
                #[trigger] path_join(src, listing[i]),
            );
            lemma_join_strictly_under(src, listing[i]);
            lemma_at_or_under_trans(q, path_join(src, listing[i]), src);
            assert(false);
        }
        if in_zone(dst, listing, 0, q) {
            let i = choose|i: int| 0 <= i < listing.len() && at_or_under(
                q,
                #[trigger] path_join(dst, listing[i]),
            );
            lemma_join_strictly_under(dst, listing[i]);
            lemma_at_or_under_trans(q, path_join(dst, listing[i]), dst);
            assert(false);
        }
        assert(prep.entries.dom().contains(q) == fs.entries.dom().contains(q));
    }
}

/// Move-and-link: moving a directory `a` with nested content to `b` and
/// then linking `b` back to `a` succeeds, leaves `a` a symlink resolving to
/// `b`, and leaves `b` a directory containing `a`'s original tree.
pub proof fn lemma_move_and_link(
    fs: FsModel,
    a: Seq<u8>,
    b: Seq<u8>,
    force: bool,
    listing: Seq<Seq<u8>>,
)
    requires
        fs.is_dir(a),
        roots_disjoint(a, b),
        listing_ok(listing),
        forall|p: Seq<u8>|
            fs.entries.dom().contains(p) && strictly_under(p, a) ==> in_zone(a, listing, 0, p),
        fs.exists_at(b) ==> fs.is_dir(b),
        fs.has_children(b) ==> fs.exists_at(b),
        (fs.exists_at(b) && fs.has_children(b)) ==> force,
    ensures
        ({
            let mid = run_move(fs, a, b, force, listing);
            let fin = crate::link_machine::run_link(mid.0, b, a, force);
            &&& mid.1 == MoveStateV::Moved
            &&& fin.1 == crate::link_machine::LinkState::Done
            &&& fin.0.points_to(a, b)
            &&& fin.0.is_dir(b)
            &&& forall|p: Seq<u8>|
                fs.entries.dom().contains(p) && strictly_under(p, a) ==> {
                    &&& fin.0.entries.dom().contains(b + p.skip(a.len() as int))
                    &&& fin.0.entries[b + p.skip(a.len() as int)] == fs.entries[p]
                }
        }),
{
    reveal_with_fuel(crate::link_machine::run_link_from, 9);
    lemma_move_dir(fs, a, b, force, listing);
    let mid = run_move(fs, a, b, force, listing);
    let fin = crate::link_machine::run_link(mid.0, b, a, force);

    // After the move, a is an empty directory.
    assert(!mid.0.has_children(a)) by {
        if mid.0.has_children(a) {
            let w = choose|w: Seq<u8>| mid.0.entries.dom().contains(w) && strictly_under(w, a);
            assert(false);
        }
    }
    assert(mid.0.is_empty_dir(a));

    // The link run clears a (by the narrow removal or by force) and places
    // the symlink; everything at or under b survives untouched.
    if force {
        let cleared = mid.0.remove_subtree(a);
        assert(fin.0 == cleared.set_entry(a, FsEntry::Symlink(b)));
        assert forall|p: Seq<u8>|
            fs.entries.dom().contains(p) && strictly_under(p, a) implies {
            &&& fin.0.entries.dom().contains(b + p.skip(a.len() as int))
            &&& fin.0.entries[b + p.skip(a.len() as int)] == fs.entries[p]
        } by {
            let q = b + p.skip(a.len() as int);
            lemma_move_subtree_maps(fs, a, b, p);
            if at_or_under(q, a) {
                lemma_incomparable_disjoint(a, b, q);
            }
        }
        if at_or_under(b, a) {
            assert(false);
        }
    } else {
        let cleared = mid.0.remove_entry(a);
        assert(fin.0 == cleared.set_entry(a, FsEntry::Symlink(b)));
        assert forall|p: Seq<u8>|
            fs.entries.dom().contains(p) && strictly_under(p, a) implies {
            &&& fin.0.entries.dom().contains(b + p.skip(a.len() as int))
            &&& fin.0.entries[b + p.skip(a.len() as int)] == fs.entries[p]
        } by {
            let q = b + p.skip(a.len() as int);
            lemma_move_subtree_maps(fs, a, b, p);
            if q == a {
                lemma_incomparable_disjoint(a, b, q);
            }
        }
    }
}

/// The outcome of a terminal state, `None` while the move still runs.
pub fn move_outcome(s: &MoveState) -> (r: Option<Result<(), MoveError>>)
    ensures
        r == match move_state_view(*s) {
            MoveStateV::Moved => Some(Result::<(), MoveError>::Ok(())),
            MoveStateV::Stopped(e) => Some(Result::<(), MoveError>::Err(e)),
            _ => None::<Result<(), MoveError>>,
        },
{
    match s {
        MoveState::Moved => Some(Ok(())),
        MoveState::Stopped(e) => Some(Err(*e)),
        _ => None,
    }
}

} // verus!
