//! Replaying a mapping: each record is one link transaction, run in file
//! order; the first record that fails aborts the batch, and what earlier
//! records did is kept (no rollback).

use vstd::prelude::*;

use crate::codec::RecordV;
use crate::fsmodel::{at_or_under, lemma_common_path_comparable, strictly_under, FsEntry, FsModel};
use crate::link_machine::{run_link, LinkState};

verus! {

/// Run a replay against the filesystem model: the state after the batch and
/// whether every record went through.
pub open spec fn run_replay(fs: FsModel, recs: Seq<RecordV>) -> (FsModel, bool)
    decreases recs.len(),
{
    if recs.len() == 0 {
        (fs, true)
    } else {
        let step = run_link(fs, recs[0].src, recs[0].dst, recs[0].force);
        if step.1 == LinkState::Done {
            run_replay(step.0, recs.skip(1))
        } else {
            (step.0, false)
        }
    }
}

/// Replaying a one-record mapping with force twice leaves the same
/// filesystem state as replaying it once, whether the runs succeed or fail.
/// As in the single-link law, the filesystem must be parent-closed at the
/// record's destination.
pub proof fn lemma_replay_single_idempotent(fs: FsModel, r: RecordV)
    requires
        r.force,
        fs.has_children(r.dst) ==> fs.exists_at(r.dst),
    ensures
        run_replay(run_replay(fs, seq![r]).0, seq![r]).0 == run_replay(fs, seq![r]).0,
{
    reveal_with_fuel(run_replay, 3);
    let one = seq![r];
    assert(one.skip(1) =~= Seq::<RecordV>::empty());
    let fs1 = run_link(fs, r.src, r.dst, r.force).0;
    assert(run_replay(fs, one).0 == fs1);
    crate::link_machine::lemma_link_forced_idempotent(fs, r.src, r.dst);
    assert(run_replay(fs1, one).0 == run_link(fs1, r.src, r.dst, r.force).0);
}

/// Whatever a forced link run does, it touches nothing outside the
/// destination's subtree.
proof fn lemma_forced_link_outside(fs: FsModel, src: Seq<u8>, dst: Seq<u8>, q: Seq<u8>)
    requires
        !at_or_under(q, dst),
    ensures
        run_link(fs, src, dst, true).0.entries.dom().contains(q) == fs.entries.dom().contains(q),
        fs.entries.dom().contains(q) ==> run_link(fs, src, dst, true).0.entries[q]
            == fs.entries[q],
{
    reveal_with_fuel(crate::link_machine::run_link_from, 9);
}

/// A forced link run with an existing source distinct from the destination
/// succeeds against the model and leaves the destination's subtree holding
/// exactly the new link — provided the filesystem is parent-closed at the
/// destination.
proof fn lemma_forced_link_region(fs: FsModel, src: Seq<u8>, dst: Seq<u8>)
    requires
        fs.exists_at(src),
        src != dst,
        fs.has_children(dst) ==> fs.exists_at(dst),
    ensures
        run_link(fs, src, dst, true).1 == LinkState::Done,
        run_link(fs, src, dst, true).0.points_to(dst, src),
        forall|q: Seq<u8>|
            strictly_under(q, dst) ==> !run_link(fs, src, dst, true).0.entries.dom().contains(q),
{
    reveal_with_fuel(crate::link_machine::run_link_from, 9);
    if !fs.exists_at(dst) {
        assert forall|q: Seq<u8>| strictly_under(q, dst) implies !fs.entries.dom().contains(
            q,
        ) by {
            if fs.entries.dom().contains(q) {
                assert(fs.has_children(dst));
            }
        }
    }
}

/// A forced link run that fails leaves the model filesystem untouched: the
/// only failures the model admits are a missing source and a destination
/// equal to the source, both found before any action.
proof fn lemma_forced_link_failure(fs: FsModel, src: Seq<u8>, dst: Seq<u8>)
    requires
        !fs.exists_at(src) || src == dst,
    ensures
        run_link(fs, src, dst, true).0 == fs,
        run_link(fs, src, dst, true).1 != LinkState::Done,
{
    reveal_with_fuel(crate::link_machine::run_link_from, 9);
}

/// A replay of forced records touches nothing outside their destinations'
/// subtrees.
proof fn lemma_replay_outside(fs: FsModel, recs: Seq<RecordV>, q: Seq<u8>)
    requires
        forall|j: int| 0 <= j < recs.len() ==> (#[trigger] recs[j]).force,
        forall|j: int| 0 <= j < recs.len() ==> !at_or_under(q, (#[trigger] recs[j]).dst),
    ensures
        run_replay(fs, recs).0.entries.dom().contains(q) == fs.entries.dom().contains(q),
        fs.entries.dom().contains(q) ==> run_replay(fs, recs).0.entries[q] == fs.entries[q],
    decreases recs.len(),
{
    if recs.len() > 0 {
        lemma_forced_link_outside(fs, recs[0].src, recs[0].dst, q);
        let step = run_link(fs, recs[0].src, recs[0].dst, recs[0].force);
        if step.1 == LinkState::Done {
            lemma_replay_outside(step.0, recs.skip(1), q);
        }
    }
}

/// The records of a batch are independent: no record's source lies inside
/// any record's destination, and no two destinations contain one another.
pub open spec fn independent_records(recs: Seq<RecordV>) -> bool {
    &&& forall|i: int, j: int|
        0 <= i < recs.len() && 0 <= j < recs.len() ==> !at_or_under(
            (#[trigger] recs[i]).src,
            (#[trigger] recs[j]).dst,
        )
    &&& forall|i: int, j: int|
        0 <= i < recs.len() && 0 <= j < recs.len() && i != j ==> !at_or_under(
            (#[trigger] recs[i]).dst,
            (#[trigger] recs[j]).dst,
        )
}

/// Replaying a batch of independent forced records twice leaves the same
/// filesystem state as replaying it once, whether the replays run through
/// or abort — on a filesystem parent-closed at every destination.  (Without
/// the independence there are batches for which this fails: a record whose
/// destination contains a later record's source makes the second replay
/// abort after undoing work it cannot redo.)
#[verifier::rlimit(100)]
pub proof fn lemma_replay_independent_idempotent(fs: FsModel, recs: Seq<RecordV>)
    requires
        forall|j: int| 0 <= j < recs.len() ==> (#[trigger] recs[j]).force,
        independent_records(recs),
        forall|j: int|
            0 <= j < recs.len() ==> (fs.has_children((#[trigger] recs[j]).dst) ==> fs.exists_at(
                recs[j].dst,
            )),
    ensures
        run_replay(run_replay(fs, recs).0, recs).0 == run_replay(fs, recs).0,
    decreases recs.len(),
{
    reveal_with_fuel(run_replay, 2);
    if recs.len() == 0 {
    } else {
        let r0 = recs[0];
        let tail = recs.skip(1);
        let step = run_link(fs, r0.src, r0.dst, true);
        if !fs.exists_at(r0.src) || r0.src == r0.dst {
            // The batch aborts at its first record, both times, changing
            // nothing.
            lemma_forced_link_failure(fs, r0.src, r0.dst);
            assert(run_replay(fs, recs).0 == fs);
            lemma_forced_link_failure(fs, r0.src, r0.dst);
        } else {
            lemma_forced_link_region(fs, r0.src, r0.dst);
            let fs1 = step.0;
            let s1 = run_replay(fs1, tail).0;
            assert(run_replay(fs, recs).0 == s1);

            // The tail's conditions hold of fs1.
            assert forall|j: int|
                0 <= j < tail.len() implies (fs1.has_children((#[trigger] tail[j]).dst)
                ==> fs1.exists_at(tail[j].dst)) by {
                if fs1.has_children(tail[j].dst) {
                    let w = choose|w: Seq<u8>|
                        fs1.entries.dom().contains(w) && strictly_under(w, tail[j].dst);
                    lemma_forced_link_outside(fs, r0.src, r0.dst, w);
                    if at_or_under(w, r0.dst) {
                        // Inside r0's region only the link itself remains,
                        // and it is no child of an independent destination.
                        assert(w == r0.dst);
                        assert(at_or_under(r0.dst, tail[j].dst));
                        assert(false);
                    }
                    assert(fs.entries.dom().contains(w));
                    assert(fs.has_children(tail[j].dst));
                    lemma_forced_link_outside(fs, r0.src, r0.dst, tail[j].dst);
                }
            }
            lemma_replay_independent_idempotent(fs1, tail);
            assert(run_replay(s1, tail).0 == s1);

            // The first record's source and link survive the tail.
            assert forall|j: int| 0 <= j < tail.len() implies !at_or_under(
                r0.src,
                (#[trigger] tail[j]).dst,
            ) && !at_or_under(r0.dst, tail[j].dst) by {}
            assert(!at_or_under(r0.src, r0.dst));
            lemma_forced_link_outside(fs, r0.src, r0.dst, r0.src);
            assert(fs1.exists_at(r0.src));
            lemma_replay_outside(fs1, tail, r0.src);
            lemma_replay_outside(fs1, tail, r0.dst);
            assert(s1.exists_at(r0.src));
            assert(s1.entries.dom().contains(r0.dst) && s1.entries[r0.dst] == FsEntry::Symlink(
                r0.src,
            ));

            // Nothing sits inside the first record's destination after the
            // tail either: a path inside it and inside some tail
            // destination would make the two destinations comparable.
            assert forall|q: Seq<u8>| strictly_under(q, r0.dst) implies !s1.entries.dom().contains(
                q,
            ) by {
                assert forall|j: int| 0 <= j < tail.len() implies !at_or_under(
                    q,
                    (#[trigger] tail[j]).dst,
                ) by {
                    if at_or_under(q, tail[j].dst) {
                        if r0.dst.len() <= tail[j].dst.len() {
                            lemma_common_path_comparable(r0.dst, tail[j].dst, q);
                        } else {
                            lemma_common_path_comparable(tail[j].dst, r0.dst, q);
                        }
                    }
                }
                lemma_replay_outside(fs1, tail, q);
            }

            // So re-running the first record reproduces s1 exactly.
            lemma_forced_link_region(s1, r0.src, r0.dst);
            let t1 = run_link(s1, r0.src, r0.dst, true).0;
            assert forall|q: Seq<u8>| #[trigger] t1.entries.dom().contains(q)
                == s1.entries.dom().contains(q) && (s1.entries.dom().contains(q)
                ==> t1.entries[q] == s1.entries[q]) by {
                if at_or_under(q, r0.dst) {
                    if q == r0.dst {
                    } else {
                        assert(!t1.entries.dom().contains(q));
                        assert(!s1.entries.dom().contains(q));
                    }
                } else {
                    lemma_forced_link_outside(s1, r0.src, r0.dst, q);
                }
            }
            assert(t1.entries =~= s1.entries);
            assert(run_replay(run_replay(fs, recs).0, recs).0 == run_replay(t1, tail).0);
            assert(run_replay(t1, tail).0 == s1);
        }
    }
}

} // verus!
