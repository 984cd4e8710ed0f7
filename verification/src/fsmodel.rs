//! Mathematical model of the filesystem, used only in specifications and
//! proofs.
//!
//! A filesystem is a finite map from absolute paths (byte sequences) to
//! entries.  Directory structure is encoded in the paths themselves: `p` lies
//! inside directory `d` exactly when `p` extends `d` with a `/` (byte 47) and
//! more bytes.  The model is the well-behaved filesystem against which the
//! state machines of this crate are proved: probes answer truthfully,
//! removals remove, and the link primitive succeeds exactly when the
//! destination path is free.

use vstd::prelude::*;

verus! {

/// One filesystem entry.
pub enum FsEntry {
    /// A regular file.
    File,
    /// A directory.
    Dir,
    /// A symbolic link whose target is the given path.
    Symlink(Seq<u8>),
}

/// A filesystem state: a map from absolute paths to entries.
pub struct FsModel {
    pub entries: Map<Seq<u8>, FsEntry>,
}

/// `p` lies strictly inside directory `d`: it extends `d` with a separator
/// (byte 47, `/`) and arbitrary further bytes.
pub open spec fn strictly_under(p: Seq<u8>, d: Seq<u8>) -> bool {
    &&& p.len() > d.len()
    &&& p.subrange(0, d.len() as int) == d
    &&& p[d.len() as int] == 47u8
}

/// `p` is `d` itself or lies strictly inside it.
pub open spec fn at_or_under(p: Seq<u8>, d: Seq<u8>) -> bool {
    p == d || strictly_under(p, d)
}

/// The path of entry `n` directly inside directory `d`.
pub open spec fn path_join(d: Seq<u8>, n: Seq<u8>) -> Seq<u8> {
    d + seq![47u8] + n
}

/// A plain entry name: non-empty and free of separators, as the names that a
/// directory listing yields are.
pub open spec fn plain_name(n: Seq<u8>) -> bool {
    n.len() > 0 && (forall|i: int| 0 <= i < n.len() ==> n[i] != 47u8)
}

impl FsModel {
    /// The path is present (as a file, directory or symlink).
    pub open spec fn exists_at(self, p: Seq<u8>) -> bool {
        self.entries.dom().contains(p)
    }

    pub open spec fn is_file(self, p: Seq<u8>) -> bool {
        self.exists_at(p) && self.entries[p] is File
    }

    pub open spec fn is_dir(self, p: Seq<u8>) -> bool {
        self.exists_at(p) && self.entries[p] is Dir
    }

    /// The destination resolves to `target`: it is a symlink naming it.
    pub open spec fn points_to(self, p: Seq<u8>, target: Seq<u8>) -> bool {
        self.exists_at(p) && self.entries[p] == FsEntry::Symlink(target)
    }

    /// Some entry lies strictly inside `d`.
    pub open spec fn has_children(self, d: Seq<u8>) -> bool {
        exists|p: Seq<u8>| self.entries.dom().contains(p) && strictly_under(p, d)
    }

    /// `d` is a directory with nothing inside it.
    pub open spec fn is_empty_dir(self, d: Seq<u8>) -> bool {
        self.is_dir(d) && !self.has_children(d)
    }

    /// Remove the single entry at `p`.
    pub open spec fn remove_entry(self, p: Seq<u8>) -> FsModel {
        FsModel { entries: self.entries.remove(p) }
    }

    /// Set the entry at `p`.
    pub open spec fn set_entry(self, p: Seq<u8>, e: FsEntry) -> FsModel {
        FsModel { entries: self.entries.insert(p, e) }
    }

    /// Remove `d` together with everything inside it.
    pub open spec fn remove_subtree(self, d: Seq<u8>) -> FsModel {
        FsModel {
            entries: Map::new(
                |p: Seq<u8>| self.entries.dom().contains(p) && !at_or_under(p, d),
                |p: Seq<u8>| self.entries[p],
            ),
        }
    }

    /// Relocate the whole subtree rooted at `a` to root `b`, clearing
    /// whatever stood at or under `b` before.
    pub open spec fn move_subtree(self, a: Seq<u8>, b: Seq<u8>) -> FsModel {
        FsModel {
            entries: Map::new(
                |q: Seq<u8>| if at_or_under(q, b) {
                    self.entries.dom().contains(a + q.skip(b.len() as int))
                } else {
                    self.entries.dom().contains(q) && !at_or_under(q, a)
                },
                |q: Seq<u8>| if at_or_under(q, b) {
                    self.entries[a + q.skip(b.len() as int)]
                } else {
                    self.entries[q]
                },
            ),
        }
    }
}

/// A path inside `a` is a path inside `b` whenever `a` is inside `b`.
pub proof fn lemma_at_or_under_trans(p: Seq<u8>, a: Seq<u8>, b: Seq<u8>)
    requires
        at_or_under(p, a),
        at_or_under(a, b),
    ensures
        at_or_under(p, b),
{
    if p == a || a == b {
    } else {
        assert(p.subrange(0, b.len() as int) =~= a.subrange(0, b.len() as int));
        assert(p[b.len() as int] == a[b.len() as int]);
    }
}

/// Two roots that each contain a common path are comparable: the shorter
/// contains the longer.
pub proof fn lemma_common_path_comparable(a: Seq<u8>, b: Seq<u8>, p: Seq<u8>)
    requires
        at_or_under(p, a),
        at_or_under(p, b),
        a.len() <= b.len(),
    ensures
        at_or_under(b, a),
{
    if p == b {
    } else if p == a {
        // p is strictly inside b, so p is longer than b; yet p == a is at
        // most as long as b.
        assert(p.len() > b.len());
        assert(false);
    } else {
        // p lies strictly inside both roots, so each root is a prefix of p.
        assert(forall|i: int| 0 <= i < a.len() ==> #[trigger] a[i] == p.subrange(
            0,
            a.len() as int,
        )[i]);
        assert(forall|i: int| 0 <= i < b.len() ==> #[trigger] b[i] == p.subrange(
            0,
            b.len() as int,
        )[i]);
        if a.len() == b.len() {
            assert(a =~= b);
        } else {
            assert(b.subrange(0, a.len() as int) =~= a);
            assert(b[a.len() as int] == p[a.len() as int]);
            assert(strictly_under(b, a));
        }
    }
}

/// Subtrees of incomparable roots are disjoint.
pub proof fn lemma_incomparable_disjoint(a: Seq<u8>, b: Seq<u8>, p: Seq<u8>)
    requires
        !at_or_under(a, b),
        !at_or_under(b, a),
    ensures
        !(at_or_under(p, a) && at_or_under(p, b)),
{
    if at_or_under(p, a) && at_or_under(p, b) {
        if a.len() <= b.len() {
            lemma_common_path_comparable(a, b, p);
        } else {
            lemma_common_path_comparable(b, a, p);
        }
    }
}

/// A joined path lies strictly inside the directory it was joined under.
pub proof fn lemma_join_strictly_under(d: Seq<u8>, n: Seq<u8>)
    ensures
        strictly_under(path_join(d, n), d),
{
    assert(path_join(d, n).subrange(0, d.len() as int) =~= d);
}

/// Joining distinct plain names under one directory gives roots neither of
/// which contains the other.
pub proof fn lemma_join_distinct_incomparable(s: Seq<u8>, a: Seq<u8>, b: Seq<u8>)
    requires
        plain_name(a),
        plain_name(b),
        a != b,
    ensures
        !at_or_under(path_join(s, a), path_join(s, b)),
        !at_or_under(path_join(s, b), path_join(s, a)),
{
    if at_or_under(path_join(s, a), path_join(s, b)) {
        lemma_join_comparable_eq(s, a, b);
    }
    if at_or_under(path_join(s, b), path_join(s, a)) {
        lemma_join_comparable_eq(s, b, a);
    }
}

/// If the path of plain name `a` under `s` lies at or under the path of
/// plain name `b` under `s`, the names are equal.
pub proof fn lemma_join_comparable_eq(s: Seq<u8>, a: Seq<u8>, b: Seq<u8>)
    requires
        plain_name(a),
        plain_name(b),
        at_or_under(path_join(s, a), path_join(s, b)),
    ensures
        a == b,
{
    let ja = path_join(s, a);
    let jb = path_join(s, b);
    if ja == jb {
        assert(ja.len() == jb.len());
        assert(a.len() == b.len());
        assert(a =~= b) by {
            assert(forall|i: int| 0 <= i < a.len() ==> #[trigger] a[i] == ja[s.len() + 1 + i]);
            assert(forall|i: int| 0 <= i < b.len() ==> #[trigger] b[i] == jb[s.len() + 1 + i]);
        }
    } else {
        // ja strictly inside jb: the byte of ja at jb's length is a
        // separator, yet it is a byte of the separator-free name a.
        assert(ja[jb.len() as int] == a[b.len() as int]);
        assert(false);
    }
}

/// What `move_subtree` holds at the relocated position of a source path.
pub proof fn lemma_move_subtree_maps(fs: FsModel, a: Seq<u8>, b: Seq<u8>, p: Seq<u8>)
    requires
        at_or_under(p, a),
    ensures
        at_or_under(b + p.skip(a.len() as int), b),
        fs.move_subtree(a, b).entries.dom().contains(b + p.skip(a.len() as int))
            == fs.entries.dom().contains(p),
        fs.entries.dom().contains(p)
            ==> fs.move_subtree(a, b).entries[b + p.skip(a.len() as int)] == fs.entries[p],
{
    let q = b + p.skip(a.len() as int);
    if p == a {
        assert(q =~= b);
    } else {
        assert(q.subrange(0, b.len() as int) =~= b);
        assert(q[b.len() as int] == p[a.len() as int]);
    }
    assert(a + q.skip(b.len() as int) =~= p);
}

/// Relocating a path under one child keeps its path relative to the parent:
/// the counterpart under `dst` of a path at or under `src/n` is the same
/// whether computed against the child root or against the parent root.
pub proof fn lemma_join_transfer(src: Seq<u8>, dst: Seq<u8>, n: Seq<u8>, p: Seq<u8>)
    requires
        at_or_under(p, path_join(src, n)),
    ensures
        path_join(dst, n) + p.skip(path_join(src, n).len() as int) == dst + p.skip(
            src.len() as int,
        ),
{
    let js = path_join(src, n);
    assert(forall|k: int| 0 <= k < js.len() ==> #[trigger] p[k] == js[k]) by {
        if p != js {
            assert(forall|k: int| 0 <= k < js.len() ==> #[trigger] p.subrange(
                0,
                js.len() as int,
            )[k] == p[k]);
        }
    }
    assert(path_join(dst, n) + p.skip(js.len() as int) =~= dst + p.skip(src.len() as int));
}

} // verus!
