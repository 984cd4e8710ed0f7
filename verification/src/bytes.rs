//! Byte-sequence helpers shared by the state machines and the codec.
//!
//! Paths travel through the library as plain byte vectors; the shell decides
//! how they were encoded.

use vstd::prelude::*;

use crate::fsmodel::path_join;

verus! {

/// Equality of two byte vectors.
pub fn bytes_eq(a: &Vec<u8>, b: &Vec<u8>) -> (r: bool)
    ensures
        r == (a@ == b@),
{
    if a.len() != b.len() {
        return false;
    }
    let mut i: usize = 0;
    while i < a.len()
        invariant
            a.len() == b.len(),
            i <= a.len(),
            forall|j: int| 0 <= j < i ==> a@[j] == b@[j],
        decreases a.len() - i,
    {
        if a[i] != b[i] {
            return false;
        }
        i += 1;
    }
    proof {
        assert(a@ =~= b@);
    }
    true
}

/// A copy of a byte vector.
pub fn clone_bytes(v: &Vec<u8>) -> (r: Vec<u8>)
    ensures
        r@ == v@,
{
    let mut r: Vec<u8> = Vec::new();
    let mut i: usize = 0;
    while i < v.len()
        invariant
            i <= v.len(),
            r@ =~= v@.subrange(0, i as int),
        decreases v.len() - i,
    {
        r.push(v[i]);
        i += 1;
    }
    proof {
        assert(r@ =~= v@);
    }
    r
}

/// The path of entry `name` directly inside directory `dir`.
pub fn join_path(dir: &Vec<u8>, name: &Vec<u8>) -> (r: Vec<u8>)
    ensures
        r@ == path_join(dir@, name@),
{
    let mut r: Vec<u8> = Vec::new();
    let mut i: usize = 0;
    while i < dir.len()
        invariant
            i <= dir.len(),
            r@ =~= dir@.subrange(0, i as int),
        decreases dir.len() - i,
    {
        r.push(dir[i]);
        i += 1;
    }
    r.push(47);
    let mut j: usize = 0;
    while j < name.len()
        invariant
            j <= name.len(),
            r@ =~= dir@ + seq![47u8] + name@.subrange(0, j as int),
        decreases name.len() - j,
    {
        r.push(name[j]);
        j += 1;
    }
    proof {
        assert(r@ =~= path_join(dir@, name@));
    }
    r
}

} // verus!
