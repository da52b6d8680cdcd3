//! A threshold multi-party authorization gate in front of a hardware
//! security module: a weighted quorum of registered approvers must each
//! sign the exact request payload before any privileged signing or
//! key-administration operation is allowed.

pub mod database;
pub mod error;
pub mod hsm;
pub mod pgp;

use vstd::prelude::*;

verus! {

/// Copy a vector of plain values element by element.
pub fn copy_vec<T: Copy>(v: &Vec<T>) -> (r: Vec<T>)
    ensures
        r@ == v@,
{
    let mut r: Vec<T> = Vec::new();
    let mut i: usize = 0;
    while i < v.len()
        invariant
            i <= v@.len(),
            r@ == v@.take(i as int),
        decreases v@.len() - i,
    {
        r.push(v[i]);
        proof {
            assert(r@ =~= v@.take(i as int + 1));
        }
        i = i + 1;
    }
    proof {
        assert(v@.take(v@.len() as int) =~= v@);
    }
    r
}

} // verus!
