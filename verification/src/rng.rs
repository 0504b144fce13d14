//! The injected source of uniform randomness, used for parameter
//! initialization and for shuffling the training set.

use vstd::prelude::*;
use crate::fixed::SCALE;

verus! {

/// Relies on rand::random::<u64>: a 64-bit word drawn from the thread-local
/// generator. Nothing is assumed of the value.
#[verifier::external_body]
fn rand_word() -> u64 {
    rand::random::<u64>()
}

/// A raw fixed-point value drawn from `[0, 1)`; every call may differ.
pub fn rand_unit() -> (r: i64)
    ensures 0 <= r < SCALE,
{
    (rand_word() % (SCALE as u64)) as i64
}

/// An index below `n`; every call may differ.
pub fn rand_index(n: usize) -> (r: usize)
    requires n > 0,
    ensures r < n,
{
    (rand_word() % (n as u64)) as usize
}

} // verus!
