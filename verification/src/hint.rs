//! Hints for the optimiser.

use vstd::prelude::*;

verus! {

/// Does nothing; branches that call it are not expected to be taken.
#[inline(never)]
pub fn cold() {
}

/// Returns `b`, which is expected to be `true`.
pub fn likely(b: bool) -> (r: bool)
    ensures
        r == b,
{
    if !b {
        cold();
    }
    b
}

/// Returns `b`, which is expected to be `false`.
pub fn unlikely(b: bool) -> (r: bool)
    ensures
        r == b,
{
    if b {
        cold();
    }
    b
}

} // verus!
