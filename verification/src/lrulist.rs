//! Expiry of least recently used elements: elements are dropped from the front of the list
//! until a number of them was dropped that nobody else held.
use vstd::prelude::*;

verus! {

/// One element was taken from the front of the list: when nobody else held it (`unique`)
/// it counts towards the `n` elements still to expire, otherwise it is dropped without
/// counting. Returns how many are still to expire.
pub fn expire_step(n: usize, unique: bool) -> (m: usize)
    requires
        n >= 1,
    ensures
        m == (if unique { n - 1 } else { n as int }),
{
    if unique {
        n - 1
    } else {
        n
    }
}

} // verus!
