//! What the heap assumes of the standard library's slices.

use vstd::prelude::*;

verus! {

/// `<[T]>::swap`, `slice.swap(a, b)` of the standard library: it exchanges the
/// elements at the two positions and leaves every other element alone; with
/// `a == b` nothing changes. It panics when a position is out of bounds, so
/// both must lie within the slice.
pub assume_specification<A>[ <[A]>::swap ](slice: &mut [A], a: usize, b: usize)
    requires
        a < old(slice)@.len(),
        b < old(slice)@.len(),
    ensures
        final(slice)@ == old(slice)@.update(a as int, old(slice)@[b as int]).update(
            b as int,
            old(slice)@[a as int],
        ),
;

} // verus!
