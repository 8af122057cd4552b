//! The ordering policy of a heap: which of two elements belongs nearer the root.

use core::cmp::Ordering;
use vstd::laws_cmp::obeys_cmp;
use vstd::laws_cmp::obeys_cmp_ord;
use vstd::laws_cmp::obeys_cmp_partial_ord;
use vstd::laws_cmp::obeys_partial_cmp_spec_properties;
use vstd::laws_eq::obeys_eq_spec_properties;
use vstd::prelude::*;
use vstd::std_specs::cmp::PartialOrdSpec;

verus! {

/// The priority predicate of a heap, fixed when the heap is built.
///
/// `LessThan` ranks the smaller of two elements higher (a min-heap),
/// `GreaterThan` the larger (a max-heap).
#[derive(Clone, Copy, Debug, PartialEq, Eq, Structural)]
pub enum Comparator {
    LessThan,
    GreaterThan,
}

/// The natural order of `T` is a total order that the verifier knows: the
/// executable comparisons compute it, and it is transitive and trichotomous.
pub open spec fn total_order<T: Ord>() -> bool {
    obeys_cmp::<T>()
}

impl Comparator {
    /// `a` belongs above `b`: strictly smaller under `LessThan`, strictly
    /// larger under `GreaterThan`.
    pub open spec fn outranks<T: Ord>(self, a: T, b: T) -> bool {
        match self {
            Comparator::LessThan => a.partial_cmp_spec(&b) == Some(Ordering::Less),
            Comparator::GreaterThan => a.partial_cmp_spec(&b) == Some(Ordering::Greater),
        }
    }

    /// Decides whether `a` belongs above `b`.
    pub fn higher_priority<T: Ord>(&self, a: &T, b: &T) -> (r: bool)
        requires
            total_order::<T>(),
        ensures
            r == self.outranks(*a, *b),
    {
        proof {
            reveal(obeys_cmp_partial_ord);
        }
        match self {
            Comparator::LessThan => *a < *b,
            Comparator::GreaterThan => *a > *b,
        }
    }
}

/// No element outranks itself.
pub proof fn lemma_irreflexive<T: Ord>(c: Comparator, a: T)
    requires
        total_order::<T>(),
    ensures
        !c.outranks(a, a),
{
    reveal(obeys_partial_cmp_spec_properties);
}

/// Of two elements at most one outranks the other.
pub proof fn lemma_asymmetric<T: Ord>(c: Comparator, a: T, b: T)
    requires
        total_order::<T>(),
        c.outranks(a, b),
    ensures
        !c.outranks(b, a),
{
    reveal(obeys_partial_cmp_spec_properties);
}

/// Outranking is transitive.
pub proof fn lemma_transitive<T: Ord>(c: Comparator, x: T, y: T, z: T)
    requires
        total_order::<T>(),
        c.outranks(x, y),
        c.outranks(y, z),
    ensures
        c.outranks(x, z),
{
    reveal(obeys_partial_cmp_spec_properties);
}

/// Not outranking is transitive too: if `x` does not outrank `y` and `y` does
/// not outrank `z`, then `x` does not outrank `z`.
pub proof fn lemma_negatively_transitive<T: Ord>(c: Comparator, x: T, y: T, z: T)
    requires
        total_order::<T>(),
        !c.outranks(x, y),
        !c.outranks(y, z),
    ensures
        !c.outranks(x, z),
{
    reveal(obeys_partial_cmp_spec_properties);
    reveal(obeys_eq_spec_properties);
    reveal(obeys_cmp_partial_ord);
    reveal(obeys_cmp_ord);
}

} // verus!
