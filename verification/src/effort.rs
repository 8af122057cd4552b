//! How much work one addition or one extraction does: the number of
//! exchanges is bounded by the depth of the tree, which is logarithmic in the
//! number of elements.

use crate::level_order::left_child;
use crate::level_order::parent;
use crate::level_order::preferred_child;
use crate::level_order::right_child;
use crate::level_order::root_replaced;
use crate::level_order::swapped;
use crate::order::Comparator;
use vstd::arithmetic::power2::lemma_pow2_unfold;
use vstd::arithmetic::power2::pow2;
use vstd::prelude::*;

verus! {

/// The depth of position `i`: the number of steps from it up to the root.
pub open spec fn depth(i: int) -> nat
    decreases i,
{
    if i <= 0 {
        0
    } else {
        1 + depth(parent(i))
    }
}

/// The number of exchanges that sift-up from position `i` makes.
pub open spec fn exchanges_up<T: Ord>(c: Comparator, s: Seq<T>, i: int) -> nat
    decreases i,
{
    if 0 < i < s.len() && c.outranks(s[i], s[parent(i)]) {
        1 + exchanges_up(c, swapped(s, i, parent(i)), parent(i))
    } else {
        0
    }
}

/// The number of exchanges that sift-down from position `i` makes.
pub open spec fn exchanges_down<T: Ord>(c: Comparator, s: Seq<T>, i: int) -> nat
    decreases s.len() - i,
{
    if i < 0 {
        0
    } else if right_child(i) < s.len() {
        let k = preferred_child(c, s, i);
        1 + exchanges_down(c, swapped(s, i, k), k)
    } else if left_child(i) < s.len() && c.outranks(s[left_child(i)], s[i]) {
        1
    } else {
        0
    }
}

/// The depth of a position is the binary logarithm, rounded down, of its
/// number counted from 1.
pub proof fn lemma_depth_is_logarithmic(i: int)
    requires
        0 <= i,
    ensures
        pow2(depth(i)) <= i + 1 < pow2(depth(i) + 1),
    decreases i,
{
    if i == 0 {
        lemma_pow2_unfold(1);
        assert(pow2(0) == 1) by {
            vstd::arithmetic::power2::lemma2_to64();
        }
    } else {
        lemma_depth_is_logarithmic(parent(i));
        lemma_pow2_unfold(depth(i));
        lemma_pow2_unfold(depth(i) + 1);
    }
}

/// A later position lies at least as deep as an earlier one.
pub proof fn lemma_depth_is_monotonic(i: int, j: int)
    requires
        0 <= i <= j,
    ensures
        depth(i) <= depth(j),
    decreases j,
{
    if i > 0 {
        lemma_depth_is_monotonic(parent(i), parent(j));
    }
}

/// Sift-up from position `i` makes at most as many exchanges as `i` is deep.
pub proof fn lemma_exchanges_up_bounded<T: Ord>(c: Comparator, s: Seq<T>, i: int)
    ensures
        exchanges_up(c, s, i) <= depth(i),
    decreases i,
{
    if 0 < i < s.len() && c.outranks(s[i], s[parent(i)]) {
        lemma_exchanges_up_bounded(c, swapped(s, i, parent(i)), parent(i));
    }
}

/// Sift-down from position `i` makes at most as many exchanges as the last
/// position lies deeper than `i`.
pub proof fn lemma_exchanges_down_bounded<T: Ord>(c: Comparator, s: Seq<T>, i: int)
    requires
        0 <= i < s.len(),
    ensures
        depth(i) + exchanges_down(c, s, i) <= depth(s.len() - 1),
    decreases s.len() - i,
{
    if right_child(i) < s.len() {
        let k = preferred_child(c, s, i);
        assert(parent(k) == i);
        lemma_exchanges_down_bounded(c, swapped(s, i, k), k);
    } else if left_child(i) < s.len() {
        assert(parent(left_child(i)) == i);
        lemma_depth_is_monotonic(left_child(i), s.len() - 1);
    } else {
        lemma_depth_is_monotonic(i, s.len() - 1);
    }
}

/// An addition to a heap of `n` elements makes at most `log2(n + 1)`
/// exchanges.
pub proof fn lemma_addition_effort<T: Ord>(c: Comparator, s: Seq<T>, value: T)
    ensures
        pow2(exchanges_up(c, s.push(value), s.len() as int)) <= s.len() + 1,
{
    let e = exchanges_up(c, s.push(value), s.len() as int);
    let d = depth(s.len() as int);
    lemma_exchanges_up_bounded(c, s.push(value), s.len() as int);
    lemma_depth_is_logarithmic(s.len() as int);
    if e < d {
        vstd::arithmetic::power2::lemma_pow2_strictly_increases(e, d);
    }
}

/// An extraction from a heap of `n` elements, `n > 1`, makes at most
/// `log2(n - 1)` exchanges; from a smaller heap it makes none.
pub proof fn lemma_extraction_effort<T: Ord>(c: Comparator, s: Seq<T>)
    ensures
        s.len() > 1 ==> pow2(exchanges_down(c, root_replaced(s), 0)) <= s.len() - 1,
        s.len() <= 1 ==> exchanges_down(c, root_replaced(s), 0) == 0,
{
    let t = root_replaced(s);
    if s.len() > 1 {
        let e = exchanges_down(c, t, 0);
        let d = depth(t.len() - 1);
        lemma_exchanges_down_bounded(c, t, 0);
        lemma_depth_is_logarithmic(t.len() - 1);
        if e < d {
            vstd::arithmetic::power2::lemma_pow2_strictly_increases(e, d);
        }
    }
}

} // verus!
