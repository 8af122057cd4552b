//! The mathematical model of the heap: a sequence of elements in level order
//! (the root first, then its children, then theirs), and what insertion and
//! extraction do to such a sequence.

use crate::order::Comparator;
use vstd::prelude::*;

verus! {

/// Position of the parent of position `i`, for `i > 0`.
pub open spec fn parent(i: int) -> int {
    (i - 1) / 2
}

/// Position of the left child of position `i`.
pub open spec fn left_child(i: int) -> int {
    2 * i + 1
}

/// Position of the right child of position `i`.
pub open spec fn right_child(i: int) -> int {
    2 * i + 2
}

/// `s` with the elements at positions `i` and `j` exchanged.
pub open spec fn swapped<T>(s: Seq<T>, i: int, j: int) -> Seq<T> {
    s.update(i, s[j]).update(j, s[i])
}

/// The heap property: no element outranks its parent.
pub open spec fn heap_ordered<T: Ord>(c: Comparator, s: Seq<T>) -> bool {
    forall|i: int| 1 <= i < s.len() ==> !c.outranks(#[trigger] s[i], s[parent(i)])
}

/// No element of `s` outranks the root.
pub open spec fn root_leads<T: Ord>(c: Comparator, s: Seq<T>) -> bool {
    forall|i: int| 0 <= i < s.len() ==> !c.outranks(#[trigger] s[i], s[0])
}

/// Sift-up: the element at position `i` rises, exchanging places with its
/// parent, for as long as it outranks that parent and is not yet the root.
pub open spec fn sift_up<T: Ord>(c: Comparator, s: Seq<T>, i: int) -> Seq<T>
    decreases i,
{
    if 0 < i < s.len() && c.outranks(s[i], s[parent(i)]) {
        sift_up(c, swapped(s, i, parent(i)), parent(i))
    } else {
        s
    }
}

/// The child of `i` that the comparator prefers, where `i` has two children:
/// the left one if it outranks the right one, else the right one.
pub open spec fn preferred_child<T: Ord>(c: Comparator, s: Seq<T>, i: int) -> int {
    if c.outranks(s[left_child(i)], s[right_child(i)]) {
        left_child(i)
    } else {
        right_child(i)
    }
}

/// Sift-down: the element at position `i` sinks.
///
/// Where `i` has two children, the element changes places with the preferred
/// one, whether or not that child outranks it, and goes on sinking from there.
/// Where `i` has a left child only, the two are compared first: they change
/// places only if the child outranks the element, and the descent ends there,
/// since that child is the last leaf. Where `i` has no child, nothing moves.
pub open spec fn sift_down<T: Ord>(c: Comparator, s: Seq<T>, i: int) -> Seq<T>
    decreases s.len() - i,
{
    if i < 0 {
        s
    } else if right_child(i) < s.len() {
        let k = preferred_child(c, s, i);
        sift_down(c, swapped(s, i, k), k)
    } else if left_child(i) < s.len() && c.outranks(s[left_child(i)], s[i]) {
        swapped(s, i, left_child(i))
    } else {
        s
    }
}

/// The heap after `value` was added: appended as the last leaf, then sifted up.
pub open spec fn inserted<T: Ord>(c: Comparator, s: Seq<T>, value: T) -> Seq<T> {
    sift_up(c, s.push(value), s.len() as int)
}

/// `s` without its root, the last element standing in the root's place. A
/// sequence of one element simply becomes empty.
pub open spec fn root_replaced<T>(s: Seq<T>) -> Seq<T> {
    if s.len() <= 1 {
        Seq::empty()
    } else {
        s.drop_last().update(0, s.last())
    }
}

/// The heap after its root was taken out: the last element replaces the root
/// and is sifted down. An empty heap stays empty.
pub open spec fn extracted<T: Ord>(c: Comparator, s: Seq<T>) -> Seq<T> {
    sift_down(c, root_replaced(s), 0)
}

/// The roots that `n` successive extractions from `s` yield, in the order in
/// which they come out; fewer than `n` if the heap runs empty first.
pub open spec fn drained_up_to<T: Ord>(c: Comparator, s: Seq<T>, n: nat) -> Seq<T>
    decreases n,
{
    if n == 0 || s.len() == 0 {
        Seq::empty()
    } else {
        seq![s[0]] + drained_up_to(c, extracted(c, s), (n - 1) as nat)
    }
}

/// The roots that extraction yields when `s` is emptied completely.
pub open spec fn drained<T: Ord>(c: Comparator, s: Seq<T>) -> Seq<T> {
    drained_up_to(c, s, s.len())
}

/// The elements of `d` stand in priority order: none outranks one before it.
/// Under `LessThan` that is non-decreasing order, under `GreaterThan`
/// non-increasing order.
pub open spec fn in_priority_order<T: Ord>(c: Comparator, d: Seq<T>) -> bool {
    forall|i: int, j: int| 0 <= i < j < d.len() ==> !c.outranks(#[trigger] d[j], #[trigger] d[i])
}

/// At each of the next `n` extractions from `s` no element of the heap
/// outranks the root that is taken out.
pub open spec fn root_leads_for<T: Ord>(c: Comparator, s: Seq<T>, n: nat) -> bool
    decreases n,
{
    n == 0 || s.len() == 0 || (root_leads(c, s) && root_leads_for(
        c,
        extracted(c, s),
        (n - 1) as nat,
    ))
}

/// While `s` is emptied, no element of the heap ever outranks the root that
/// is taken out.
pub open spec fn root_leads_throughout<T: Ord>(c: Comparator, s: Seq<T>) -> bool {
    root_leads_for(c, s, s.len())
}

/// Exchanging two elements keeps the length and the multiset of elements.
pub proof fn lemma_swapped_keeps_elements<T>(s: Seq<T>, i: int, j: int)
    requires
        0 <= i < s.len(),
        0 <= j < s.len(),
    ensures
        swapped(s, i, j).len() == s.len(),
        swapped(s, i, j).to_multiset() == s.to_multiset(),
{
    broadcast use vstd::multiset::group_multiset_axioms;

    let t = s.update(i, s[j]);
    vstd::seq_lib::to_multiset_update(s, i, s[j]);
    vstd::seq_lib::to_multiset_update(t, j, s[i]);
    vstd::seq_lib::to_multiset_contains(s, s[i]);
    vstd::seq_lib::to_multiset_contains(s, s[j]);
    assert(s.contains(s[i]));
    assert(s.contains(s[j]));
    assert(swapped(s, i, j).to_multiset() =~= s.to_multiset());
}

/// Sift-up keeps the length and the multiset of elements.
pub proof fn lemma_sift_up_keeps_elements<T: Ord>(c: Comparator, s: Seq<T>, i: int)
    ensures
        sift_up(c, s, i).len() == s.len(),
        sift_up(c, s, i).to_multiset() == s.to_multiset(),
    decreases i,
{
    if 0 < i < s.len() && c.outranks(s[i], s[parent(i)]) {
        lemma_swapped_keeps_elements(s, i, parent(i));
        lemma_sift_up_keeps_elements(c, swapped(s, i, parent(i)), parent(i));
    }
}

/// Sift-down keeps the length and the multiset of elements.
pub proof fn lemma_sift_down_keeps_elements<T: Ord>(c: Comparator, s: Seq<T>, i: int)
    ensures
        sift_down(c, s, i).len() == s.len(),
        sift_down(c, s, i).to_multiset() == s.to_multiset(),
    decreases s.len() - i,
{
    if i < 0 {
    } else if right_child(i) < s.len() {
        let k = preferred_child(c, s, i);
        lemma_swapped_keeps_elements(s, i, k);
        lemma_sift_down_keeps_elements(c, swapped(s, i, k), k);
    } else if left_child(i) < s.len() && c.outranks(s[left_child(i)], s[i]) {
        lemma_swapped_keeps_elements(s, i, left_child(i));
    }
}

/// Insertion adds exactly `value` to the elements of the heap.
pub proof fn lemma_inserted_elements<T: Ord>(c: Comparator, s: Seq<T>, value: T)
    ensures
        inserted(c, s, value).len() == s.len() + 1,
        inserted(c, s, value).to_multiset() == s.to_multiset().insert(value),
{
    vstd::seq_lib::to_multiset_build(s, value);
    lemma_sift_up_keeps_elements(c, s.push(value), s.len() as int);
}

/// Extraction takes exactly the root out of the elements of the heap.
pub proof fn lemma_extracted_elements<T: Ord>(c: Comparator, s: Seq<T>)
    ensures
        s.len() == 0 ==> extracted(c, s) == s,
        s.len() > 0 ==> extracted(c, s).len() == s.len() - 1,
        s.len() > 0 ==> extracted(c, s).to_multiset() == s.to_multiset().remove(s[0]),
{
    broadcast use vstd::multiset::group_multiset_axioms;

    let t = root_replaced(s);
    lemma_sift_down_keeps_elements(c, t, 0);
    if s.len() == 0 {
        assert(t =~= s);
    } else if s.len() == 1 {
        assert(s.remove(0) =~= t);
        vstd::seq_lib::to_multiset_remove(s, 0);
    } else {
        let d = s.drop_last();
        assert(d =~= s.remove(s.len() - 1));
        vstd::seq_lib::to_multiset_remove(s, s.len() - 1);
        vstd::seq_lib::to_multiset_update(d, 0, s.last());
        vstd::seq_lib::to_multiset_contains(s, s.last());
        vstd::seq_lib::to_multiset_contains(s, s[0]);
        assert(s.contains(s.last()));
        assert(s.contains(s[0]));
        assert(t.to_multiset() =~= s.to_multiset().remove(s[0]));
    }
}

} // verus!
