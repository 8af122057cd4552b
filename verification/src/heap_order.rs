//! How insertion and extraction treat the heap property.

use crate::level_order::extracted;
use crate::level_order::heap_ordered;
use crate::level_order::inserted;
use crate::level_order::left_child;
use crate::level_order::parent;
use crate::level_order::preferred_child;
use crate::level_order::right_child;
use crate::level_order::root_leads;
use crate::level_order::root_replaced;
use crate::level_order::sift_down;
use crate::level_order::sift_up;
use crate::level_order::swapped;
use crate::order::lemma_asymmetric;
use crate::order::lemma_irreflexive;
use crate::order::lemma_negatively_transitive;
use crate::order::lemma_transitive;
use crate::order::total_order;
use crate::order::Comparator;
use vstd::prelude::*;

verus! {

/// The heap property read from parent to child: at no position does a child
/// that is present outrank the element at that position.
pub open spec fn no_child_outranks<T: Ord>(c: Comparator, s: Seq<T>) -> bool {
    forall|i: int|
        0 <= i < s.len() ==> {
            &&& left_child(i) < s.len() ==> !c.outranks(s[left_child(i)], #[trigger] s[i])
            &&& right_child(i) < s.len() ==> !c.outranks(s[right_child(i)], s[i])
        }
}

/// It makes no difference whether the heap property is read from child to
/// parent or from parent to child.
pub proof fn lemma_heap_ordered_by_children<T: Ord>(c: Comparator, s: Seq<T>)
    ensures
        heap_ordered(c, s) <==> no_child_outranks(c, s),
{
    if heap_ordered(c, s) {
        assert forall|i: int| 0 <= i < s.len() implies {
            &&& left_child(i) < s.len() ==> !c.outranks(s[left_child(i)], #[trigger] s[i])
            &&& right_child(i) < s.len() ==> !c.outranks(s[right_child(i)], s[i])
        } by {
            assert(parent(left_child(i)) == i);
            assert(parent(right_child(i)) == i);
        }
    }
    if no_child_outranks(c, s) {
        assert forall|j: int| 1 <= j < s.len() implies !c.outranks(
            #[trigger] s[j],
            s[parent(j)],
        ) by {
            let i = parent(j);
            assert(j == left_child(i) || j == right_child(i));
        }
    }
}

/// The heap property holds of `s` everywhere but between position `i` and its
/// parent, and no child of `i` outranks the parent of `i`: the state of a heap
/// while the element at `i` is rising.
pub open spec fn ordered_except_above<T: Ord>(c: Comparator, s: Seq<T>, i: int) -> bool {
    &&& forall|j: int|
        1 <= j < s.len() && j != i ==> !c.outranks(#[trigger] s[j], s[parent(j)])
    &&& forall|j: int|
        1 <= j < s.len() && parent(j) == i && 1 <= i ==> !c.outranks(
            #[trigger] s[j],
            s[parent(i)],
        )
}

/// Sift-up from position `i` restores the heap property where only the
/// element at `i` may be out of place with respect to its parent.
pub proof fn lemma_sift_up_restores_order<T: Ord>(c: Comparator, s: Seq<T>, i: int)
    requires
        total_order::<T>(),
        0 <= i < s.len(),
        ordered_except_above(c, s, i),
    ensures
        heap_ordered(c, sift_up(c, s, i)),
    decreases i,
{
    if 0 < i && c.outranks(s[i], s[parent(i)]) {
        let p = parent(i);
        let t = swapped(s, i, p);
        assert forall|j: int| 1 <= j < t.len() && j != p implies !c.outranks(
            #[trigger] t[j],
            t[parent(j)],
        ) by {
            if j == i {
                lemma_asymmetric(c, s[i], s[p]);
            } else if parent(j) == p && c.outranks(s[j], s[i]) {
                lemma_transitive(c, s[j], s[i], s[p]);
            }
        }
        assert forall|j: int| 1 <= j < t.len() && parent(j) == p && 1 <= p implies !c.outranks(
            #[trigger] t[j],
            t[parent(p)],
        ) by {
            if j != i {
                lemma_negatively_transitive(c, s[j], s[p], s[parent(p)]);
            }
        }
        lemma_sift_up_restores_order(c, t, p);
    } else {
        assert forall|j: int| 1 <= j < s.len() implies !c.outranks(
            #[trigger] s[j],
            s[parent(j)],
        ) by {}
    }
}

/// Adding an element to a heap that has the heap property gives a heap that
/// has it.
pub proof fn lemma_inserted_is_ordered<T: Ord>(c: Comparator, s: Seq<T>, value: T)
    requires
        total_order::<T>(),
        heap_ordered(c, s),
    ensures
        heap_ordered(c, inserted(c, s, value)),
{
    let t = s.push(value);
    let n = s.len() as int;
    assert forall|j: int| 1 <= j < t.len() && j != n implies !c.outranks(
        #[trigger] t[j],
        t[parent(j)],
    ) by {
        assert(t[j] == s[j]);
        assert(t[parent(j)] == s[parent(j)]);
    }
    lemma_sift_up_restores_order(c, t, n);
}

/// In a heap that has the heap property no element outranks the root.
pub proof fn lemma_ordered_root_leads<T: Ord>(c: Comparator, s: Seq<T>)
    requires
        total_order::<T>(),
        heap_ordered(c, s),
    ensures
        root_leads(c, s),
{
    assert forall|i: int| 0 <= i < s.len() implies !c.outranks(#[trigger] s[i], s[0]) by {
        lemma_no_descendant_outranks_root(c, s, i);
    }
}

proof fn lemma_no_descendant_outranks_root<T: Ord>(c: Comparator, s: Seq<T>, i: int)
    requires
        total_order::<T>(),
        heap_ordered(c, s),
        0 <= i < s.len(),
    ensures
        !c.outranks(s[i], s[0]),
    decreases i,
{
    if i == 0 {
        lemma_irreflexive(c, s[0]);
    } else {
        lemma_no_descendant_outranks_root(c, s, parent(i));
        lemma_negatively_transitive(c, s[i], s[parent(i)], s[0]);
    }
}

/// The heap property holds of `s` everywhere but between position `i` and its
/// parent and between `i` and its children, and no child of `i` outranks the
/// parent of `i`: the state of a heap while the element at `i` is sinking.
pub open spec fn ordered_except_around<T: Ord>(c: Comparator, s: Seq<T>, i: int) -> bool {
    &&& forall|j: int|
        1 <= j < s.len() && j != i && parent(j) != i ==> !c.outranks(
            #[trigger] s[j],
            s[parent(j)],
        )
    &&& forall|j: int|
        1 <= j < s.len() && parent(j) == i && 1 <= i ==> !c.outranks(
            #[trigger] s[j],
            s[parent(i)],
        )
}

/// The element that sinks from position `i` comes to rest in order: at the
/// end of its descent it either changes places with a lone left child that
/// outranks it, or it stays at the root, or it stays below a parent that it
/// does not outrank.
pub open spec fn sinks_into_place<T: Ord>(c: Comparator, s: Seq<T>, i: int) -> bool
    decreases s.len() - i,
{
    if i < 0 {
        true
    } else if right_child(i) < s.len() {
        let k = preferred_child(c, s, i);
        sinks_into_place(c, swapped(s, i, k), k)
    } else if left_child(i) < s.len() && c.outranks(s[left_child(i)], s[i]) {
        true
    } else {
        i == 0 || !c.outranks(s[i], s[parent(i)])
    }
}

/// Sift-down from position `i`, where only the element at `i` may be out of
/// place, restores the heap property exactly when that element comes to rest
/// in order. The descent past two children never compares the sinking element
/// with the child that it passes, so it may carry the element below one that
/// it outranks.
pub proof fn lemma_sift_down_order<T: Ord>(c: Comparator, s: Seq<T>, i: int)
    requires
        total_order::<T>(),
        0 <= i < s.len(),
        ordered_except_around(c, s, i),
    ensures
        heap_ordered(c, sift_down(c, s, i)) <==> sinks_into_place(c, s, i),
    decreases s.len() - i,
{
    let l = left_child(i);
    let r = right_child(i);
    if r < s.len() {
        let k = preferred_child(c, s, i);
        let t = swapped(s, i, k);
        assert forall|j: int| 1 <= j < t.len() && j != k && parent(j) != k implies !c.outranks(
            #[trigger] t[j],
            t[parent(j)],
        ) by {
            if j == i {
                assert(!c.outranks(s[k], s[parent(i)]));
            } else if parent(j) == i && k == l {
                lemma_asymmetric(c, s[l], s[r]);
            }
        }
        assert forall|j: int| 1 <= j < t.len() && parent(j) == k && 1 <= k implies !c.outranks(
            #[trigger] t[j],
            t[parent(k)],
        ) by {
            assert(!c.outranks(s[j], s[parent(j)]));
        }
        lemma_sift_down_order(c, t, k);
    } else if l < s.len() && c.outranks(s[l], s[i]) {
        let t = swapped(s, i, l);
        assert forall|j: int| 1 <= j < t.len() implies !c.outranks(
            #[trigger] t[j],
            t[parent(j)],
        ) by {
            if j == l {
                lemma_asymmetric(c, s[l], s[i]);
            } else if j == i {
                assert(!c.outranks(s[l], s[parent(i)]));
            }
        }
    } else {
        if i == 0 || !c.outranks(s[i], s[parent(i)]) {
            assert forall|j: int| 1 <= j < s.len() implies !c.outranks(
                #[trigger] s[j],
                s[parent(j)],
            ) by {}
        } else {
            // The element at `i` itself breaks the heap property.
            assert(c.outranks(s[i], s[parent(i)]));
        }
    }
}

/// Extraction from a heap that has the heap property leaves a heap that has
/// it exactly when the last element, sinking from the root, comes to rest in
/// order.
pub proof fn lemma_extracted_order<T: Ord>(c: Comparator, s: Seq<T>)
    requires
        total_order::<T>(),
        heap_ordered(c, s),
    ensures
        heap_ordered(c, extracted(c, s)) <==> sinks_into_place(c, root_replaced(s), 0),
{
    let t = root_replaced(s);
    if t.len() > 0 {
        assert forall|j: int| 1 <= j < t.len() && parent(j) != 0 implies !c.outranks(
            #[trigger] t[j],
            t[parent(j)],
        ) by {
            assert(t[j] == s[j]);
            assert(t[parent(j)] == s[parent(j)]);
        }
        lemma_sift_down_order(c, t, 0);
    }
}

/// A heap of at most five elements that has the heap property keeps it when
/// its root is extracted: the descent is too short to carry the last element
/// below one that it outranks.
pub proof fn lemma_small_heap_stays_ordered<T: Ord>(c: Comparator, s: Seq<T>)
    requires
        total_order::<T>(),
        heap_ordered(c, s),
        s.len() <= 5,
    ensures
        heap_ordered(c, extracted(c, s)),
{
    let t = root_replaced(s);
    lemma_extracted_order(c, s);
    reveal_with_fuel(sinks_into_place, 3);
    if t.len() >= 3 {
        let last = s.len() - 1;
        let k = preferred_child(c, t, 0);
        assert(parent(last) == 1);
        assert(!c.outranks(s[last], s[1]));
        assert(t[0] == s[last]);
        assert(t[1] == s[1]);
        assert(t[2] == s[2]);
        if k == 2 {
            lemma_negatively_transitive(c, s[last], s[1], s[2]);
        }
        let u = swapped(t, 0, k);
        assert(u[k] == s[last]);
        assert(u[parent(k)] == s[k]);
    }
}

} // verus!
