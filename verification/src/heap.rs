//! The array-backed binary heap.

use crate::heap_order::lemma_extracted_order;
use crate::heap_order::lemma_inserted_is_ordered;
use crate::heap_order::lemma_ordered_root_leads;
use crate::heap_order::sinks_into_place;
use crate::laws::lemma_drained_elements;
use crate::laws::lemma_drained_in_order;
use crate::level_order::drained;
use crate::level_order::extracted;
use crate::level_order::heap_ordered;
use crate::level_order::in_priority_order;
use crate::level_order::inserted;
use crate::level_order::left_child;
use crate::level_order::lemma_extracted_elements;
use crate::level_order::lemma_inserted_elements;
use crate::level_order::parent;
use crate::level_order::right_child;
use crate::level_order::root_leads;
use crate::level_order::root_leads_throughout;
use crate::level_order::root_replaced;
use crate::level_order::sift_down;
use crate::level_order::sift_up;
use crate::level_order::swapped;
use crate::order::total_order;
use crate::order::Comparator;
use vstd::prelude::*;

verus! {

/// A binary heap over the natural order of `T`.
///
/// The elements live in `items[1..]` in level order, so that the parent of
/// slot `i` is slot `i / 2` and its children are slots `2 * i` and
/// `2 * i + 1`. Slot 0 holds a default value that is never part of the heap.
pub struct Heap<T> {
    count: usize,
    items: Vec<T>,
    comparator: Comparator,
}

impl<T> View for Heap<T> {
    type V = Seq<T>;

    /// The elements of the heap in level order, the root first.
    closed spec fn view(&self) -> Seq<T> {
        self.items@.skip(1)
    }
}

/// Exchanging two slots of the backing vector exchanges the two elements of
/// the heap that live in them.
proof fn lemma_slots_swapped<T>(items: Seq<T>, a: int, b: int)
    requires
        1 <= a < items.len(),
        1 <= b < items.len(),
    ensures
        items.update(a, items[b]).update(b, items[a]).skip(1) == swapped(
            items.skip(1),
            a - 1,
            b - 1,
        ),
{
    let live = items.skip(1);
    assert(live[a - 1] == items[a]);
    assert(live[b - 1] == items[b]);
    assert(items.update(a, items[b]).update(b, items[a]).skip(1) =~= swapped(live, a - 1, b - 1));
}

impl<T: Ord + Default> Heap<T> {
    /// The backing vector holds slot 0, filled with a default value, and one
    /// slot for each live element, and the order of `T` is one that the
    /// verifier knows.
    pub closed spec fn wf(&self) -> bool {
        &&& self.items@.len() == self.count + 1
        &&& call_ensures(T::default, (), self.items@[0])
        &&& total_order::<T>()
    }

    /// The priority predicate that the heap was built with.
    pub closed spec fn comparator(&self) -> Comparator {
        self.comparator
    }

    /// An empty heap that ranks its elements by `comparator`.
    pub fn new(comparator: Comparator) -> (heap: Self)
        requires
            total_order::<T>(),
        ensures
            heap.wf(),
            heap@ == Seq::<T>::empty(),
            heap.comparator() == comparator,
    {
        let mut items: Vec<T> = Vec::new();
        items.push(T::default());
        let heap = Self { count: 0, items, comparator };
        assert(heap@ =~= Seq::<T>::empty());
        heap
    }

    /// The number of elements in the heap.
    pub fn len(&self) -> (n: usize)
        requires
            self.wf(),
        ensures
            n == self@.len(),
    {
        self.count
    }

    /// Whether the heap holds no element.
    pub fn is_empty(&self) -> (b: bool)
        requires
            self.wf(),
        ensures
            b == (self@.len() == 0),
    {
        self.len() == 0
    }

    /// Adds `value`: it becomes the last leaf and rises while it outranks its
    /// parent.
    pub fn add(&mut self, value: T)
        requires
            old(self).wf(),
        ensures
            final(self).wf(),
            final(self).comparator() == old(self).comparator(),
            final(self)@ == inserted(old(self).comparator(), old(self)@, value),
            final(self)@.len() == old(self)@.len() + 1,
            final(self)@.to_multiset() == old(self)@.to_multiset().insert(value),
            heap_ordered(old(self).comparator(), old(self)@) ==> heap_ordered(
                final(self).comparator(),
                final(self)@,
            ),
    {
        let ghost target = inserted(self.comparator, self@, value);
        proof {
            lemma_inserted_elements(self.comparator, self@, value);
            if heap_ordered(self.comparator, self@) {
                lemma_inserted_is_ordered(self.comparator, self@, value);
            }
        }
        self.items.push(value);
        assert(self.items.len() == self.count + 2);
        self.count += 1;
        assert(self@ =~= old(self)@.push(value));

        let mut current: usize = self.count;
        while current != 1
            invariant
                self.items@.len() == self.count + 1,
                self.items@[0] == old(self).items@[0],
                1 <= current <= self.count,
                self.comparator == old(self).comparator,
                total_order::<T>(),
                target == sift_up(self.comparator, self@, current - 1),
            ensures
                self.items@.len() == self.count + 1,
                self.items@[0] == old(self).items@[0],
                self.comparator == old(self).comparator,
                target == self@,
            decreases current,
        {
            let up: usize = current / 2;
            assert(self@[current - 1] == self.items@[current as int]);
            assert(self@[up - 1] == self.items@[up as int]);
            assert(parent(current - 1) == up - 1);
            if self.comparator.higher_priority(&self.items[current], &self.items[up]) {
                proof {
                    lemma_slots_swapped(self.items@, current as int, up as int);
                }
                self.items.swap(current, up);
            } else {
                break ;
            }
            current = up;
        }
    }
}

impl<T: Ord + Default + Copy> Heap<T> {
    /// An empty min-heap: the smallest element is extracted first.
    pub fn new_min() -> (heap: Self)
        requires
            total_order::<T>(),
        ensures
            heap.wf(),
            heap@ == Seq::<T>::empty(),
            heap.comparator() == Comparator::LessThan,
    {
        Self::new(Comparator::LessThan)
    }

    /// An empty max-heap: the largest element is extracted first.
    pub fn new_max() -> (heap: Self)
        requires
            total_order::<T>(),
        ensures
            heap.wf(),
            heap@ == Seq::<T>::empty(),
            heap.comparator() == Comparator::GreaterThan,
    {
        Self::new(Comparator::GreaterThan)
    }

    /// Takes the root out of the heap and returns it, or returns `None` and
    /// leaves the heap as it is when the heap is empty.
    ///
    /// The last element takes the root's place and sinks. At a slot with two
    /// children it changes places with the child that the comparator prefers
    /// and sinks on from there, without being compared with that child first.
    /// At a slot whose only child is a left one it changes places with that
    /// child only if the child outranks it, and stops. At a leaf it stops.
    ///
    /// The root of a heap that has the heap property is outranked by none of
    /// its elements. Because the descent past two children is blind, the heap
    /// that is left has the heap property only if the sinking element comes
    /// to rest below an element that it does not outrank. A heap of at most
    /// five elements always keeps it; see
    /// `heap_order::lemma_small_heap_stays_ordered`.
    pub fn next(&mut self) -> (r: Option<T>)
        requires
            old(self).wf(),
        ensures
            final(self).wf(),
            final(self).comparator() == old(self).comparator(),
            r == (if old(self)@.len() == 0 {
                None
            } else {
                Some(old(self)@[0])
            }),
            final(self)@ == extracted(old(self).comparator(), old(self)@),
            old(self)@.len() == 0 ==> final(self)@ == old(self)@,
            old(self)@.len() > 0 ==> final(self)@.len() == old(self)@.len() - 1,
            old(self)@.len() > 0 ==> final(self)@.to_multiset() == old(self)@.to_multiset().remove(
                old(self)@[0],
            ),
            heap_ordered(old(self).comparator(), old(self)@) ==> root_leads(
                old(self).comparator(),
                old(self)@,
            ),
            heap_ordered(old(self).comparator(), old(self)@) ==> (heap_ordered(
                final(self).comparator(),
                final(self)@,
            ) <==> sinks_into_place(old(self).comparator(), root_replaced(old(self)@), 0)),
    {
        proof {
            lemma_extracted_elements(self.comparator, self@);
            if heap_ordered(self.comparator, self@) {
                lemma_ordered_root_leads(self.comparator, self@);
                lemma_extracted_order(self.comparator, self@);
            }
        }
        if self.count == 0 {
            assert(self@ =~= Seq::<T>::empty());
            return None;
        }
        let ghost target = extracted(self.comparator, self@);
        let root: T = self.items[1];
        let last: T = self.items.pop().unwrap();
        self.count -= 1;
        if self.count != 0 {
            self.items[1] = last;
        }
        assert(self@ =~= root_replaced(old(self)@));

        let mut current: usize = 1;
        loop
            invariant_except_break
                target == sift_down(self.comparator, self@, current - 1),
            invariant
                self.items@.len() == self.count + 1,
                self.items@[0] == old(self).items@[0],
                1 <= current,
                current <= self.count || self.count == 0,
                self.comparator == old(self).comparator,
                total_order::<T>(),
            ensures
                self.items@.len() == self.count + 1,
                self.items@[0] == old(self).items@[0],
                self.comparator == old(self).comparator,
                target == self@,
            decreases self.count + 1 - current,
        {
            if current > self.count / 2 {
                break ;
            }
            let lchild: usize = current * 2;
            assert(left_child(current - 1) == lchild - 1);
            assert(right_child(current - 1) == lchild);
            assert(self@[current - 1] == self.items@[current as int]);
            assert(self@[lchild - 1] == self.items@[lchild as int]);
            if lchild < self.count {
                let rchild: usize = lchild + 1;
                assert(self@[rchild - 1] == self.items@[rchild as int]);
                if self.comparator.higher_priority(&self.items[lchild], &self.items[rchild]) {
                    proof {
                        lemma_slots_swapped(self.items@, current as int, lchild as int);
                    }
                    self.items.swap(current, lchild);
                    current = lchild;
                } else {
                    proof {
                        lemma_slots_swapped(self.items@, current as int, rchild as int);
                    }
                    self.items.swap(current, rchild);
                    current = rchild;
                }
            } else {
                if self.comparator.higher_priority(&self.items[lchild], &self.items[current]) {
                    proof {
                        lemma_slots_swapped(self.items@, current as int, lchild as int);
                    }
                    self.items.swap(current, lchild);
                }
                break ;
            }
        }
        Some(root)
    }

    /// Empties the heap and returns its elements in the order in which
    /// repeated calls of `next` yield them.
    ///
    /// Every element comes out once. They come out in priority order exactly
    /// when no extraction on the way leaves an element at the root that
    /// another element outranks.
    pub fn drain(&mut self) -> (out: Vec<T>)
        requires
            old(self).wf(),
        ensures
            final(self).wf(),
            final(self).comparator() == old(self).comparator(),
            final(self)@ == Seq::<T>::empty(),
            out@ == drained(old(self).comparator(), old(self)@),
            out@.to_multiset() == old(self)@.to_multiset(),
            in_priority_order(old(self).comparator(), out@) <==> root_leads_throughout(
                old(self).comparator(),
                old(self)@,
            ),
    {
        proof {
            lemma_drained_elements(self.comparator, self@);
            lemma_drained_in_order(self.comparator, self@);
        }
        let mut out: Vec<T> = Vec::new();
        loop
            invariant
                self.wf(),
                self.comparator() == old(self).comparator(),
                out@ + drained(self.comparator(), self@) == drained(
                    old(self).comparator(),
                    old(self)@,
                ),
            ensures
                self.wf(),
                self.comparator() == old(self).comparator(),
                self@.len() == 0,
                out@ == drained(old(self).comparator(), old(self)@),
            decreases self@.len(),
        {
            let ghost before = self@;
            let ghost yielded = out@;
            match self.next() {
                Some(root) => {
                    out.push(root);
                    assert(drained(self.comparator(), before) == seq![root] + drained(
                        self.comparator(),
                        self@,
                    ));
                    assert(out@ + drained(self.comparator(), self@) =~= yielded + drained(
                        self.comparator(),
                        before,
                    ));
                },
                None => {
                    assert(drained(self.comparator(), before) =~= Seq::<T>::empty());
                    assert(out@ =~= out@ + Seq::<T>::empty());
                    break ;
                },
            }
        }
        assert(self@ =~= Seq::<T>::empty());
        out
    }
}

/// Builds min-heaps.
pub struct MinHeap;

impl MinHeap {
    /// An empty heap that ranks the smaller of two elements higher.
    pub fn new<T: Ord + Default>() -> (heap: Heap<T>)
        requires
            total_order::<T>(),
        ensures
            heap.wf(),
            heap@ == Seq::<T>::empty(),
            heap.comparator() == Comparator::LessThan,
    {
        Heap::new(Comparator::LessThan)
    }
}

/// Builds max-heaps.
pub struct MaxHeap;

impl MaxHeap {
    /// An empty heap that ranks the larger of two elements higher.
    pub fn new<T: Ord + Default>() -> (heap: Heap<T>)
        requires
            total_order::<T>(),
        ensures
            heap.wf(),
            heap@ == Seq::<T>::empty(),
            heap.comparator() == Comparator::GreaterThan,
    {
        Heap::new(Comparator::GreaterThan)
    }
}

} // verus!
