use binary_heap::Comparator;
use binary_heap::Heap;
use binary_heap::MaxHeap;
use binary_heap::MinHeap;

#[test]
fn test_empty_heap() {
    let mut heap = MaxHeap::new::<i32>();
    assert_eq!(heap.next(), None);
}

#[test]
fn test_min_heap() {
    let mut heap = MinHeap::new();
    heap.add(4);
    heap.add(2);
    heap.add(9);
    heap.add(11);
    assert_eq!(heap.len(), 4);
    assert_eq!(heap.next(), Some(2));
    assert_eq!(heap.next(), Some(4));
    assert_eq!(heap.next(), Some(9));
    heap.add(1);
    assert_eq!(heap.next(), Some(1));
}

#[test]
fn test_max_heap() {
    let mut heap = MaxHeap::new();
    heap.add(4);
    heap.add(2);
    heap.add(9);
    heap.add(11);
    assert_eq!(heap.len(), 4);
    assert_eq!(heap.next(), Some(11));
    assert_eq!(heap.next(), Some(9));
    assert_eq!(heap.next(), Some(4));
    heap.add(1);
    assert_eq!(heap.next(), Some(2));
}

#[test]
fn max_heap_yields_an_equal_addition() {
    let mut heap = MaxHeap::new();
    heap.add(4);
    heap.add(2);
    heap.add(9);
    heap.add(11);
    assert_eq!(heap.len(), 4);
    assert_eq!(heap.next(), Some(11));
    assert_eq!(heap.next(), Some(9));
    assert_eq!(heap.next(), Some(4));
    heap.add(2);
    assert_eq!(heap.next(), Some(2));
    assert_eq!(heap.next(), Some(2));
    assert_eq!(heap.next(), None);
}

#[test]
fn new_heap_is_empty() {
    let heap: Heap<u64> = Heap::new(Comparator::LessThan);
    assert_eq!(heap.len(), 0);
    assert!(heap.is_empty());
    let heap: Heap<u64> = Heap::new(Comparator::GreaterThan);
    assert_eq!(heap.len(), 0);
    assert!(heap.is_empty());
}

#[test]
fn next_on_an_empty_heap_is_repeatable() {
    let mut heap = MinHeap::new::<i32>();
    assert_eq!(heap.next(), None);
    assert_eq!(heap.next(), None);
    assert_eq!(heap.next(), None);
    assert_eq!(heap.len(), 0);
    heap.add(3);
    heap.add(1);
    assert_eq!(heap.next(), Some(1));
    assert_eq!(heap.next(), Some(3));
    assert_eq!(heap.next(), None);
    assert_eq!(heap.next(), None);
    assert_eq!(heap.len(), 0);
    assert!(heap.is_empty());
}

#[test]
fn add_then_next_on_an_empty_heap() {
    let mut heap = MinHeap::new::<i32>();
    heap.add(42);
    assert_eq!(heap.len(), 1);
    assert!(!heap.is_empty());
    assert_eq!(heap.next(), Some(42));
    assert_eq!(heap.len(), 0);
    assert!(heap.is_empty());

    let mut heap = MaxHeap::new::<i32>();
    heap.add(-7);
    assert_eq!(heap.next(), Some(-7));
    assert_eq!(heap.len(), 0);
    assert_eq!(heap.next(), None);
}

#[test]
fn len_counts_additions_less_yields() {
    let mut heap = MinHeap::new::<i32>();
    let mut added: usize = 0;
    let mut yielded: usize = 0;
    assert_eq!(heap.next(), None);
    assert_eq!(heap.len(), added - yielded);
    for value in [8, 3, 5] {
        heap.add(value);
        added += 1;
        assert_eq!(heap.len(), added - yielded);
    }
    for _ in 0..5 {
        if heap.next().is_some() {
            yielded += 1;
        }
        assert_eq!(heap.len(), added - yielded);
    }
    assert_eq!(yielded, 3);
    for value in [1, 1, 9, 0] {
        heap.add(value);
        added += 1;
        assert_eq!(heap.len(), added - yielded);
    }
    assert_eq!(heap.next(), Some(0));
    yielded += 1;
    assert_eq!(heap.len(), added - yielded);
    assert_eq!(heap.len(), 3);
}

#[test]
fn root_leads_after_additions() {
    let values = [17, 4, 23, 8, 15, 42, 16, 1, 99, 3, 3, 58];
    let mut min = MinHeap::new::<i32>();
    let mut max = MaxHeap::new::<i32>();
    for value in values {
        min.add(value);
        max.add(value);
    }
    assert_eq!(min.len(), 12);
    assert_eq!(max.len(), 12);
    assert_eq!(min.next(), Some(1));
    assert_eq!(max.next(), Some(99));
}

#[test]
fn root_leads_after_each_addition() {
    let values = [50, 40, 60, 30, 70, 20, 80, 10, 90];
    for count in 1..=values.len() {
        let mut min = Heap::<i32>::new_min();
        let mut max = Heap::<i32>::new_max();
        for value in &values[..count] {
            min.add(*value);
            max.add(*value);
        }
        assert_eq!(min.next(), values[..count].iter().copied().min());
        assert_eq!(max.next(), values[..count].iter().copied().max());
    }
}

#[test]
fn lone_left_child_rises_only_if_it_outranks() {
    // After the first extraction the heap is [3, 2]: the lone child outranks
    // the displaced element and the two change places.
    let mut heap = MinHeap::new::<i32>();
    heap.add(1);
    heap.add(2);
    heap.add(3);
    assert_eq!(heap.next(), Some(1));
    assert_eq!(heap.next(), Some(2));
    assert_eq!(heap.next(), Some(3));
    assert_eq!(heap.next(), None);

    // After the first extraction the heap is [2, 3]: the lone child does not
    // outrank the displaced element and both stay.
    let mut heap = MinHeap::new::<i32>();
    heap.add(1);
    heap.add(3);
    heap.add(2);
    assert_eq!(heap.next(), Some(1));
    assert_eq!(heap.next(), Some(2));
    assert_eq!(heap.next(), Some(3));
    assert_eq!(heap.next(), None);
}

#[test]
fn descent_past_two_children_is_not_compared() {
    // The last element, 4, sinks below 10 without being compared with it, so
    // 10 leaves the heap before 4.
    let mut heap = MinHeap::new::<i32>();
    for value in [1, 2, 3, 10, 11, 4] {
        heap.add(value);
    }
    assert_eq!(heap.drain(), vec![1, 2, 3, 10, 4, 11]);
    assert!(heap.is_empty());

    let mut heap = MaxHeap::new::<i32>();
    for value in [20, 19, 18, 10, 9, 17] {
        heap.add(value);
    }
    assert_eq!(heap.drain(), vec![20, 19, 18, 10, 17, 9]);
    assert!(heap.is_empty());
}

#[test]
fn drain_returns_what_next_yields() {
    let values = [3, 1, 4, 1, 5, 9, 2, 6];
    let mut one = MaxHeap::new::<i32>();
    let mut other = MaxHeap::new::<i32>();
    for value in values {
        one.add(value);
        other.add(value);
    }
    let drained = one.drain();
    assert_eq!(drained, vec![9, 6, 5, 4, 3, 2, 1, 1]);
    assert_eq!(one.len(), 0);
    assert_eq!(one.next(), None);
    for value in drained {
        assert_eq!(other.next(), Some(value));
    }
    assert_eq!(other.next(), None);
    assert_eq!(one.drain(), Vec::<i32>::new());
}

#[test]
fn equal_elements_all_come_out() {
    let mut heap = MinHeap::new::<i32>();
    for value in [7, 7, 3, 3, 5] {
        heap.add(value);
    }
    assert_eq!(heap.len(), 5);
    assert_eq!(heap.drain(), vec![3, 3, 5, 7, 7]);
}

#[test]
fn new_min_and_new_max_rank_like_the_builders() {
    let mut min = Heap::<u8>::new_min();
    let mut max = Heap::<u8>::new_max();
    let mut less = Heap::<u8>::new(Comparator::LessThan);
    let mut greater = Heap::<u8>::new(Comparator::GreaterThan);
    for value in [5, 3, 8, 1, 9] {
        min.add(value);
        max.add(value);
        less.add(value);
        greater.add(value);
    }
    assert_eq!(min.drain(), vec![1, 3, 5, 8, 9]);
    assert_eq!(less.drain(), vec![1, 3, 5, 8, 9]);
    assert_eq!(max.drain(), vec![9, 8, 5, 3, 1]);
    assert_eq!(greater.drain(), vec![9, 8, 5, 3, 1]);
}

#[test]
fn add_takes_elements_that_are_not_copy() {
    let mut heap = MinHeap::new::<String>();
    assert!(heap.is_empty());
    heap.add(String::from("pear"));
    heap.add(String::from("apple"));
    heap.add(String::from("quince"));
    assert_eq!(heap.len(), 3);
    assert!(!heap.is_empty());
}

#[test]
fn interleaved_calls_keep_yielding_the_root() {
    let mut heap = MaxHeap::new::<i64>();
    heap.add(10);
    heap.add(30);
    assert_eq!(heap.next(), Some(30));
    heap.add(20);
    heap.add(5);
    assert_eq!(heap.next(), Some(20));
    assert_eq!(heap.next(), Some(10));
    heap.add(7);
    assert_eq!(heap.next(), Some(7));
    assert_eq!(heap.next(), Some(5));
    assert_eq!(heap.next(), None);
    assert_eq!(heap.len(), 0);
}
