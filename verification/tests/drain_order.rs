use binary_heap::Heap;
use binary_heap::MaxHeap;
use binary_heap::MinHeap;

fn permutations(values: &[i32]) -> Vec<Vec<i32>> {
    if values.len() <= 1 {
        return vec![values.to_vec()];
    }
    let mut all = Vec::new();
    for i in 0..values.len() {
        let mut rest = values.to_vec();
        let first = rest.remove(i);
        for mut tail in permutations(&rest) {
            tail.insert(0, first);
            all.push(tail);
        }
    }
    all
}

fn drained_min(values: &[i32]) -> Vec<i32> {
    let mut heap: Heap<i32> = MinHeap::new();
    for value in values {
        heap.add(*value);
    }
    heap.drain()
}

fn drained_max(values: &[i32]) -> Vec<i32> {
    let mut heap: Heap<i32> = MaxHeap::new();
    for value in values {
        heap.add(*value);
    }
    heap.drain()
}

#[test]
fn heaps_of_up_to_five_elements_drain_in_order() {
    let pool = [30, 10, 50, 20, 40];
    for size in 0..=5 {
        let mut ascending = pool[..size].to_vec();
        ascending.sort();
        let mut descending = ascending.clone();
        descending.reverse();
        for order in permutations(&pool[..size]) {
            assert_eq!(drained_min(&order), ascending);
            assert_eq!(drained_max(&order), descending);
        }
    }
}

#[test]
fn small_heaps_with_equal_elements_drain_in_order() {
    for order in permutations(&[2, 1, 2, 1, 3]) {
        assert_eq!(drained_min(&order), vec![1, 1, 2, 2, 3]);
        assert_eq!(drained_max(&order), vec![3, 2, 2, 1, 1]);
    }
}

#[test]
fn drain_yields_exactly_what_was_added() {
    let pool = [6, 2, 5, 1, 4, 3];
    let mut sorted = pool.to_vec();
    sorted.sort();
    for order in permutations(&pool) {
        let mut min = drained_min(&order);
        let mut max = drained_max(&order);
        assert_eq!(min.len(), 6);
        assert_eq!(max.len(), 6);
        min.sort();
        max.sort();
        assert_eq!(min, sorted);
        assert_eq!(max, sorted);
    }
}

#[test]
fn drain_is_in_order_while_the_root_leads() {
    // Nine elements added in descending order: every extraction happens to
    // leave the smallest element at the root.
    assert_eq!(
        drained_min(&[9, 8, 7, 6, 5, 4, 3, 2, 1]),
        vec![1, 2, 3, 4, 5, 6, 7, 8, 9]
    );
    assert_eq!(drained_min(&[4, 2, 9, 11]), vec![2, 4, 9, 11]);
    assert_eq!(drained_max(&[4, 2, 9, 11]), vec![11, 9, 4, 2]);
}

#[test]
fn six_elements_can_drain_out_of_order() {
    let pool = [1, 2, 3, 4, 5, 6];
    let mut out_of_order = 0;
    for order in permutations(&pool) {
        if drained_min(&order) != vec![1, 2, 3, 4, 5, 6] {
            out_of_order += 1;
        }
    }
    assert_eq!(out_of_order, 20);
    assert_eq!(drained_min(&[1, 2, 3, 5, 6, 4]), vec![1, 2, 3, 5, 4, 6]);
}
