use verified_collections::heap::{MaxHeap, MinHeap};

#[test]
fn test_empty_heap() {
    let mut heap = MaxHeap::new::<i32>();
    assert_eq!(heap.next(), None);
}

#[test]
fn test_min_heap() {
    let mut heap = MinHeap::new();
    heap.add(4);
    heap.add(2);
    heap.add(9);
    heap.add(11);
    assert_eq!(heap.len(), 4);
    assert_eq!(heap.next(), Some(2));
    assert_eq!(heap.next(), Some(4));
    assert_eq!(heap.next(), Some(9));
    heap.add(1);
    assert_eq!(heap.next(), Some(1));
}

#[test]
fn test_max_heap() {
    let mut heap = MaxHeap::new();
    heap.add(4);
    heap.add(2);
    heap.add(9);
    heap.add(11);
    assert_eq!(heap.len(), 4);
    assert_eq!(heap.next(), Some(11));
    assert_eq!(heap.next(), Some(9));
    assert_eq!(heap.next(), Some(4));
    heap.add(1);
    assert_eq!(heap.next(), Some(2));
}

#[test]
fn custom_comparator_orders_the_drain() {
    let by_last_digit = verified_collections::order::ByFn::new(|a: &u32, b: &u32| a % 10 < b % 10);
    let mut heap = verified_collections::heap::Heap::new(by_last_digit);
    heap.add(19);
    heap.add(25);
    heap.add(31);
    assert_eq!(heap.next(), Some(31));
    assert_eq!(heap.next(), Some(25));
    assert_eq!(heap.next(), Some(19));
    assert_eq!(heap.next(), None);
}

#[test]
fn len_counts_additions_less_successful_pulls() {
    let mut heap = MinHeap::new::<u64>();
    assert_eq!(heap.len(), 0);
    assert_eq!(heap.next(), None);
    assert_eq!(heap.len(), 0);
    heap.add(7);
    heap.add(3);
    heap.add(5);
    assert_eq!(heap.len(), 3);
    assert_eq!(heap.next(), Some(3));
    assert_eq!(heap.len(), 2);
    heap.add(1);
    assert_eq!(heap.len(), 3);
    assert_eq!(heap.next(), Some(1));
    assert_eq!(heap.next(), Some(5));
    assert_eq!(heap.next(), Some(7));
    assert_eq!(heap.len(), 0);
    assert_eq!(heap.next(), None);
    assert_eq!(heap.len(), 0);
}

#[test]
fn queries_repeat_their_answers() {
    let mut heap = MaxHeap::new::<i32>();
    assert!(heap.is_empty());
    assert!(heap.is_empty());
    heap.add(-4);
    heap.add(12);
    assert_eq!(heap.len(), 2);
    assert_eq!(heap.len(), 2);
    assert!(!heap.is_empty());
    assert!(!heap.is_empty());
    assert_eq!(heap.next(), Some(12));
    assert_eq!(heap.len(), 1);
    assert_eq!(heap.len(), 1);
}

#[test]
fn min_heap_drains_in_ascending_order() {
    let mut heap = MinHeap::new::<u32>();
    for value in [4, 2, 9, 11] {
        heap.add(value);
    }
    let mut drained = Vec::new();
    while let Some(value) = heap.next() {
        drained.push(value);
    }
    assert_eq!(drained, vec![2, 4, 9, 11]);
}

#[test]
fn max_heap_drains_in_descending_order() {
    let mut heap = MaxHeap::new::<u32>();
    for value in [4, 2, 9, 11] {
        heap.add(value);
    }
    let mut drained = Vec::new();
    while let Some(value) = heap.next() {
        drained.push(value);
    }
    assert_eq!(drained, vec![11, 9, 4, 2]);
}

#[test]
fn insertion_after_a_partial_drain_finds_its_place() {
    let mut heap = MinHeap::new::<i32>();
    for value in [4, 2, 9, 11] {
        heap.add(value);
    }
    assert_eq!(heap.next(), Some(2));
    assert_eq!(heap.next(), Some(4));
    assert_eq!(heap.next(), Some(9));
    heap.add(1);
    assert_eq!(heap.next(), Some(1));
    assert_eq!(heap.next(), Some(11));
    assert_eq!(heap.next(), None);
}

#[test]
fn longer_run_drains_sorted_with_duplicates() {
    let values = [31u16, 7, 7, 0, 19, 64, 2, 31, 5, 12, 12, 1];
    let mut heap = MinHeap::new::<u16>();
    for value in values {
        heap.add(value);
    }
    assert_eq!(heap.len(), values.len());
    let mut drained = Vec::new();
    while let Some(value) = heap.next() {
        drained.push(value);
    }
    assert_eq!(drained, vec![0, 1, 2, 5, 7, 7, 12, 12, 19, 31, 31, 64]);
}

#[test]
fn single_element_heap_empties() {
    let mut heap = MaxHeap::new::<u8>();
    heap.add(200);
    assert!(!heap.is_empty());
    assert_eq!(heap.next(), Some(200));
    assert!(heap.is_empty());
    assert_eq!(heap.next(), None);
}

#[test]
fn new_min_and_new_max_agree_with_the_builders() {
    let mut least_first = verified_collections::heap::Heap::new_min();
    let mut greatest_first = verified_collections::heap::Heap::new_max();
    for value in [3i64, -8, 15] {
        least_first.add(value);
        greatest_first.add(value);
    }
    assert_eq!(least_first.next(), Some(-8));
    assert_eq!(greatest_first.next(), Some(15));
}

#[test]
fn elements_of_equal_priority_leave_by_position_not_by_age() {
    let by_key = verified_collections::order::ByFn::new(|a: &(u8, char), b: &(u8, char)| a.0 < b.0);
    let mut heap = verified_collections::heap::Heap::new(by_key);
    heap.add((1, 'a'));
    heap.add((1, 'b'));
    heap.add((1, 'c'));
    assert_eq!(heap.next(), Some((1, 'a')));
    assert_eq!(heap.next(), Some((1, 'c')));
    assert_eq!(heap.next(), Some((1, 'b')));
}

#[test]
fn comparator_that_always_agrees_still_keeps_every_element() {
    let always = verified_collections::order::ByFn::new(|_: &u8, _: &u8| true);
    let mut heap = verified_collections::heap::Heap::new(always);
    heap.add(1);
    heap.add(2);
    heap.add(3);
    assert_eq!(heap.len(), 3);
    let mut drained = Vec::new();
    while let Some(value) = heap.next() {
        drained.push(value);
    }
    drained.sort();
    assert_eq!(drained, vec![1, 2, 3]);
}
