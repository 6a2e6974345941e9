use fixed_max_heap::HeapError;
use fixed_max_heap::MaxHeap;

#[test]
fn test_new_heap_empty() {
    let my_heap: MaxHeap = MaxHeap::new(100);
    assert!(my_heap.is_empty());
}

#[test]
fn test_new_heap_len_zero() {
    let my_heap: MaxHeap = MaxHeap::new(100);
    assert_eq!(0, my_heap.len());
}

#[test]
fn test_heap_push() {
    let mut my_heap = MaxHeap::new(100);
    assert_eq!(None, my_heap.peek());
    my_heap.push(3).unwrap();

    assert_eq!(1, my_heap.len());
    assert_eq!(Some(&3), my_heap.peek());
}

#[test]
fn test_heap_multi_push() {
    let mut my_heap = MaxHeap::new(100);
    my_heap.push(-3).unwrap();
    my_heap.push(17).unwrap();

    assert_eq!(2, my_heap.len());
    assert_eq!(Some(&17), my_heap.peek());
}

#[test]
fn test_pop_single() {
    let val = 17;
    let mut my_heap = MaxHeap::new(100);
    my_heap.push(val).unwrap();

    assert_eq!(Some(val), my_heap.pop());
}

#[test]
fn test_pop_multi() {
    let val1 = 17;
    let val2 = -5;
    let val3 = 100;
    let mut my_heap = MaxHeap::new(100);
    my_heap.push(val1).unwrap();
    my_heap.push(val2).unwrap();
    my_heap.push(val3).unwrap();

    my_heap.pop();
    my_heap.pop();

    assert_eq!(Some(val2), my_heap.pop());
}

#[test]
fn clear_heap() {
    let val1 = 17;
    let val2 = -5;
    let val3 = 100;
    let mut my_heap = MaxHeap::new(100);
    my_heap.push(val1).unwrap();
    my_heap.push(val2).unwrap();
    my_heap.push(val3).unwrap();

    my_heap.clear();

    assert!(my_heap.is_empty());
}

#[test]
fn push_four_peek_max() {
    let mut h = MaxHeap::new(10);
    h.push(4).unwrap();
    h.push(17).unwrap();
    h.push(14).unwrap();
    h.push(1).unwrap();

    assert_eq!(4, h.len());
    assert_eq!(Some(&17), h.peek());
}

#[test]
fn push_ten_peek_max() {
    let mut h = MaxHeap::new(10);
    h.push(4).unwrap();
    h.push(17).unwrap();
    h.push(14).unwrap();
    h.push(1).unwrap();
    h.push(45).unwrap();
    h.push(20).unwrap();
    h.push(14).unwrap();
    h.push(12).unwrap();
    h.push(-31).unwrap();
    h.push(7).unwrap();

    assert_eq!(10, h.len());
    assert_eq!(Some(&45), h.peek());
}

#[test]
fn pop_returns_descending_then_absence() {
    let mut h = MaxHeap::new(4);
    h.push(17).unwrap();
    h.push(-5).unwrap();
    h.push(100).unwrap();

    assert_eq!(Some(100), h.pop());
    assert_eq!(Some(17), h.pop());
    assert_eq!(Some(-5), h.pop());
    assert_eq!(None, h.pop());
}

#[test]
fn push_then_clear() {
    let mut h = MaxHeap::new(4);
    h.push(3).unwrap();

    assert_eq!(Some(&3), h.peek());
    assert_eq!(1, h.len());

    h.clear();
    assert!(h.is_empty());
}

#[test]
fn clear_on_empty_is_noop() {
    let mut h = MaxHeap::new(4);
    h.clear();
    assert!(h.is_empty());
    assert_eq!(0, h.len());

    h.push(8).unwrap();
    h.clear();
    h.clear();
    assert!(h.is_empty());
    assert_eq!(0, h.len());
}

#[test]
fn pop_on_empty_keeps_len_zero() {
    let mut h = MaxHeap::new(5);
    assert_eq!(None, h.pop());
    assert_eq!(0, h.len());

    h.push(1).unwrap();
    h.pop();
    assert_eq!(None, h.pop());
    assert_eq!(0, h.len());
}

#[test]
fn push_at_capacity_reports_error() {
    let mut h = MaxHeap::new(3);
    h.push(2).unwrap();
    h.push(9).unwrap();
    h.push(5).unwrap();

    assert_eq!(Err(HeapError::CapacityExceeded), h.push(7));
    assert_eq!(3, h.len());

    // The contents are untouched by the failed push.
    assert_eq!(Some(9), h.pop());
    assert_eq!(Some(5), h.pop());
    assert_eq!(Some(2), h.pop());
    assert_eq!(None, h.pop());
}

#[test]
fn capacity_zero_rejects_every_push() {
    let mut h = MaxHeap::new(0);
    assert!(h.is_empty());
    assert_eq!(Err(HeapError::CapacityExceeded), h.push(1));
    assert_eq!(0, h.len());
    assert_eq!(None, h.pop());
    assert_eq!(None, h.peek());
}

#[test]
fn capacity_one_round_trip() {
    let mut h = MaxHeap::new(1);
    h.push(-7).unwrap();
    assert_eq!(Err(HeapError::CapacityExceeded), h.push(-7));
    assert_eq!(Some(-7), h.pop());
    assert_eq!(None, h.pop());
    h.push(42).unwrap();
    assert_eq!(Some(&42), h.peek());
}

#[test]
fn drain_is_non_increasing_with_duplicates() {
    let values = [14, 3, 14, -2, 99, 0, 99, 7, -31, 7, 14];
    let mut h = MaxHeap::new(values.len());
    for v in values {
        h.push(v).unwrap();
    }
    assert_eq!(values.len(), h.len());

    let mut drained = Vec::new();
    while let Some(v) = h.pop() {
        drained.push(v);
    }
    assert_eq!(values.len(), drained.len());
    for w in drained.windows(2) {
        assert!(w[0] >= w[1]);
    }

    let mut sorted = values.to_vec();
    sorted.sort();
    sorted.reverse();
    assert_eq!(sorted, drained);
}

#[test]
fn size_accounting() {
    let mut h = MaxHeap::new(8);
    for k in 0..6 {
        h.push(k).unwrap();
        assert_eq!((k + 1) as usize, h.len());
    }
    for m in 0..4 {
        h.pop().unwrap();
        assert_eq!(6 - (m + 1), h.len());
    }
    assert_eq!(2, h.len());
}

#[test]
fn default_has_default_capacity() {
    let mut h = MaxHeap::default();
    assert!(h.is_empty());
    for i in 0..(fixed_max_heap::DEFAULT_CAPACITY as i64) {
        h.push(i).unwrap();
    }
    assert_eq!(Err(HeapError::CapacityExceeded), h.push(0));
    assert_eq!(fixed_max_heap::DEFAULT_CAPACITY, h.len());
    assert_eq!(Some(&99), h.peek());
}
