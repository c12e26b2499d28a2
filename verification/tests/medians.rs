use csv_col_stats::parser::median::MedianHeap;

fn heap_median_f64(heap: &MedianHeap) -> Option<f64> {
    heap.median().map(|(low, high)| (low as f64 + high as f64) / 2.0)
}

#[test]
fn test_median_heap_empty() {
    let heap = MedianHeap::new();
    assert_eq!(heap.median(), None);
}

#[test]
fn test_median_heap_odd() {
    let test_set = vec![1, 3, 5, 8, 9, 6, 3];
    let mut heap = MedianHeap::new();
    for item in test_set {
        heap.add(item);
    }
    assert_eq!(heap_median_f64(&heap).unwrap(), 5.);
}

#[test]
fn test_median_heap_even() {
    let test_set = vec![12, 6, 1, 2, 3, 8];
    let mut heap = MedianHeap::new();
    for item in test_set {
        heap.add(item);
    }
    assert_eq!(heap_median_f64(&heap).unwrap(), 4.5);
}

#[test]
fn test_median_heap_duplicates_and_negatives() {
    let mut heap = MedianHeap::new();
    for item in [-5, -5, 0, 7, 7, 7] {
        heap.add(item);
    }
    // sorted: -5 -5 0 7 7 7, middles 0 and 7
    assert_eq!(heap.median(), Some((0, 7)));
    heap.add(-10);
    // sorted: -10 -5 -5 0 7 7 7, middle 0
    assert_eq!(heap.median(), Some((0, 0)));
}

#[test]
fn test_median_heap_single_value() {
    let mut heap = MedianHeap::new();
    heap.add(42);
    assert_eq!(heap.median(), Some((42, 42)));
}
