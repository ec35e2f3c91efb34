use sketches::count_min_sketch::CountMinSketch;
use sketches::utils::Insertable;

#[test]
fn three_inserts_count_at_least_three() {
    let mut sketch = CountMinSketch::new(4, 1000);
    sketch.insert("a".as_bytes());
    sketch.insert("a".as_bytes());
    sketch.insert("a".as_bytes());
    assert!(sketch.get_count("a".as_bytes()) >= 3);
}

#[test]
fn fresh_sketch_counts_zero() {
    let sketch = CountMinSketch::new(4, 1000);
    assert_eq!(sketch.get_count("anything".as_bytes()), 0);
}

#[test]
fn counts_never_undercount_each_element() {
    let mut sketch = CountMinSketch::new(4, 100);
    for i in 0..50u32 {
        let element = format!("element_{}", i);
        for _ in 0..(i % 5 + 1) {
            sketch.insert(element.as_bytes());
        }
    }
    for i in 0..50u32 {
        let element = format!("element_{}", i);
        assert!(sketch.get_count(element.as_bytes()) >= (i % 5 + 1) as usize);
    }
}

#[test]
fn counts_are_monotonic_across_unrelated_inserts() {
    let mut sketch = CountMinSketch::new(4, 50);
    sketch.insert("watched".as_bytes());
    let mut last = sketch.get_count("watched".as_bytes());
    for i in 0..200u32 {
        let other = format!("noise_{}", i);
        sketch.insert(other.as_bytes());
        let now = sketch.get_count("watched".as_bytes());
        assert!(now >= last);
        last = now;
    }
}

#[test]
fn digests_are_stable_within_one_sketch() {
    let sketch = CountMinSketch::new(4, 1000);
    let first = sketch.hash_kernel("item".as_bytes());
    let second = sketch.hash_kernel("item".as_bytes());
    assert_eq!(first, second);
}

#[test]
fn sketch_with_no_rows_reports_max() {
    let sketch = CountMinSketch::new(0, 10);
    assert_eq!(sketch.get_count("a".as_bytes()), usize::MAX);
}
