use std::collections::hash_map::DefaultHasher;
use std::hash::Hasher;

use sketches::utils::get_index;
use sketches::utils::hash_kernel;

#[test]
fn get_index_is_the_wrapping_sum_mod_m() {
    assert_eq!(get_index(10, 5, 7, 3), 5);
    assert_eq!(get_index(1000, 0, 0, 0), 0);
    assert_eq!(get_index(7, 100, 200, 4), (100u64 + 200 + 4) as usize % 7);
    // the additions wrap in 64-bit space before the reduction
    assert_eq!(get_index(1000, u64::MAX, 1, 0), 0);
    assert_eq!(get_index(1000, u64::MAX, 0, 2), 1);
}

#[test]
fn kernel_digests_are_deterministic_per_state() {
    let mut a1 = DefaultHasher::new();
    let mut a2 = DefaultHasher::new();
    let first = hash_kernel(&mut a1, &mut a2, "payload".as_bytes());
    let mut b1 = DefaultHasher::new();
    let mut b2 = DefaultHasher::new();
    let second = hash_kernel(&mut b1, &mut b2, "payload".as_bytes());
    assert_eq!(first, second);
    // both hashers saw the same bytes, so the pair components agree
    assert_eq!(first.0, first.1);
}

#[test]
fn kernel_digests_differ_for_different_states() {
    let mut a1 = DefaultHasher::new();
    a1.write(&[1, 2, 3]);
    let mut a2 = DefaultHasher::new();
    a2.write(&[4, 5, 6]);
    let (d1, d2) = hash_kernel(&mut a1, &mut a2, "payload".as_bytes());
    assert_ne!(d1, d2);
}
