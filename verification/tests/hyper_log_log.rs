use sketches::hyper_log_log::Estimator;
use sketches::hyper_log_log::HyperLogLog;
use sketches::hyper_log_log::Register;
use sketches::hyper_log_log::select_estimator;
use sketches::utils::Insertable;

/// The bias-correction constant for `2^b` groups.
fn get_alpha(b: u8) -> f64 {
    match b {
        4 => 0.673,
        5 => 0.697,
        6 => 0.709,
        _ => 0.7213 / (1.0 + 1.079 / (1u64 << b) as f64),
    }
}

/// The two-regime cardinality estimate over the public register state.
fn cardinality(h: &HyperLogLog, b: u8) -> f64 {
    let m = h.group_size as f64;
    let sum: f64 = h
        .register
        .groups
        .iter()
        .map(|&x| 2.0f64.powi(-(x as i32)))
        .sum();
    let est = get_alpha(b) * m * m / sum;
    if est < 5.0 / 2.0 * m {
        match h.register.count_group_with_zero() {
            0 => est,
            n => m * (m / n as f64).ln(),
        }
    } else {
        est
    }
}

#[test]
fn thousand_distinct_values_estimated_within_tolerance() {
    let mut hll = HyperLogLog::new(8);
    for i in 0..1000u64 {
        let value = i.wrapping_mul(0x9E3779B97F4A7C15);
        hll.insert(&value.to_le_bytes());
    }
    let estimate = cardinality(&hll, 8);
    assert!(
        estimate >= 850.0 && estimate <= 1150.0,
        "estimate {} outside [850, 1150]",
        estimate
    );
}

#[test]
fn duplicate_inserts_do_not_inflate_registers() {
    let mut hll = HyperLogLog::new(8);
    for _ in 0..10 {
        hll.insert("same".as_bytes());
    }
    let after_ten = hll.register.groups.clone();
    hll.insert("same".as_bytes());
    assert_eq!(hll.register.groups, after_ten);
}

#[test]
fn empty_register_all_groups_zero() {
    let register = Register::new(16, 15, 4);
    assert_eq!(register.count_group_with_zero(), 16);
    assert!(matches!(select_estimator(true, 16), Estimator::LinearCounting));
    // linear counting over 16 groups, all zero: 16 * ln(16/16) == 0
    let estimate = 16.0f64 * (16.0f64 / 16.0f64).ln();
    assert_eq!(estimate, 0.0);
}

#[test]
fn register_insert_keeps_maximum_rank() {
    let mut register = Register::new(16, 15, 4);
    // hash value 16: group 16 & 15 == 0, w == 16 >> 4 == 1, so 59 of the 60
    // remaining bits lead with zero: rank 60
    register.insert(16u64);
    assert_eq!(register.groups[0], 60);
    // hash value 0: group 0, w == 0, rank is the remaining width plus one
    register.insert(0u64);
    assert_eq!(register.groups[0], 61);
    // a smaller rank never lowers the register
    register.insert(16u64);
    assert_eq!(register.groups[0], 61);
    // other groups untouched
    for g in 1..16 {
        assert_eq!(register.groups[g], 0);
    }
}

#[test]
fn estimator_selection_follows_the_two_regime_rule() {
    assert!(matches!(select_estimator(true, 3), Estimator::LinearCounting));
    assert!(matches!(select_estimator(true, 0), Estimator::HyperLoglog));
    assert!(matches!(select_estimator(false, 3), Estimator::HyperLoglog));
    assert!(matches!(select_estimator(false, 0), Estimator::HyperLoglog));
}

#[test]
fn group_count_is_two_to_the_b() {
    let hll = HyperLogLog::new(4);
    assert_eq!(hll.group_size, 16);
    assert_eq!(hll.register.mask, 15);
    assert_eq!(hll.register.chomp, 4);
    assert_eq!(hll.register.groups.len(), 16);
}
