//! The integer transforms behind mutation and stochastic survival draws.

use genevofra::sampling::{cubic_rank, mutate_threshold};

/// A raw draw whose top 21 bits encode `u` in `[0, 1)`.
fn raw_of_unit(u: f64) -> u64 {
    ((u * (1u64 << 21) as f64) as u64) << 43
}

#[test]
fn threshold_of_one_half() {
    assert_eq!(mutate_threshold(0.5f64.to_bits()), 1u64 << 52);
}

#[test]
fn threshold_of_one_quarter() {
    assert_eq!(mutate_threshold(0.25f64.to_bits()), 1u64 << 51);
}

#[test]
fn threshold_of_the_endpoints() {
    assert_eq!(mutate_threshold(0.0f64.to_bits()), 0);
    assert_eq!(mutate_threshold(1.0f64.to_bits()), 1u64 << 53);
}

#[test]
fn threshold_of_nine_tenths() {
    // ceil(0.9 * 2^53), one above 0.9 * 2^53 because 0.9 rounds up in binary
    assert_eq!(mutate_threshold(0.9f64.to_bits()), 8106479329266893);
}

#[test]
fn threshold_of_a_subnormal_rounds_up_to_one() {
    assert_eq!(mutate_threshold(5e-324f64.to_bits()), 1);
}

#[test]
fn cubic_rank_concentrates_low() {
    // floor(0.1^3 * 2) = 0 and floor(0.9^3 * 2) = 1
    assert_eq!(cubic_rank(raw_of_unit(0.1), 2), 0);
    assert_eq!(cubic_rank(raw_of_unit(0.9), 2), 1);
}

#[test]
fn cubic_rank_stays_below_size() {
    assert_eq!(cubic_rank(u64::MAX, 5), 4);
    assert_eq!(cubic_rank(0, 5), 0);
    assert_eq!(cubic_rank(u64::MAX, 1), 0);
}

#[test]
fn cubic_rank_of_the_middle() {
    // floor(0.5^3 * 8) = 1
    assert_eq!(cubic_rank(raw_of_unit(0.5), 8), 1);
}
