use mod_sync::decimal::{i64_to_decimal, u64_to_decimal};
use mod_sync::paths::{dir_string, file_string};

#[test]
fn zero_renders_as_a_single_digit() {
    assert_eq!(u64_to_decimal(0).as_str(), "0");
    assert_eq!(i64_to_decimal(0).as_str(), "0");
}

#[test]
fn multi_digit_numbers_render_most_significant_first() {
    assert_eq!(u64_to_decimal(123456).as_str(), "123456");
    assert_eq!(u64_to_decimal(1000).as_str(), "1000");
}

#[test]
fn negative_numbers_carry_a_minus_sign() {
    assert_eq!(i64_to_decimal(-7).as_str(), "-7");
    assert_eq!(i64_to_decimal(-120).as_str(), "-120");
}

#[test]
fn extreme_values_render_exactly() {
    assert_eq!(i64_to_decimal(i64::MAX).as_str(), "9223372036854775807");
    assert_eq!(i64_to_decimal(i64::MIN).as_str(), "-9223372036854775808");
    assert_eq!(u64_to_decimal(u64::MAX).as_str(), "18446744073709551615");
}

#[test]
fn record_paths_are_laid_out_under_the_data_root() {
    assert_eq!(dir_string("comment").as_str(), "./data/comment");
    assert_eq!(file_string("comment", 42).as_str(), "./data/comment/42.json");
    assert_eq!(file_string("mod", -1).as_str(), "./data/mod/-1.json");
}
