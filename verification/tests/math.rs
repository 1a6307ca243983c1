use reward_engine::math::{checked_mul_floor, checked_multiply_ratio, Decimal, RatioError};

#[test]
fn multiply_ratio_rounds_down() {
    assert_eq!(checked_multiply_ratio(5, 99, 100), Ok(4));
    assert_eq!(checked_multiply_ratio(25000, 500, 10000), Ok(1250));
    assert_eq!(checked_multiply_ratio(1, 1, 0), Err(RatioError::DivideByZero));
    assert_eq!(checked_multiply_ratio(u128::MAX, 2, 1), Err(RatioError::Overflow));
    assert_eq!(checked_multiply_ratio(u128::MAX, 2, 2), Ok(u128::MAX));
}

#[test]
fn mul_floor_scales_by_a_decimal() {
    assert_eq!(checked_mul_floor(1000, Decimal::percent(250)), Some(2500));
    assert_eq!(checked_mul_floor(3, Decimal::percent(50)), Some(1));
    assert_eq!(checked_mul_floor(u128::MAX, Decimal::percent(101)), None);
}

#[test]
fn decimal_constructors_count_atomic_units() {
    assert_eq!(Decimal::zero().atomics(), 0);
    assert_eq!(Decimal::one().atomics(), 1_000_000_000_000_000_000);
    assert_eq!(Decimal::percent(10).atomics(), 100_000_000_000_000_000);
    assert_eq!(Decimal::raw(7).atomics, 7);
    assert!(Decimal::zero().is_zero());
    assert!(!Decimal::raw(1).is_zero());
    assert_eq!(Decimal::percent(100), Decimal::one());
}

#[test]
fn decimal_ratio_rounds_down() {
    assert_eq!(Decimal::from_ratio(12, 10), Decimal::percent(120));
    assert_eq!(Decimal::checked_from_ratio(1, 3), Ok(Decimal::raw(333_333_333_333_333_333)));
    assert_eq!(Decimal::checked_from_ratio(1, 0), Err(RatioError::DivideByZero));
    assert_eq!(Decimal::checked_from_ratio(u128::MAX, 1), Err(RatioError::Overflow));
    assert_eq!(Decimal::checked_from_ratio(0, 5), Ok(Decimal::zero()));
}

#[test]
fn decimal_product_rounds_down() {
    assert_eq!(Decimal::percent(50).checked_mul(Decimal::percent(50)), Some(Decimal::percent(25)));
    assert_eq!(Decimal::raw(1).checked_mul(Decimal::raw(999_999_999_999_999_999)), Some(Decimal::zero()));
    assert_eq!(Decimal::raw(u128::MAX).checked_mul(Decimal::percent(101)), None);
    assert_eq!(Decimal::raw(u128::MAX).checked_mul(Decimal::one()), Some(Decimal::raw(u128::MAX)));
}

#[test]
fn decimal_sums_and_differences_stay_in_range() {
    assert_eq!(Decimal::percent(10).checked_add(Decimal::percent(5)), Some(Decimal::percent(15)));
    assert_eq!(Decimal::raw(u128::MAX).checked_add(Decimal::raw(1)), None);
    assert_eq!(Decimal::percent(10).checked_sub(Decimal::percent(5)), Some(Decimal::percent(5)));
    assert_eq!(Decimal::percent(5).checked_sub(Decimal::percent(10)), None);
    assert_eq!(Decimal::percent(5).saturating_sub(Decimal::percent(10)), Decimal::zero());
    assert_eq!(Decimal::percent(10).saturating_sub(Decimal::percent(4)), Decimal::percent(6));
}
