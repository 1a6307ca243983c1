//! Fixed-point arithmetic shared by every pool flavour.
//!
//! Amounts are `u128`. A [`Decimal`] is a number with 18 fractional digits,
//! held as its count of atomic units. Products that need a 256-bit
//! intermediate are computed by `cosmwasm_std`.

use vstd::prelude::*;

verus! {

/// Atomic units in 1.0.
pub const DECIMAL_FRACTIONAL: u128 = 1_000_000_000_000_000_000;

/// Atomic units in one percent.
pub const DECIMAL_PERCENT: u128 = 10_000_000_000_000_000;

/// Why a ratio could not be computed.
#[derive(Clone, Copy, Debug, PartialEq, Eq, Structural)]
pub enum RatioError {
    DivideByZero,
    Overflow,
}

/// `floor(value * numerator / denominator)` where it exists and fits in 128 bits.
pub open spec fn ratio(value: int, numerator: int, denominator: int) -> Result<u128, RatioError> {
    if denominator == 0 {
        Err(RatioError::DivideByZero)
    } else if value * numerator / denominator > u128::MAX {
        Err(RatioError::Overflow)
    } else {
        Ok((value * numerator / denominator) as u128)
    }
}

/// `floor(value * numerator / 10^18)`, the product of an amount or a decimal
/// with a decimal, as an unbounded integer.
pub open spec fn scaled(value: int, numerator: int) -> int {
    value * numerator / (DECIMAL_FRACTIONAL as int)
}

/// A non-negative fixed-point number with 18 fractional digits.
#[derive(Clone, Copy, Debug, PartialEq, Eq, Structural)]
pub struct Decimal {
    pub atomics: u128,
}

/// Calls `cosmwasm_std::Uint128::checked_multiply_ratio`. Its result is taken
/// to be `floor(value * numerator / denominator)`, computed without
/// intermediate overflow; a zero denominator and a quotient beyond 128 bits
/// are reported as its two errors.
#[verifier::external_body]
pub(crate) fn uint128_checked_multiply_ratio(value: u128, numerator: u128, denominator: u128) -> (r:
    Result<u128, RatioError>)
    ensures
        r == ratio(value as int, numerator as int, denominator as int),
{
    match cosmwasm_std::Uint128::new(value).checked_multiply_ratio(numerator, denominator) {
        Ok(v) => Ok(v.u128()),
        Err(cosmwasm_std::CheckedMultiplyRatioError::DivideByZero) => Err(RatioError::DivideByZero),
        Err(cosmwasm_std::CheckedMultiplyRatioError::Overflow) => Err(RatioError::Overflow),
    }
}

/// Calls `cosmwasm_std::Uint128::checked_mul_floor` with a decimal as the
/// fraction. Its result is taken to be `floor(value * atomics / 10^18)`, or no
/// value when that does not fit in 128 bits.
#[verifier::external_body]
pub(crate) fn uint128_checked_mul_floor(value: u128, factor: Decimal) -> (r: Option<u128>)
    ensures
        r == (if scaled(value as int, factor.atomics as int) <= u128::MAX {
            Some(scaled(value as int, factor.atomics as int) as u128)
        } else {
            None
        }),
{
    match cosmwasm_std::Uint128::new(value).checked_mul_floor(cosmwasm_std::Decimal::raw(factor.atomics)) {
        Ok(v) => Some(v.u128()),
        Err(_) => None,
    }
}

/// Calls `cosmwasm_std::Decimal::checked_mul`. Its result is taken to have
/// `floor(a.atomics * b.atomics / 10^18)` atomic units, or to be no value when
/// that does not fit in 128 bits.
#[verifier::external_body]
pub(crate) fn decimal_checked_mul(a: Decimal, b: Decimal) -> (r: Option<Decimal>)
    ensures
        r == (if scaled(a.atomics as int, b.atomics as int) <= u128::MAX {
            Some(Decimal { atomics: scaled(a.atomics as int, b.atomics as int) as u128 })
        } else {
            None
        }),
{
    match cosmwasm_std::Decimal::raw(a.atomics).checked_mul(cosmwasm_std::Decimal::raw(b.atomics)) {
        Ok(v) => Some(Decimal { atomics: v.atomics().u128() }),
        Err(_) => None,
    }
}

/// Calls `cosmwasm_std::Decimal::checked_from_ratio`. Its result is taken to
/// have `floor(numerator * 10^18 / denominator)` atomic units; a zero
/// denominator and a quotient beyond 128 bits are reported as its two errors.
#[verifier::external_body]
pub(crate) fn decimal_checked_from_ratio(numerator: u128, denominator: u128) -> (r: Result<
    Decimal,
    RatioError,
>)
    ensures
        r == Decimal::spec_from_ratio(numerator as int, denominator as int),
{
    match cosmwasm_std::Decimal::checked_from_ratio(numerator, denominator) {
        Ok(v) => Ok(Decimal { atomics: v.atomics().u128() }),
        Err(cosmwasm_std::CheckedFromRatioError::DivideByZero) => Err(RatioError::DivideByZero),
        Err(cosmwasm_std::CheckedFromRatioError::Overflow) => Err(RatioError::Overflow),
    }
}

impl Decimal {
    /// The decimal `numerator / denominator`, rounded down to 18 digits.
    pub open spec fn spec_from_ratio(numerator: int, denominator: int) -> Result<
        Decimal,
        RatioError,
    > {
        match ratio(numerator, DECIMAL_FRACTIONAL as int, denominator) {
            Ok(atomics) => Ok(Decimal { atomics }),
            Err(e) => Err(e),
        }
    }

    /// The decimal of `atomics` atomic units.
    pub fn raw(atomics: u128) -> (d: Decimal)
        ensures
            d.atomics == atomics,
    {
        Decimal { atomics }
    }

    /// The decimal 0.
    pub fn zero() -> (d: Decimal)
        ensures
            d.atomics == 0,
    {
        Decimal { atomics: 0 }
    }

    /// The decimal 1.
    pub fn one() -> (d: Decimal)
        ensures
            d.atomics == DECIMAL_FRACTIONAL,
    {
        Decimal { atomics: DECIMAL_FRACTIONAL }
    }

    /// `x` hundredths.
    pub fn percent(x: u64) -> (d: Decimal)
        ensures
            d.atomics == x * DECIMAL_PERCENT,
    {
        let wide: u128 = x as u128;
        Decimal { atomics: wide * DECIMAL_PERCENT }
    }

    /// The number of atomic units.
    pub fn atomics(&self) -> (a: u128)
        ensures
            a == self.atomics,
    {
        self.atomics
    }

    /// Whether the decimal is 0.
    pub fn is_zero(&self) -> (b: bool)
        ensures
            b == (self.atomics == 0),
    {
        self.atomics == 0
    }

    /// The sum, unless it leaves the representable range.
    pub fn checked_add(self, other: Decimal) -> (r: Option<Decimal>)
        ensures
            r == (if self.atomics + other.atomics <= u128::MAX {
                Some(Decimal { atomics: (self.atomics + other.atomics) as u128 })
            } else {
                None
            }),
    {
        match self.atomics.checked_add(other.atomics) {
            Some(atomics) => Some(Decimal { atomics }),
            None => None,
        }
    }

    /// The difference, unless it would be negative.
    pub fn checked_sub(self, other: Decimal) -> (r: Option<Decimal>)
        ensures
            r == (if other.atomics <= self.atomics {
                Some(Decimal { atomics: (self.atomics - other.atomics) as u128 })
            } else {
                None
            }),
    {
        match self.atomics.checked_sub(other.atomics) {
            Some(atomics) => Some(Decimal { atomics }),
            None => None,
        }
    }

    /// The difference, or zero where it would be negative.
    pub fn saturating_sub(self, other: Decimal) -> (d: Decimal)
        ensures
            d.atomics == (if other.atomics <= self.atomics {
                self.atomics - other.atomics
            } else {
                0
            }),
    {
        if other.atomics <= self.atomics {
            Decimal { atomics: self.atomics - other.atomics }
        } else {
            Decimal { atomics: 0 }
        }
    }

    /// The product rounded down to 18 digits, unless it leaves the range.
    pub fn checked_mul(self, other: Decimal) -> (r: Option<Decimal>)
        ensures
            r == (if scaled(self.atomics as int, other.atomics as int) <= u128::MAX {
                Some(Decimal { atomics: scaled(self.atomics as int, other.atomics as int) as u128 })
            } else {
                None
            }),
    {
        decimal_checked_mul(self, other)
    }

    /// `numerator / denominator` rounded down to 18 digits.
    pub fn checked_from_ratio(numerator: u128, denominator: u128) -> (r: Result<Decimal, RatioError>)
        ensures
            r == Decimal::spec_from_ratio(numerator as int, denominator as int),
    {
        decimal_checked_from_ratio(numerator, denominator)
    }

    /// `numerator / denominator` rounded down to 18 digits, for a ratio known
    /// to exist.
    pub fn from_ratio(numerator: u128, denominator: u128) -> (d: Decimal)
        requires
            denominator != 0,
            numerator * DECIMAL_FRACTIONAL / (denominator as int) <= u128::MAX,
        ensures
            d.atomics == numerator * DECIMAL_FRACTIONAL / (denominator as int),
    {
        match decimal_checked_from_ratio(numerator, denominator) {
            Ok(d) => d,
            Err(_) => Decimal { atomics: 0 },
        }
    }
}

/// `floor(value * numerator / denominator)` with a 256-bit intermediate.
pub fn checked_multiply_ratio(value: u128, numerator: u128, denominator: u128) -> (r: Result<
    u128,
    RatioError,
>)
    ensures
        r == ratio(value as int, numerator as int, denominator as int),
{
    uint128_checked_multiply_ratio(value, numerator, denominator)
}

/// `floor(value * factor)`, unless it leaves the 128-bit range.
pub fn checked_mul_floor(value: u128, factor: Decimal) -> (r: Option<u128>)
    ensures
        r == (if scaled(value as int, factor.atomics as int) <= u128::MAX {
            Some(scaled(value as int, factor.atomics as int) as u128)
        } else {
            None
        }),
{
    uint128_checked_mul_floor(value, factor)
}

} // verus!
