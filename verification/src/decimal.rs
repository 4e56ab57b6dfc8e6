//! Fixed-point prices with 18 fractional digits, and the calls into the
//! outside crates that compute them.
use vstd::prelude::*;

verus! {

/// The scale of a `Decimal`: one unit is this many atomics.
pub const DECIMAL_FRACTIONAL: u128 = 1_000_000_000_000_000_000u128;

/// A non-negative fixed-point number: `atomics / 10^18`.
#[derive(Debug, Clone, Copy, PartialEq, Eq, Structural, Default)]
pub struct Decimal {
    pub atomics: u128,
}

impl Decimal {
    /// The decimal whose atomics are `atomics`.
    pub fn raw(atomics: u128) -> (r: Decimal)
        ensures
            r.atomics == atomics,
    {
        Decimal { atomics }
    }

    /// 1.0
    pub fn one() -> (r: Decimal)
        ensures
            r.atomics == DECIMAL_FRACTIONAL,
    {
        Decimal { atomics: DECIMAL_FRACTIONAL }
    }

    /// 0.0
    pub fn zero() -> (r: Decimal)
        ensures
            r.atomics == 0,
    {
        Decimal { atomics: 0 }
    }

    /// The atomics of this decimal.
    pub fn atomics(&self) -> (r: u128)
        ensures
            r == self.atomics,
    {
        self.atomics
    }
}

/// The atomics of `numerator / denominator`, rounded down.
pub open spec fn ratio_atomics(numerator: int, denominator: int) -> int {
    numerator * (DECIMAL_FRACTIONAL as int) / denominator
}

/// The characters that `cosmwasm_std::Decimal`'s `Display` writes for the decimal
/// with these atomics.
pub uninterp spec fn decimal_display(atomics: u128) -> Seq<char>;

/// Calls `cosmwasm_std::Decimal::from_ratio(numerator, denominator)` and returns the
/// atomics of the result. The crate computes `numerator * 10^18 / denominator`
/// (rounded down) in 256 bits and panics when the denominator is zero or the
/// quotient does not fit in 128 bits; `requires` leaves those inputs out.
#[verifier::external_body]
pub(crate) fn std_decimal_from_ratio(numerator: u128, denominator: u128) -> (r: u128)
    requires
        denominator > 0,
        ratio_atomics(numerator as int, denominator as int) <= u128::MAX,
    ensures
        r == ratio_atomics(numerator as int, denominator as int),
{
    cosmwasm_std::Decimal::from_ratio(numerator, denominator).atomics().u128()
}

/// Calls `cosmwasm_bignumber::Decimal256::from_ratio` on two `Uint256` made from
/// `numerator` and `denominator`, and turns the result into 128 bits with the crate's
/// `From<Uint256> for u128`. The crate computes `numerator * 10^18 / denominator`
/// (rounded down) in 256 bits; it panics on a zero denominator, and the conversion
/// panics when the quotient does not fit in 128 bits; `requires` leaves those out.
#[verifier::external_body]
pub(crate) fn bignumber_decimal_from_ratio(numerator: u128, denominator: u128) -> (r: u128)
    requires
        denominator > 0,
        ratio_atomics(numerator as int, denominator as int) <= u128::MAX,
    ensures
        r == ratio_atomics(numerator as int, denominator as int),
{
    let d = cosmwasm_bignumber::Decimal256::from_ratio(
        cosmwasm_bignumber::Uint256::from(numerator),
        cosmwasm_bignumber::Uint256::from(denominator),
    );
    u128::from(cosmwasm_bignumber::Uint256(d.0))
}

/// Calls `cosmwasm_std::Decimal`'s `Display` (through `to_string`) on the decimal with
/// these atomics. Its text is named, not written out: `decimal_display`.
#[verifier::external_body]
pub(crate) fn std_decimal_to_string(d: Decimal) -> (r: String)
    ensures
        r@ == decimal_display(d.atomics),
{
    cosmwasm_std::Decimal::raw(d.atomics).to_string()
}

/// Calls `cosmwasm_std::Timestamp::minus_seconds` on the timestamp of
/// `nanos` nanoseconds and returns the whole seconds of the result. The crate
/// subtracts `seconds * 10^9` nanoseconds and panics when that product does not
/// fit in 64 bits or exceeds the timestamp; `requires` leaves those out.
#[verifier::external_body]
pub(crate) fn std_timestamp_minus_seconds(nanos: u64, seconds: u64) -> (r: u64)
    requires
        seconds * 1_000_000_000 <= nanos,
    ensures
        r == (nanos - seconds * 1_000_000_000) / 1_000_000_000,
{
    cosmwasm_std::Timestamp::from_nanos(nanos).minus_seconds(seconds).seconds()
}

} // verus!
