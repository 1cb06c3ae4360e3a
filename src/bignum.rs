//! The arbitrary-precision numbers of `malachite`, as this library relies on
//! them. A `malachite::Rational` is modelled by the pair `(numerator,
//! denominator)` of its value, sign on the numerator; a `malachite::Natural`
//! by its value.
use malachite::num::arithmetic::traits::{Abs, DivRem, PowAssign, Sign};
use malachite::num::conversion::traits::IsInteger;
use malachite::num::logic::traits::SignificantBits;
use malachite::{Natural, Rational as BigRational};
use vstd::arithmetic::power::pow;
use vstd::prelude::*;
use crate::fraction::{abs, represents};

verus! {

#[verifier::external_type_specification]
#[verifier::external_body]
pub struct ExBigRational(BigRational);

#[verifier::external_type_specification]
#[verifier::external_body]
pub struct ExNatural(Natural);

/// The value held by a `malachite::Rational`, as `(numerator, denominator)`.
pub uninterp spec fn parts_of(r: BigRational) -> (int, int);

/// The value held by a `malachite::Natural`.
pub uninterp spec fn value_of(n: Natural) -> nat;

/// Relies on `From<i64> for malachite::Rational`: the integer `x` as a rational.
#[verifier::external_body]
pub(crate) fn big_from_i64(x: i64) -> (r: BigRational)
    ensures
        represents(parts_of(r), x as int, 1),
{
    BigRational::from(x)
}

/// Relies on `From<u64> for malachite::Natural`: the same value.
#[verifier::external_body]
pub(crate) fn natural_from_u64(x: u64) -> (r: Natural)
    ensures
        value_of(r) == x as nat,
{
    Natural::from(x)
}

/// Relies on `u64::try_from(&malachite::Natural)`: succeeds exactly when the
/// value fits.
#[verifier::external_body]
pub(crate) fn natural_to_u64(n: &Natural) -> (r: Option<u64>)
    ensures
        r is Some <==> value_of(*n) <= u64::MAX,
        r matches Some(v) ==> v as nat == value_of(*n),
{
    u64::try_from(n).ok()
}

/// Relies on `DivRem for malachite::Natural`: Euclidean quotient and
/// remainder; it panics on a zero divisor.
#[verifier::external_body]
pub(crate) fn natural_div_rem(n: Natural, d: Natural) -> (r: (Natural, Natural))
    requires
        value_of(d) > 0,
    ensures
        value_of(r.0) == value_of(n) / value_of(d),
        value_of(r.1) == value_of(n) % value_of(d),
{
    n.div_rem(d)
}

/// Relies on `malachite::Rational::from_naturals`: reduces `n / d` to lowest
/// terms; it panics on a zero denominator.
#[verifier::external_body]
pub(crate) fn big_from_naturals(n: Natural, d: Natural) -> (r: BigRational)
    requires
        value_of(d) > 0,
    ensures
        represents(parts_of(r), value_of(n) as int, value_of(d) as int),
{
    BigRational::from_naturals(n, d)
}

/// Relies on `malachite::Rational::to_numerator_and_denominator`: the
/// magnitude of the numerator, and the denominator.
#[verifier::external_body]
pub(crate) fn big_to_naturals(r: &BigRational) -> (p: (Natural, Natural))
    ensures
        value_of(p.0) as int == abs(parts_of(*r).0),
        value_of(p.1) as int == parts_of(*r).1,
{
    r.to_numerator_and_denominator()
}

/// Relies on `malachite::Rational::numerator_ref`: the magnitude of the
/// numerator.
#[verifier::external_body]
pub(crate) fn big_numerator_ref(r: &BigRational) -> (n: &Natural)
    ensures
        value_of(*n) as int == abs(parts_of(*r).0),
{
    r.numerator_ref()
}

/// Relies on `malachite::Rational::denominator_ref`: the denominator.
#[verifier::external_body]
pub(crate) fn big_denominator_ref(r: &BigRational) -> (n: &Natural)
    ensures
        value_of(*n) as int == parts_of(*r).1,
{
    r.denominator_ref()
}

/// Relies on `Sign for malachite::Rational`: the sign of the value.
#[verifier::external_body]
pub(crate) fn big_sign(r: &BigRational) -> (o: core::cmp::Ordering)
    ensures
        (o == core::cmp::Ordering::Less) <==> parts_of(*r).0 < 0,
        (o == core::cmp::Ordering::Equal) <==> parts_of(*r).0 == 0,
        (o == core::cmp::Ordering::Greater) <==> parts_of(*r).0 > 0,
{
    r.sign()
}

/// Relies on `IsInteger for &malachite::Rational`: whether the denominator is one.
#[verifier::external_body]
pub(crate) fn big_is_integer(r: &BigRational) -> (b: bool)
    ensures
        b == (parts_of(*r).1 == 1),
{
    r.is_integer()
}

/// Relies on `i64::try_from(&malachite::Rational)`: succeeds exactly on an
/// integer in range.
#[verifier::external_body]
pub(crate) fn big_to_i64(r: &BigRational) -> (o: Option<i64>)
    ensures
        o is Some <==> (parts_of(*r).1 == 1 && i64::MIN <= parts_of(*r).0 <= i64::MAX),
        o matches Some(v) ==> v as int == parts_of(*r).0,
{
    i64::try_from(r).ok()
}

/// Relies on `Abs for malachite::Rational`: the magnitude.
#[verifier::external_body]
pub(crate) fn big_abs(r: BigRational) -> (a: BigRational)
    ensures
        parts_of(a) == (abs(parts_of(r).0) as int, parts_of(r).1),
{
    r.abs()
}

/// Relies on `Add for malachite::Rational`: the exact sum in lowest terms.
#[verifier::external_body]
pub(crate) fn big_add(a: BigRational, b: BigRational) -> (r: BigRational)
    ensures
        represents(
            parts_of(r),
            parts_of(a).0 * parts_of(b).1 + parts_of(b).0 * parts_of(a).1,
            parts_of(a).1 * parts_of(b).1,
        ),
{
    a + b
}

/// Relies on `Sub for malachite::Rational`: the exact difference in lowest terms.
#[verifier::external_body]
pub(crate) fn big_sub(a: BigRational, b: BigRational) -> (r: BigRational)
    ensures
        represents(
            parts_of(r),
            parts_of(a).0 * parts_of(b).1 - parts_of(b).0 * parts_of(a).1,
            parts_of(a).1 * parts_of(b).1,
        ),
{
    a - b
}

/// Relies on `Mul for malachite::Rational`: the exact product in lowest terms.
#[verifier::external_body]
pub(crate) fn big_mul(a: BigRational, b: BigRational) -> (r: BigRational)
    ensures
        represents(
            parts_of(r),
            parts_of(a).0 * parts_of(b).0,
            parts_of(a).1 * parts_of(b).1,
        ),
{
    a * b
}

/// Relies on `Div for malachite::Rational`: the exact quotient in lowest
/// terms; it panics on a zero divisor.
#[verifier::external_body]
pub(crate) fn big_div(a: BigRational, b: BigRational) -> (r: BigRational)
    requires
        parts_of(b).0 != 0,
    ensures
        represents(
            parts_of(r),
            parts_of(a).0 * parts_of(b).1 * (if parts_of(b).0 < 0 { -1int } else { 1 }),
            parts_of(a).1 * abs(parts_of(b).0),
        ),
{
    a / b
}

/// The number of binary digits of `n`; zero has none.
pub open spec fn bit_length(n: nat) -> nat
    decreases n,
{
    if n == 0 {
        0
    } else {
        1 + bit_length(n / 2)
    }
}

/// Relies on `SignificantBits for &malachite::Natural`: the number of binary
/// digits.
#[verifier::external_body]
pub(crate) fn natural_bits(n: &Natural) -> (b: u64)
    ensures
        b as nat == bit_length(value_of(*n)),
{
    n.significant_bits()
}

/// Relies on `PowAssign<u64> for malachite::Rational`: numerator and
/// denominator each raised to `e`. It multiplies the bit length of each by
/// `e` in `u64`, which must not overflow.
#[verifier::external_body]
pub(crate) fn big_pow(r: BigRational, e: u64) -> (p: BigRational)
    requires
        bit_length(abs(parts_of(r).0)) * e <= u64::MAX,
        bit_length(parts_of(r).1 as nat) * e <= u64::MAX,
    ensures
        represents(parts_of(p), pow(parts_of(r).0, e as nat), pow(parts_of(r).1, e as nat)),
{
    let mut r = r;
    r.pow_assign(e);
    r
}

/// Relies on `PartialEq for malachite::Rational`: equality of values.
#[verifier::external_body]
pub(crate) fn big_eq(a: &BigRational, b: &BigRational) -> (r: bool)
    ensures
        r == (parts_of(*a) == parts_of(*b)),
{
    a == b
}

/// Relies on `Clone for malachite::Rational`: the same value.
#[verifier::external_body]
pub(crate) fn big_clone(a: &BigRational) -> (r: BigRational)
    ensures
        parts_of(r) == parts_of(*a),
{
    a.clone()
}

/// The decimal digit `d < 10`.
pub open spec fn digit_char(d: nat) -> char {
    seq!['0', '1', '2', '3', '4', '5', '6', '7', '8', '9'][d as int]
}

/// The decimal digits of `n`, without leading zeros.
pub open spec fn decimal(n: nat) -> Seq<char>
    decreases n,
{
    if n < 10 {
        seq![digit_char(n)]
    } else {
        decimal(n / 10).push(digit_char(n % 10))
    }
}

/// The text of `numerator/denominator`: a minus sign for a negative value,
/// the numerator's magnitude, and `/` with the denominator unless it is one.
pub open spec fn rendering(f: (int, int)) -> Seq<char> {
    let sign = if f.0 < 0 {
        seq!['-']
    } else {
        Seq::empty()
    };
    let tail = if f.1 == 1 {
        Seq::empty()
    } else {
        seq!['/'] + decimal(f.1 as nat)
    };
    sign + decimal(abs(f.0)) + tail
}

/// Relies on `Display for malachite::Rational`: sign, numerator, and the
/// denominator after `/` when it is not one, all in decimal.
#[verifier::external_body]
pub(crate) fn big_to_string(r: &BigRational) -> (s: String)
    ensures
        s@ == rendering(parts_of(*r)),
{
    format!("{}", r)
}

/// The order of two values `x`, `y` given as fractions with positive
/// denominators.
pub open spec fn compare(x: (int, int), y: (int, int)) -> core::cmp::Ordering {
    if x.0 * y.1 < y.0 * x.1 {
        core::cmp::Ordering::Less
    } else if x.0 * y.1 == y.0 * x.1 {
        core::cmp::Ordering::Equal
    } else {
        core::cmp::Ordering::Greater
    }
}

/// Relies on `Ord for malachite::Rational`: the numeric order of the values.
#[verifier::external_body]
pub(crate) fn big_cmp(a: &BigRational, b: &BigRational) -> (o: core::cmp::Ordering)
    ensures
        o == compare(parts_of(*a), parts_of(*b)),
{
    a.cmp(b)
}

} // verus!
