//! Exact rational numbers in lowest terms.
use malachite::{Natural, Rational as BigRational};
use vstd::arithmetic::power::pow;
use vstd::prelude::*;
use crate::bignum::{
    big_abs, big_add, big_clone, big_cmp, big_denominator_ref, big_div, big_eq, big_from_i64,
    big_from_naturals, big_is_integer, big_mul, big_numerator_ref, big_pow, big_sign, big_sub,
    big_to_i64, big_to_naturals, big_to_string, compare, natural_div_rem, natural_from_u64,
    natural_bits, natural_to_u64, parts_of, rendering, value_of, bit_length,
};
use crate::fraction::{
    abs, canonical, gcd, lemma_canonical_unique, lemma_integer_canonical, lemma_normalize_is,
    normalize,
};
use crate::item::{CalcursType, Flag, Item};

verus! {

/// An exact rational number. Its value is held in lowest terms with a positive
/// denominator, so each value has exactly one representation.
#[derive(Debug, Hash, Ord)]
pub struct Rational(pub(crate) BigRational);

impl View for Rational {
    type V = (int, int);

    /// The value as `(numerator, denominator)`.
    closed spec fn view(&self) -> (int, int) {
        parts_of(self.0)
    }
}

/// `-1` for a negative number, else `1`.
pub open spec fn sign_of(n: int) -> int {
    if n < 0 {
        -1
    } else {
        1
    }
}

/// The value `n / d`, for `d != 0`, in lowest terms.
pub open spec fn fraction_of(n: int, d: int) -> (int, int) {
    normalize(n * sign_of(d), abs(d) as int)
}

pub open spec fn add_spec(x: (int, int), y: (int, int)) -> (int, int) {
    normalize(x.0 * y.1 + y.0 * x.1, x.1 * y.1)
}

pub open spec fn sub_spec(x: (int, int), y: (int, int)) -> (int, int) {
    normalize(x.0 * y.1 - y.0 * x.1, x.1 * y.1)
}

pub open spec fn mul_spec(x: (int, int), y: (int, int)) -> (int, int) {
    normalize(x.0 * y.0, x.1 * y.1)
}

/// The reciprocal of a non-zero value.
pub open spec fn inv_spec(x: (int, int)) -> (int, int) {
    normalize(x.1 * sign_of(x.0), abs(x.0) as int)
}

/// The quotient by a non-zero value.
pub open spec fn div_spec(x: (int, int), y: (int, int)) -> (int, int) {
    normalize(x.0 * y.1 * sign_of(y.0), x.1 * abs(y.0))
}

proof fn lemma_positive_product(a: int, b: int)
    requires
        a > 0,
        b > 0,
    ensures
        a * b > 0,
{
    assert(a * b > 0) by (nonlinear_arith)
        requires
            a > 0,
            b > 0,
    ;
}

/// Why a power has no value.
#[derive(Debug, Clone, Copy, PartialEq, Eq, Structural)]
pub enum PowError {
    /// Zero raised to the power zero.
    UndefinedForm,
    /// Zero raised to a negative power: zero has no reciprocal.
    ZeroInverse,
}

/// Whether `b ^ k` can be computed: the bit lengths of numerator and
/// denominator, times `k`, fit in `u64`.
pub open spec fn raisable(b: (int, int), k: nat) -> bool {
    bit_length(abs(b.0)) * k <= u64::MAX && bit_length(b.1 as nat) * k <= u64::MAX
}

/// `base ^ exp` for a positive exponent, applied as far as it can be exactly:
/// the applied base and the exponent left over.
pub open spec fn apply_spec(b: (int, int), f: (int, int)) -> ((int, int), (int, int)) {
    if f.1 == 1 {
        if f.0 <= u64::MAX && raisable(b, f.0 as nat) {
            (normalize(pow(b.0, f.0 as nat), pow(b.1, f.0 as nat)), (1, 1))
        } else {
            (b, f)
        }
    } else if f.0 > f.1 && f.0 / f.1 <= u64::MAX && raisable(b, (f.0 / f.1) as nat) {
        let q = (f.0 / f.1) as nat;
        (normalize(pow(b.0, q), pow(b.1, q)), normalize(f.0 % f.1, f.1))
    } else {
        (b, f)
    }
}

/// `x ^ e` for the exponents that have a value: a negative exponent first
/// takes the reciprocal of `x`.
pub open spec fn pow_spec(x: (int, int), e: (int, int)) -> ((int, int), (int, int)) {
    if e.0 == 0 {
        ((1, 1), (1, 1))
    } else if e.0 < 0 {
        apply_spec(inv_spec(x), (-e.0, e.1))
    } else {
        apply_spec(x, e)
    }
}

/// The magnitude of `n`.
fn magnitude(n: i64) -> (r: u64)
    ensures
        r as int == abs(n as int),
{
    if n < 0 {
        (-(n as i128)) as u64
    } else {
        n as u64
    }
}

impl Rational {
    /// Lowest terms with a positive denominator.
    pub open spec fn wf(&self) -> bool {
        canonical(self@)
    }

    fn from_big_i64(x: i64) -> (r: Self)
        ensures
            r.wf(),
            r@ == (x as int, 1int),
    {
        let b = big_from_i64(x);
        proof {
            lemma_integer_canonical(x as int);
            lemma_canonical_unique(parts_of(b), (x as int, 1int));
        }
        Rational(b)
    }

    pub fn zero() -> (r: Self)
        ensures
            r.wf(),
            r@ == (0int, 1int),
    {
        Self::from_big_i64(0)
    }

    pub fn one() -> (r: Self)
        ensures
            r.wf(),
            r@ == (1int, 1int),
    {
        Self::from_big_i64(1)
    }

    pub fn minus_one() -> (r: Self)
        ensures
            r.wf(),
            r@ == (-1int, 1int),
    {
        Self::from_big_i64(-1)
    }

    pub fn from_i64(value: i64) -> (r: Self)
        ensures
            r.wf(),
            r@ == (value as int, 1int),
    {
        Self::from_big_i64(value)
    }

    pub fn from_i32(value: i32) -> (r: Self)
        ensures
            r.wf(),
            r@ == (value as int, 1int),
    {
        Self::from_big_i64(value as i64)
    }

    pub fn is_zero(&self) -> (r: bool)
        ensures
            r == (self@.0 == 0),
    {
        match big_sign(&self.0) {
            core::cmp::Ordering::Equal => true,
            _ => false,
        }
    }

    pub fn is_pos(&self) -> (r: bool)
        ensures
            r == (self@.0 > 0),
    {
        match big_sign(&self.0) {
            core::cmp::Ordering::Greater => true,
            _ => false,
        }
    }

    pub fn is_neg(&self) -> (r: bool)
        ensures
            r == (self@.0 < 0),
    {
        match big_sign(&self.0) {
            core::cmp::Ordering::Less => true,
            _ => false,
        }
    }

    pub fn is_int(&self) -> (r: bool)
        ensures
            r == (self@.1 == 1),
    {
        big_is_integer(&self.0)
    }

    pub fn is_one(&self) -> (r: bool)
        ensures
            r == (self@ == (1int, 1int)),
    {
        big_eq(&self.0, &Self::one().0)
    }

    pub fn try_into_int(&self) -> (r: Option<i64>)
        ensures
            r is Some <==> (self@.1 == 1 && i64::MIN <= self@.0 <= i64::MAX),
            r matches Some(v) ==> v as int == self@.0,
    {
        big_to_i64(&self.0)
    }

    /// The magnitude.
    pub fn abs(self) -> (r: Self)
        requires
            self.wf(),
        ensures
            r.wf(),
            r@ == (abs(self@.0) as int, self@.1),
    {
        Rational(big_abs(self.0))
    }

    /// The exact sum.
    pub fn add(self, rhs: Self) -> (r: Self)
        requires
            self.wf(),
            rhs.wf(),
        ensures
            r.wf(),
            r@ == add_spec(self@, rhs@),
    {
        let r = big_add(self.0, rhs.0);
        proof {
            lemma_positive_product(self@.1, rhs@.1);
            lemma_normalize_is(
                parts_of(r),
                self@.0 * rhs@.1 + rhs@.0 * self@.1,
                self@.1 * rhs@.1,
            );
        }
        Rational(r)
    }

    /// The exact difference.
    pub fn sub(self, rhs: Self) -> (r: Self)
        requires
            self.wf(),
            rhs.wf(),
        ensures
            r.wf(),
            r@ == sub_spec(self@, rhs@),
    {
        let r = big_sub(self.0, rhs.0);
        proof {
            lemma_positive_product(self@.1, rhs@.1);
            lemma_normalize_is(
                parts_of(r),
                self@.0 * rhs@.1 - rhs@.0 * self@.1,
                self@.1 * rhs@.1,
            );
        }
        Rational(r)
    }

    /// The exact product.
    pub fn mul(self, rhs: Self) -> (r: Self)
        requires
            self.wf(),
            rhs.wf(),
        ensures
            r.wf(),
            r@ == mul_spec(self@, rhs@),
    {
        let r = big_mul(self.0, rhs.0);
        proof {
            lemma_positive_product(self@.1, rhs@.1);
            lemma_normalize_is(parts_of(r), self@.0 * rhs@.0, self@.1 * rhs@.1);
        }
        Rational(r)
    }

    pub fn add_assign(&mut self, rhs: Self)
        requires
            old(self).wf(),
            rhs.wf(),
        ensures
            final(self).wf(),
            final(self)@ == add_spec(old(self)@, rhs@),
    {
        let lhs = Rational(big_clone(&self.0));
        *self = lhs.add(rhs);
    }

    pub fn sub_assign(&mut self, rhs: Self)
        requires
            old(self).wf(),
            rhs.wf(),
        ensures
            final(self).wf(),
            final(self)@ == sub_spec(old(self)@, rhs@),
    {
        let lhs = Rational(big_clone(&self.0));
        *self = lhs.sub(rhs);
    }

    pub fn mul_assign(&mut self, rhs: Self)
        requires
            old(self).wf(),
            rhs.wf(),
        ensures
            final(self).wf(),
            final(self)@ == mul_spec(old(self)@, rhs@),
    {
        let lhs = Rational(big_clone(&self.0));
        *self = lhs.mul(rhs);
    }

    /// The exact quotient; nothing when `rhs` is zero.
    pub fn div(self, rhs: Self) -> (r: Option<Self>)
        requires
            self.wf(),
            rhs.wf(),
        ensures
            r is None <==> rhs@.0 == 0,
            r matches Some(q) ==> q.wf() && q@ == div_spec(self@, rhs@),
    {
        if rhs.is_zero() {
            None
        } else {
            let ghost x = self@;
            let ghost y = rhs@;
            let r = big_div(self.0, rhs.0);
            proof {
                lemma_positive_product(x.1, abs(y.0) as int);
                lemma_normalize_is(parts_of(r), x.0 * y.1 * sign_of(y.0), x.1 * abs(y.0));
            }
            Some(Rational(r))
        }
    }

    /// The reciprocal; nothing for zero.
    pub fn inverse(self) -> (r: Option<Self>)
        requires
            self.wf(),
        ensures
            r is None <==> self@.0 == 0,
            r matches Some(v) ==> v.wf() && v@ == inv_spec(self@),
    {
        if self.is_zero() {
            None
        } else {
            let ghost x = self@;
            let is_neg = self.is_neg();
            let (num, den) = big_to_naturals(&self.0);
            let mut r = big_from_naturals(den, num);
            if is_neg {
                let ghost p = parts_of(r);
                r = big_mul(r, Self::minus_one().0);
                proof {
                    let q = parts_of(r);
                    assert(q.0 * p.1 == -p.0 * q.1) by (nonlinear_arith)
                        requires
                            q.0 * (p.1 * 1) == p.0 * -1 * q.1,
                    ;
                    assert(canonical((-p.0, p.1)));
                    lemma_canonical_unique(parts_of(r), (-p.0, p.1));
                    assert(-p.0 * abs(x.0) == x.1 * sign_of(x.0) * p.1) by (nonlinear_arith)
                        requires
                            p.0 * abs(x.0) == x.1 * p.1,
                            sign_of(x.0) == -1,
                    ;
                }
            }
            proof {
                lemma_normalize_is(parts_of(r), x.1 * sign_of(x.0), abs(x.0) as int);
            }
            Some(Rational(r))
        }
    }

    /// `numerator / denominator`; the denominator may not be zero.
    pub fn from_unsigned_pair(numerator: u64, denominator: u64) -> (r: Self)
        requires
            denominator != 0,
        ensures
            r.wf(),
            r@ == normalize(numerator as int, denominator as int),
    {
        let n = natural_from_u64(numerator);
        let d = natural_from_u64(denominator);
        let r = big_from_naturals(n, d);
        proof {
            lemma_normalize_is(parts_of(r), numerator as int, denominator as int);
        }
        Rational(r)
    }

    /// `numerator / denominator`, its sign that of the product of the two
    /// signs; the denominator may not be zero.
    pub fn from_signed_pair(numerator: i64, denominator: i64) -> (r: Self)
        requires
            denominator != 0,
        ensures
            r.wf(),
            r@ == fraction_of(numerator as int, denominator as int),
    {
        let is_neg = (numerator < 0) != (denominator < 0);
        let n = natural_from_u64(magnitude(numerator));
        let d = natural_from_u64(magnitude(denominator));
        let mut r = big_from_naturals(n, d);
        let ghost p = parts_of(r);
        let ghost a = numerator as int;
        let ghost b = denominator as int;
        if is_neg {
            r = big_mul(r, Self::minus_one().0);
            proof {
                let q = parts_of(r);
                assert(q.0 * p.1 == -p.0 * q.1) by (nonlinear_arith)
                    requires
                        q.0 * (p.1 * 1) == p.0 * -1 * q.1,
                ;
                assert(canonical((-p.0, p.1)));
                lemma_canonical_unique(q, (-p.0, p.1));
                assert(-p.0 * abs(b) == a * sign_of(b) * p.1) by (nonlinear_arith)
                    requires
                        p.0 * abs(b) == abs(a) * p.1,
                        (a < 0) != (b < 0),
                        abs(a) == (if a < 0 { -a } else { a }),
                        abs(b) == (if b < 0 { -b } else { b }),
                        sign_of(b) == (if b < 0 { -1int } else { 1 }),
                ;
            }
        } else {
            proof {
                assert(p.0 * abs(b) == a * sign_of(b) * p.1) by (nonlinear_arith)
                    requires
                        p.0 * abs(b) == abs(a) * p.1,
                        (a < 0) == (b < 0),
                        abs(a) == (if a < 0 { -a } else { a }),
                        abs(b) == (if b < 0 { -b } else { b }),
                        sign_of(b) == (if b < 0 { -1int } else { 1 }),
                ;
            }
        }
        proof {
            lemma_normalize_is(parts_of(r), a * sign_of(b), abs(b) as int);
        }
        Rational(r)
    }

    /// Whether `self ^ k` can be computed.
    fn can_raise(&self, k: u64) -> (r: bool)
        ensures
            r == raisable(self@, k as nat),
    {
        let nb = natural_bits(big_numerator_ref(&self.0));
        let db = natural_bits(big_denominator_ref(&self.0));
        nb.checked_mul(k).is_some() && db.checked_mul(k).is_some()
    }

    /// `self` raised to the integer power `k`.
    fn raise(self, k: u64) -> (r: Self)
        requires
            self.wf(),
            raisable(self@, k as nat),
        ensures
            r.wf(),
            r@ == normalize(pow(self@.0, k as nat), pow(self@.1, k as nat)),
    {
        let ghost x = self@;
        let r = big_pow(self.0, k);
        proof {
            vstd::arithmetic::power::lemma_pow_positive(x.1, k as nat);
            lemma_normalize_is(parts_of(r), pow(x.0, k as nat), pow(x.1, k as nat));
        }
        Rational(r)
    }

    /// `self ^ exp` for a positive exponent, applied as far as it can be
    /// exactly.
    fn apply_power(self, exp: Self) -> (r: (Self, Self))
        requires
            self.wf(),
            exp.wf(),
            exp@.0 > 0,
        ensures
            r.0.wf(),
            r.1.wf(),
            (r.0@, r.1@) == apply_spec(self@, exp@),
    {
        let ghost f = exp@;
        if exp.is_int() {
            return match natural_to_u64(big_numerator_ref(&exp.0)) {
                Some(k) => {
                    if self.can_raise(k) {
                        (self.raise(k), Self::one())
                    } else {
                        (self, exp)
                    }
                },
                None => (self, exp),
            };
        }
        let (num, den) = big_to_naturals(&exp.0);
        let (quot, rem) = natural_div_rem(num, den);
        proof {
            vstd::arithmetic::div_mod::lemma_fundamental_div_mod(f.0, f.1);
            assert(f.0 % f.1 < f.1);
            assert((f.0 / f.1 >= 1) == (f.0 >= f.1)) by (nonlinear_arith)
                requires
                    f.0 == f.1 * (f.0 / f.1) + f.0 % f.1,
                    0 <= f.0 % f.1 < f.1,
            ;
            if f.0 == f.1 {
                assert(f.0 % f.1 == 0) by (nonlinear_arith)
                    requires
                        f.0 == f.1 * (f.0 / f.1) + f.0 % f.1,
                        0 <= f.0 % f.1 < f.1,
                        f.0 == f.1,
                ;
                assert(gcd(f.1 as nat, 0) == f.1);
                assert(gcd(abs(f.0), f.1 as nat) == gcd(f.1 as nat, (f.0 % f.1) as nat));
            }
        }
        match natural_to_u64(&quot) {
            Some(k) => {
                if k == 0 || !self.can_raise(k) {
                    (self, exp)
                } else {
                    let (_, d) = big_to_naturals(&exp.0);
                    let rem_exp = big_from_naturals(rem, d);
                    proof {
                        lemma_normalize_is(parts_of(rem_exp), f.0 % f.1, f.1);
                    }
                    (self.raise(k), Rational(rem_exp))
                }
            },
            None => (self, exp),
        }
    }

    /// `self ^ rhs`, applied as far as it can be exactly: the applied base and
    /// the exponent left over. An integer exponent that fits in `u64` is
    /// applied whole, leaving `1`. A fraction `p / q` with `p > q` applies the
    /// integer quotient of `p` by `q` and leaves `(p mod q) / q`. Anything
    /// else comes back unchanged, after a negative exponent has turned `self`
    /// into its reciprocal; so does a power too large to compute (bit length
    /// times exponent beyond `u64`). Zero to the power zero is an undefined
    /// form.
    pub fn pow(self, rhs: Self) -> (r: Result<(Self, Self), PowError>)
        requires
            self.wf(),
            rhs.wf(),
        ensures
            (r matches Err(PowError::UndefinedForm)) <==> (self@.0 == 0 && rhs@.0 == 0),
            (r matches Err(PowError::ZeroInverse)) <==> (self@.0 == 0 && rhs@.0 < 0),
            r matches Ok(p) ==> p.0.wf() && p.1.wf() && (p.0@, p.1@) == pow_spec(self@, rhs@),
    {
        if self.is_zero() && rhs.is_zero() {
            return Err(PowError::UndefinedForm);
        }
        if rhs.is_zero() {
            return Ok((Self::one(), Self::one()));
        }
        if rhs.is_neg() {
            let base = match self.inverse() {
                Some(v) => v,
                None => return Err(PowError::ZeroInverse),
            };
            let exp = rhs.abs();
            Ok(base.apply_power(exp))
        } else {
            Ok(self.apply_power(rhs))
        }
    }
}

/// The classification of a value: always rational; integer when the
/// denominator is one; unit when, besides, the magnitude is one; and exactly
/// one of zero, positive, negative.
pub open spec fn classify(x: (int, int)) -> Item {
    Item {
        rational: true,
        integer: x.1 == 1,
        unit_one: x.1 == 1 && abs(x.0) == 1,
        zero: x.0 == 0,
        pos: x.0 > 0,
        neg: x.0 < 0,
    }
}

impl CalcursType for Rational {
    open spec fn desc_spec(&self) -> Item {
        classify(self@)
    }

    fn desc(&self) -> (r: Item) {
        let mut flags = Item::empty().with(Flag::Rational);
        if self.is_int() {
            flags = flags.with(Flag::Integer);
            if let Some(1) = natural_to_u64(big_numerator_ref(&self.0)) {
                flags = flags.with(Flag::UOne);
            }
        }
        flags = flags.with(
            match big_sign(&self.0) {
                core::cmp::Ordering::Less => Flag::Neg,
                core::cmp::Ordering::Equal => Flag::Zero,
                core::cmp::Ordering::Greater => Flag::Pos,
            },
        );
        let ghost c = classify(self@);
        assert(flags.contains(Flag::Rational) == c.contains(Flag::Rational));
        assert(flags.contains(Flag::Integer) == c.contains(Flag::Integer));
        assert(flags.contains(Flag::UOne) == c.contains(Flag::UOne));
        assert(flags.contains(Flag::Zero) == c.contains(Flag::Zero));
        assert(flags.contains(Flag::Pos) == c.contains(Flag::Pos));
        assert(flags.contains(Flag::Neg) == c.contains(Flag::Neg));
        flags
    }
}

impl PartialEq for Rational {
    fn eq(&self, other: &Rational) -> (r: bool) {
        big_eq(&self.0, &other.0)
    }
}

impl vstd::std_specs::cmp::PartialEqSpecImpl for Rational {
    open spec fn obeys_eq_spec() -> bool {
        true
    }

    open spec fn eq_spec(&self, other: &Rational) -> bool {
        self@ == other@
    }
}

impl Eq for Rational {

}

impl PartialOrd for Rational {
    fn partial_cmp(&self, other: &Rational) -> (r: Option<core::cmp::Ordering>) {
        Some(big_cmp(&self.0, &other.0))
    }
}

impl vstd::std_specs::cmp::PartialOrdSpecImpl for Rational {
    open spec fn obeys_partial_cmp_spec() -> bool {
        true
    }

    /// The numeric order of the values.
    open spec fn partial_cmp_spec(&self, other: &Rational) -> Option<core::cmp::Ordering> {
        Some(compare(self@, other@))
    }
}

impl Clone for Rational {
    fn clone(&self) -> Self {
        Rational(big_clone(&self.0))
    }
}

impl Rational {
    /// The same value; unlike `clone`, with what it returns stated.
    pub fn copy(&self) -> (r: Self)
        requires
            self.wf(),
        ensures
            r.wf(),
            r@ == self@,
    {
        Rational(big_clone(&self.0))
    }

    /// The conventional text: `numerator/denominator`, or the bare integer.
    pub fn to_string(&self) -> (s: String)
        ensures
            s@ == rendering(self@),
    {
        big_to_string(&self.0)
    }

    /// The magnitude of the numerator.
    pub fn numerator_ref(&self) -> (n: &Natural)
        ensures
            value_of(*n) as int == abs(self@.0),
    {
        big_numerator_ref(&self.0)
    }

    /// The denominator.
    pub fn denominator_ref(&self) -> (n: &Natural)
        ensures
            value_of(*n) as int == self@.1,
    {
        big_denominator_ref(&self.0)
    }
}

} // verus!
