//! Mathematical model of an exact rational number: a pair `(num, den)` of
//! integers, and the number theory that makes its lowest-terms form unique.
use vstd::prelude::*;

verus! {

/// Greatest common divisor, by Euclid's algorithm.
pub open spec fn gcd(a: nat, b: nat) -> nat
    decreases b,
{
    if b == 0 {
        a
    } else {
        gcd(b, a % b)
    }
}

pub open spec fn abs(n: int) -> nat {
    if n < 0 {
        (-n) as nat
    } else {
        n as nat
    }
}

/// `k` divides `n`.
pub open spec fn divides(k: int, n: int) -> bool {
    exists|m: int| n == #[trigger] (k * m)
}

/// A fraction in lowest terms with a positive denominator.
pub open spec fn canonical(f: (int, int)) -> bool {
    f.1 > 0 && gcd(abs(f.0), f.1 as nat) == 1
}

/// `f` is the lowest-terms form of the value `n / d`.
pub open spec fn represents(f: (int, int), n: int, d: int) -> bool {
    canonical(f) && f.0 * d == n * f.1
}

/// The lowest-terms form of `n / d` (for `d > 0`).
pub open spec fn normalize(n: int, d: int) -> (int, int) {
    choose|f: (int, int)| represents(f, n, d)
}

/// An integer `n / 1` is in lowest terms.
pub proof fn lemma_integer_canonical(n: int)
    ensures
        canonical((n, 1)),
{
    let a = abs(n);
    assert(a % 1 == 0);
    assert(gcd(1, 0) == 1);
    assert(gcd(a, 1) == gcd(1, a % 1));
}

/// Bezout's identity: coefficients `x`, `y` with `a * x + b * y == gcd(a, b)`.
pub proof fn lemma_bezout(a: nat, b: nat) -> (r: (int, int))
    ensures
        a * r.0 + b * r.1 == gcd(a, b) as int,
    decreases b,
{
    if b == 0 {
        (1, 0)
    } else {
        let (x, y) = lemma_bezout(b, a % b);
        let q = (a / b) as int;
        let m = (a % b) as int;
        assert(a as int == b * q + m) by {
            vstd::arithmetic::div_mod::lemma_fundamental_div_mod(a as int, b as int);
        }
        assert(a * y + b * (x - q * y) == b * x + m * y) by (nonlinear_arith)
            requires
                a as int == b * q + m,
        ;
        (y, x - q * y)
    }
}

/// `gcd(a, b)` divides both arguments; it is positive unless both are zero.
pub proof fn lemma_gcd_divides(a: nat, b: nat) -> (r: (int, int))
    ensures
        a as int == gcd(a, b) * r.0,
        b as int == gcd(a, b) * r.1,
        (a > 0 || b > 0) ==> gcd(a, b) > 0,
    decreases b,
{
    if b == 0 {
        (1, 0)
    } else {
        let g = gcd(a, b) as int;
        let (k1, k2) = lemma_gcd_divides(b, a % b);
        let q = (a / b) as int;
        let m = (a % b) as int;
        assert(a as int == b * q + m) by {
            vstd::arithmetic::div_mod::lemma_fundamental_div_mod(a as int, b as int);
        }
        assert(a as int == g * (q * k1 + k2)) by (nonlinear_arith)
            requires
                a as int == b * q + m,
                b as int == g * k1,
                m == g * k2,
        ;
        (q * k1 + k2, k1)
    }
}

proof fn lemma_abs_times_sign(n: int, s: int)
    requires
        s == (if n < 0 { -1int } else { 1 }),
    ensures
        abs(n) == s * n,
        s * s == 1,
{
    if n < 0 {
        assert(s * n == -n) by (nonlinear_arith)
            requires
                s == -1,
        ;
    } else {
        assert(s * n == n) by (nonlinear_arith)
            requires
                s == 1,
        ;
    }
}

/// A common divisor of two coprime numbers divides one.
pub proof fn lemma_coprime_common_divisor(n: int, d: int, k: int)
    requires
        d > 0,
        gcd(abs(n), d as nat) == 1,
        k > 0,
        divides(k, n),
        divides(k, d),
    ensures
        k == 1,
{
    let (x, y) = lemma_bezout(abs(n), d as nat);
    let a = choose|m: int| n == #[trigger] (k * m);
    let b = choose|m: int| d == #[trigger] (k * m);
    let s: int = if n < 0 { -1 } else { 1 };
    lemma_abs_times_sign(n, s);
    assert(k * (s * a * x + b * y) == 1) by (nonlinear_arith)
        requires
            abs(n) * x + d * y == 1,
            abs(n) == s * n,
            n == k * a,
            d == k * b,
    ;
    assert(k == 1) by (nonlinear_arith)
        requires
            k > 0,
            k * (s * a * x + b * y) == 1,
    ;
}

/// In lowest terms with a positive denominator, a rational value has exactly
/// one representation.
pub proof fn lemma_canonical_unique(f: (int, int), g: (int, int))
    requires
        canonical(f),
        canonical(g),
        f.0 * g.1 == g.0 * f.1,
    ensures
        f == g,
{
    lemma_denominator_divides(f, g);
    lemma_denominator_divides(g, f);
    let k1 = choose|m: int| g.1 == #[trigger] (f.1 * m);
    let k2 = choose|m: int| f.1 == #[trigger] (g.1 * m);
    assert(f.1 == g.1) by (nonlinear_arith)
        requires
            g.1 == f.1 * k1,
            f.1 == g.1 * k2,
            f.1 > 0,
            g.1 > 0,
    ;
    assert(f.0 == g.0) by (nonlinear_arith)
        requires
            f.0 * g.1 == g.0 * f.1,
            f.1 == g.1,
            f.1 > 0,
    ;
}

proof fn lemma_denominator_divides(f: (int, int), g: (int, int))
    requires
        canonical(f),
        canonical(g),
        f.0 * g.1 == g.0 * f.1,
    ensures
        divides(f.1, g.1),
{
    let (x, y) = lemma_bezout(abs(f.0), f.1 as nat);
    let s: int = if f.0 < 0 { -1 } else { 1 };
    lemma_abs_times_sign(f.0, s);
    let w = s * g.0 * x + g.1 * y;
    assert(g.1 == f.1 * w) by (nonlinear_arith)
        requires
            abs(f.0) * x + f.1 * y == 1,
            abs(f.0) == s * f.0,
            f.0 * g.1 == g.0 * f.1,
            w == s * g.0 * x + g.1 * y,
    ;
}

/// Every value `n / d` with `d > 0` has a lowest-terms form.
pub proof fn lemma_lowest_terms_exist(n: int, d: int)
    requires
        d > 0,
    ensures
        represents(normalize(n, d), n, d),
    decreases d,
{
    let g = gcd(abs(n), d as nat);
    if g == 1 {
        assert(represents((n, d), n, d));
    } else {
        let (k1, k2) = lemma_gcd_divides(abs(n), d as nat);
        let s: int = if n < 0 { -1 } else { 1 };
        lemma_abs_times_sign(n, s);
        let n2 = s * k1;
        assert(s * abs(n) == n) by (nonlinear_arith)
            requires
                abs(n) == s * n,
                s * s == 1,
        ;
        assert(n == g * n2) by (nonlinear_arith)
            requires
                abs(n) == g * k1,
                s * abs(n) == n,
                n2 == s * k1,
        ;
        assert(g > 1);
        assert(k2 > 0 && k2 < d) by (nonlinear_arith)
            requires
                d == g * k2,
                d > 0,
                g > 1,
        ;
        lemma_lowest_terms_exist(n2, k2);
        let f = normalize(n2, k2);
        assert(f.0 * d == n * f.1) by (nonlinear_arith)
            requires
                f.0 * k2 == n2 * f.1,
                n == g * n2,
                d == g * k2,
        ;
        assert(represents(f, n, d));
    }
}

/// The lowest-terms form of `n / d` is the one canonical fraction equal to it.
pub proof fn lemma_normalize_is(f: (int, int), n: int, d: int)
    requires
        d > 0,
        represents(f, n, d),
    ensures
        normalize(n, d) == f,
{
    lemma_lowest_terms_exist(n, d);
    let g = normalize(n, d);
    assert(f.0 * g.1 == g.0 * f.1) by (nonlinear_arith)
        requires
            f.0 * d == n * f.1,
            g.0 * d == n * g.1,
            d > 0,
            f.1 > 0,
    ;
    lemma_canonical_unique(f, g);
}

/// Two fractions of equal value have the same lowest-terms form.
pub proof fn lemma_normalize_equal(n1: int, d1: int, n2: int, d2: int)
    requires
        d1 > 0,
        d2 > 0,
        n1 * d2 == n2 * d1,
    ensures
        normalize(n1, d1) == normalize(n2, d2),
{
    lemma_lowest_terms_exist(n1, d1);
    let f = normalize(n1, d1);
    assert(f.0 * d2 == n2 * f.1) by (nonlinear_arith)
        requires
            f.0 * d1 == n1 * f.1,
            n1 * d2 == n2 * d1,
            d1 > 0,
    ;
    lemma_normalize_is(f, n2, d2);
}

} // verus!
