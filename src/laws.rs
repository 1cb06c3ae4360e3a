//! Algebraic laws of the exact rationals, over the values that the
//! operations of `Rational` are specified to produce.
use vstd::prelude::*;
use crate::fraction::{
    abs, canonical, divides, lemma_coprime_common_divisor, lemma_lowest_terms_exist,
    lemma_normalize_equal, lemma_normalize_is, normalize,
};
use crate::item::{CalcursType, Flag};
use crate::rational::{
    add_spec, classify, div_spec, fraction_of, inv_spec, mul_spec, sign_of, Rational,
};

verus! {

/// Addition is commutative: `a + b == b + a`.
pub proof fn lemma_add_commutative(a: Rational, b: Rational)
    requires
        a.wf(),
        b.wf(),
    ensures
        add_spec(a@, b@) == add_spec(b@, a@),
{
    let (x, y) = (a@, b@);
    assert(x.0 * y.1 + y.0 * x.1 == y.0 * x.1 + x.0 * y.1);
    assert(x.1 * y.1 == y.1 * x.1) by (nonlinear_arith);
}

/// Multiplication is commutative: `a * b == b * a`.
pub proof fn lemma_mul_commutative(a: Rational, b: Rational)
    requires
        a.wf(),
        b.wf(),
    ensures
        mul_spec(a@, b@) == mul_spec(b@, a@),
{
    let (x, y) = (a@, b@);
    assert(x.0 * y.0 == y.0 * x.0) by (nonlinear_arith);
    assert(x.1 * y.1 == y.1 * x.1) by (nonlinear_arith);
}

proof fn lemma_cross_sum(a: int, b: int, c: int, d: int, e: int, f: int)
    ensures
        (a * b + c * d) * (e * f) == (a * e) * (b * f) + (c * f) * (d * e),
{
    let g = e * f;
    vstd::arithmetic::mul::lemma_mul_is_distributive_add_other_way(g, a * b, c * d);
    assert((a * b) * (e * f) == (a * e) * (b * f)) by (nonlinear_arith);
    assert((c * d) * (e * f) == (c * f) * (d * e)) by (nonlinear_arith);
}

proof fn lemma_regroup_sum(n1: int, s1: int, t1: int, d2: int, n2: int, d1: int)
    ensures
        (n1 * s1) * (t1 * d2) + (n2 * t1) * (s1 * d1) == (n1 * d2 + n2 * d1) * (s1 * t1),
{
    let g = s1 * t1;
    vstd::arithmetic::mul::lemma_mul_is_distributive_add_other_way(g, n1 * d2, n2 * d1);
    assert((n1 * s1) * (t1 * d2) == (n1 * d2) * (s1 * t1)) by (nonlinear_arith);
    assert((n2 * t1) * (s1 * d1) == (n2 * d1) * (s1 * t1)) by (nonlinear_arith);
}

proof fn lemma_sum_of_three(x0: int, x1: int, y0: int, y1: int, z0: int, z1: int)
    ensures
        (x0 * y1 + y0 * x1) * z1 + z0 * (x1 * y1) == x0 * (y1 * z1) + (y0 * z1 + z0 * y1) * x1,
{
    assert((x0 * y1 + y0 * x1) * z1 == x0 * y1 * z1 + y0 * x1 * z1) by (nonlinear_arith);
    assert((y0 * z1 + z0 * y1) * x1 == y0 * z1 * x1 + z0 * y1 * x1) by (nonlinear_arith);
    assert(z0 * (x1 * y1) == z0 * y1 * x1) by (nonlinear_arith);
    assert(x0 * (y1 * z1) == x0 * y1 * z1) by (nonlinear_arith);
    assert(y0 * x1 * z1 == y0 * z1 * x1) by (nonlinear_arith);
}

proof fn lemma_add_of_normalized(n1: int, d1: int, n2: int, d2: int)
    requires
        d1 > 0,
        d2 > 0,
    ensures
        add_spec(normalize(n1, d1), normalize(n2, d2)) == normalize(n1 * d2 + n2 * d1, d1 * d2),
{
    lemma_lowest_terms_exist(n1, d1);
    lemma_lowest_terms_exist(n2, d2);
    let s = normalize(n1, d1);
    let t = normalize(n2, d2);
    lemma_cross_sum(s.0, t.1, t.0, s.1, d1, d2);
    assert((s.0 * d1) * (t.1 * d2) == (n1 * s.1) * (t.1 * d2));
    assert((t.0 * d2) * (s.1 * d1) == (n2 * t.1) * (s.1 * d1));
    lemma_regroup_sum(n1, s.1, t.1, d2, n2, d1);
    assert(s.1 * t.1 > 0 && d1 * d2 > 0) by (nonlinear_arith)
        requires
            s.1 > 0,
            t.1 > 0,
            d1 > 0,
            d2 > 0,
    ;
    lemma_normalize_equal(s.0 * t.1 + t.0 * s.1, s.1 * t.1, n1 * d2 + n2 * d1, d1 * d2);
}

proof fn lemma_mul_of_normalized(n1: int, d1: int, n2: int, d2: int)
    requires
        d1 > 0,
        d2 > 0,
    ensures
        mul_spec(normalize(n1, d1), normalize(n2, d2)) == normalize(n1 * n2, d1 * d2),
{
    lemma_lowest_terms_exist(n1, d1);
    lemma_lowest_terms_exist(n2, d2);
    let s = normalize(n1, d1);
    let t = normalize(n2, d2);
    assert((s.0 * t.0) * (d1 * d2) == (n1 * n2) * (s.1 * t.1)) by (nonlinear_arith)
        requires
            s.0 * d1 == n1 * s.1,
            t.0 * d2 == n2 * t.1,
    ;
    assert(s.1 * t.1 > 0 && d1 * d2 > 0) by (nonlinear_arith)
        requires
            s.1 > 0,
            t.1 > 0,
            d1 > 0,
            d2 > 0,
    ;
    lemma_normalize_equal(s.0 * t.0, s.1 * t.1, n1 * n2, d1 * d2);
}

/// A value in lowest terms is its own lowest-terms form.
proof fn lemma_self_normalized(x: (int, int))
    requires
        canonical(x),
    ensures
        normalize(x.0, x.1) == x,
{
    assert(x.0 * x.1 == x.0 * x.1);
    lemma_normalize_is(x, x.0, x.1);
}

/// Addition is associative: `(a + b) + c == a + (b + c)`.
pub proof fn lemma_add_associative(a: Rational, b: Rational, c: Rational)
    requires
        a.wf(),
        b.wf(),
        c.wf(),
    ensures
        add_spec(add_spec(a@, b@), c@) == add_spec(a@, add_spec(b@, c@)),
{
    let (x, y, z) = (a@, b@, c@);
    lemma_self_normalized(x);
    lemma_self_normalized(y);
    lemma_self_normalized(z);
    let (n1, d1) = (x.0 * y.1 + y.0 * x.1, x.1 * y.1);
    let (n2, d2) = (y.0 * z.1 + z.0 * y.1, y.1 * z.1);
    assert(d1 > 0 && d2 > 0) by (nonlinear_arith)
        requires
            x.1 > 0,
            y.1 > 0,
            z.1 > 0,
            d1 == x.1 * y.1,
            d2 == y.1 * z.1,
    ;
    lemma_add_of_normalized(n1, d1, z.0, z.1);
    lemma_add_of_normalized(x.0, x.1, n2, d2);
    lemma_sum_of_three(x.0, x.1, y.0, y.1, z.0, z.1);
    assert(x.1 * d2 == d1 * z.1) by (nonlinear_arith)
        requires
            d1 == x.1 * y.1,
            d2 == y.1 * z.1,
    ;
    assert(d1 * z.1 > 0 && x.1 * d2 > 0) by (nonlinear_arith)
        requires
            x.1 > 0,
            z.1 > 0,
            d1 > 0,
            d2 > 0,
    ;
    lemma_normalize_equal(n1 * z.1 + z.0 * d1, d1 * z.1, x.0 * d2 + n2 * x.1, x.1 * d2);
}

/// Multiplication is associative: `(a * b) * c == a * (b * c)`.
pub proof fn lemma_mul_associative(a: Rational, b: Rational, c: Rational)
    requires
        a.wf(),
        b.wf(),
        c.wf(),
    ensures
        mul_spec(mul_spec(a@, b@), c@) == mul_spec(a@, mul_spec(b@, c@)),
{
    let (x, y, z) = (a@, b@, c@);
    lemma_self_normalized(x);
    lemma_self_normalized(z);
    let (n1, d1) = (x.0 * y.0, x.1 * y.1);
    let (n2, d2) = (y.0 * z.0, y.1 * z.1);
    assert(d1 > 0 && d2 > 0) by (nonlinear_arith)
        requires
            x.1 > 0,
            y.1 > 0,
            z.1 > 0,
            d1 == x.1 * y.1,
            d2 == y.1 * z.1,
    ;
    lemma_mul_of_normalized(n1, d1, z.0, z.1);
    lemma_mul_of_normalized(x.0, x.1, n2, d2);
    assert((n1 * z.0) * (x.1 * d2) == (x.0 * n2) * (d1 * z.1)) by (nonlinear_arith)
        requires
            n1 == x.0 * y.0,
            d1 == x.1 * y.1,
            n2 == y.0 * z.0,
            d2 == y.1 * z.1,
    ;
    assert(d1 * z.1 > 0 && x.1 * d2 > 0) by (nonlinear_arith)
        requires
            x.1 > 0,
            z.1 > 0,
            d1 > 0,
            d2 > 0,
    ;
    lemma_normalize_equal(n1 * z.0, d1 * z.1, x.0 * n2, x.1 * d2);
}

/// Multiplication distributes over addition: `a * (b + c) == a * b + a * c`.
pub proof fn lemma_mul_distributes(a: Rational, b: Rational, c: Rational)
    requires
        a.wf(),
        b.wf(),
        c.wf(),
    ensures
        mul_spec(a@, add_spec(b@, c@)) == add_spec(mul_spec(a@, b@), mul_spec(a@, c@)),
{
    let (x, y, z) = (a@, b@, c@);
    lemma_self_normalized(x);
    let (n2, d2) = (y.0 * z.1 + z.0 * y.1, y.1 * z.1);
    let (u1, e1) = (x.0 * y.0, x.1 * y.1);
    let (u2, e2) = (x.0 * z.0, x.1 * z.1);
    assert(d2 > 0 && e1 > 0 && e2 > 0) by (nonlinear_arith)
        requires
            x.1 > 0,
            y.1 > 0,
            z.1 > 0,
            d2 == y.1 * z.1,
            e1 == x.1 * y.1,
            e2 == x.1 * z.1,
    ;
    lemma_mul_of_normalized(x.0, x.1, n2, d2);
    lemma_add_of_normalized(u1, e1, u2, e2);
    let t = x.0 * y.0 * z.1 + x.0 * z.0 * y.1;
    assert(x.0 * n2 == t) by (nonlinear_arith)
        requires
            n2 == y.0 * z.1 + z.0 * y.1,
            t == x.0 * y.0 * z.1 + x.0 * z.0 * y.1,
    ;
    assert(u1 * e2 + u2 * e1 == x.1 * t) by (nonlinear_arith)
        requires
            u1 == x.0 * y.0,
            e1 == x.1 * y.1,
            u2 == x.0 * z.0,
            e2 == x.1 * z.1,
            t == x.0 * y.0 * z.1 + x.0 * z.0 * y.1,
    ;
    assert(e1 * e2 == x.1 * (x.1 * d2)) by (nonlinear_arith)
        requires
            d2 == y.1 * z.1,
            e1 == x.1 * y.1,
            e2 == x.1 * z.1,
    ;
    assert(t * (x.1 * (x.1 * d2)) == (x.1 * t) * (x.1 * d2)) by (nonlinear_arith);
    assert(x.1 * d2 > 0 && e1 * e2 > 0) by (nonlinear_arith)
        requires
            x.1 > 0,
            d2 > 0,
            e1 > 0,
            e2 > 0,
    ;
    lemma_normalize_equal(x.0 * n2, x.1 * d2, u1 * e2 + u2 * e1, e1 * e2);
}

/// Zero is neutral for addition: `a + 0 == a`.
pub proof fn lemma_add_zero(a: Rational)
    requires
        a.wf(),
    ensures
        add_spec(a@, (0int, 1int)) == a@,
{
    let x = a@;
    assert(x.0 * 1 + 0 * x.1 == x.0 && x.1 * 1 == x.1);
    lemma_self_normalized(x);
}

/// One is neutral for multiplication: `a * 1 == a`.
pub proof fn lemma_mul_one(a: Rational)
    requires
        a.wf(),
    ensures
        mul_spec(a@, (1int, 1int)) == a@,
{
    let x = a@;
    assert(x.0 * 1 == x.0 && x.1 * 1 == x.1);
    lemma_self_normalized(x);
}

/// Zero absorbs multiplication: `a * 0 == 0`.
pub proof fn lemma_mul_zero(a: Rational)
    requires
        a.wf(),
    ensures
        mul_spec(a@, (0int, 1int)) == (0int, 1int),
{
    let x = a@;
    assert(x.0 * 0 == 0 && x.1 * 1 == x.1);
    crate::fraction::lemma_integer_canonical(0);
    assert(0 * x.1 == 0 * 1);
    lemma_normalize_is((0int, 1int), 0, x.1);
}

/// The reciprocal of a non-zero value is non-zero, and taking it twice gives
/// the value back.
pub proof fn lemma_inverse_involutive(a: Rational)
    requires
        a.wf(),
        a@.0 != 0,
    ensures
        inv_spec(a@).0 != 0,
        inv_spec(inv_spec(a@)) == a@,
{
    let x = a@;
    let s = sign_of(x.0);
    let m = abs(x.0) as int;
    lemma_lowest_terms_exist(x.1 * s, m);
    let y = inv_spec(x);
    assert(y.0 * m == x.1 * s * y.1);
    assert(m == s * x.0 && s * s == 1);
    assert(y.0 * x.0 == x.1 * y.1) by (nonlinear_arith)
        requires
            y.0 * m == x.1 * s * y.1,
            m == s * x.0,
            s * s == 1,
    ;
    assert(y.0 * x.0 > 0) by (nonlinear_arith)
        requires
            y.0 * x.0 == x.1 * y.1,
            x.1 > 0,
            y.1 > 0,
    ;
    assert(sign_of(y.0) == s) by (nonlinear_arith)
        requires
            y.0 * x.0 > 0,
            s == (if x.0 < 0 { -1int } else { 1 }),
            sign_of(y.0) == (if y.0 < 0 { -1int } else { 1 }),
    ;
    let my = abs(y.0) as int;
    assert(y.0 != 0) by (nonlinear_arith)
        requires
            y.0 * x.0 > 0,
    ;
    assert(my > 0);
    assert(my == s * y.0);
    assert(x.0 * my == y.1 * s * x.1) by (nonlinear_arith)
        requires
            y.0 * x.0 == x.1 * y.1,
            my == s * y.0,
    ;
    lemma_normalize_is(x, y.1 * s, my);
}

/// Dividing by a non-zero value is multiplying by its reciprocal.
pub proof fn lemma_div_is_mul_inverse(a: Rational, b: Rational)
    requires
        a.wf(),
        b.wf(),
        b@.0 != 0,
    ensures
        div_spec(a@, b@) == mul_spec(a@, inv_spec(b@)),
{
    let (x, y) = (a@, b@);
    let s = sign_of(y.0);
    let m = abs(y.0) as int;
    lemma_lowest_terms_exist(y.1 * s, m);
    let i = inv_spec(y);
    assert(i.0 * m == y.1 * s * i.1);
    assert(x.1 * m > 0 && x.1 * i.1 > 0) by (nonlinear_arith)
        requires
            x.1 > 0,
            m > 0,
            i.1 > 0,
    ;
    let (p, q) = (x.0 * y.1 * s, x.0 * i.0);
    assert(p * (x.1 * i.1) == (x.0 * x.1) * (y.1 * s * i.1)) by (nonlinear_arith)
        requires
            p == x.0 * y.1 * s,
    ;
    assert(q * (x.1 * m) == (x.0 * x.1) * (i.0 * m)) by (nonlinear_arith)
        requires
            q == x.0 * i.0,
    ;
    lemma_normalize_equal(x.0 * y.1 * s, x.1 * m, x.0 * i.0, x.1 * i.1);
}

/// Every well-formed value has a positive denominator, and its numerator and
/// denominator share no factor greater than one.
pub proof fn lemma_canonical_form(a: Rational)
    requires
        a.wf(),
    ensures
        a@.1 > 0,
        forall|k: int| k > 1 ==> !(#[trigger] divides(k, a@.0) && divides(k, a@.1)),
{
    assert forall|k: int| k > 1 implies !(#[trigger] divides(k, a@.0) && divides(k, a@.1)) by {
        if divides(k, a@.0) && divides(k, a@.1) {
            lemma_coprime_common_divisor(a@.0, a@.1, k);
        }
    }
}

/// The classification says zero exactly for zero, and holds exactly one of
/// zero, positive and negative.
pub proof fn lemma_classify_consistent(a: Rational)
    ensures
        a.desc_spec().contains(Flag::Zero) == (a@.0 == 0),
        a.desc_spec().contains(Flag::Pos) == (a@.0 > 0),
        a.desc_spec().contains(Flag::Neg) == (a@.0 < 0),
        a.desc_spec().contains(Flag::Zero) as int + a.desc_spec().contains(Flag::Pos) as int
            + a.desc_spec().contains(Flag::Neg) as int == 1,
{
}

/// An integer built as the pair `n / 1` is the integer `n` again.
pub proof fn lemma_integer_round_trip(n: i64)
    ensures
        fraction_of(n as int, 1) == (n as int, 1int),
{
    crate::fraction::lemma_integer_canonical(n as int);
    assert(abs(1) == 1);
    assert(n as int * sign_of(1) == n as int);
    lemma_normalize_is((n as int, 1int), n as int, 1);
}

} // verus!
