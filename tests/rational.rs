use calcu_rs::item::{CalcursType, Flag};
use calcu_rs::rational::{PowError, Rational};

fn q(n: i64, d: i64) -> Rational {
    Rational::from_signed_pair(n, d)
}

fn samples() -> Vec<Rational> {
    vec![q(0, 1), q(1, 1), q(-1, 1), q(2, 3), q(-5, 4), q(7, 1), q(-3, 8)]
}

#[test]
fn add_and_mul_commute() {
    for a in samples() {
        for b in samples() {
            assert_eq!(a.clone().add(b.clone()), b.clone().add(a.clone()));
            assert_eq!(a.clone().mul(b.clone()), b.clone().mul(a.clone()));
        }
    }
}

#[test]
fn add_and_mul_associate_and_distribute() {
    for a in samples() {
        for b in samples() {
            for c in samples() {
                assert_eq!(
                    a.clone().add(b.clone()).add(c.clone()),
                    a.clone().add(b.clone().add(c.clone()))
                );
                assert_eq!(
                    a.clone().mul(b.clone()).mul(c.clone()),
                    a.clone().mul(b.clone().mul(c.clone()))
                );
                assert_eq!(
                    a.clone().mul(b.clone().add(c.clone())),
                    a.clone().mul(b.clone()).add(a.clone().mul(c.clone()))
                );
            }
        }
    }
}

#[test]
fn exact_sums_and_products() {
    assert_eq!(q(1, 2).add(q(1, 3)), q(5, 6));
    assert_eq!(q(1, 2).sub(q(1, 3)), q(1, 6));
    assert_eq!(q(2, 3).mul(q(3, 4)), q(1, 2));
    assert_eq!(q(1, 2).add(q(-1, 2)), Rational::zero());
    let mut x = q(1, 4);
    x.add_assign(q(1, 4));
    assert_eq!(x, q(1, 2));
    x.sub_assign(q(1, 1));
    assert_eq!(x, q(-1, 2));
    x.mul_assign(q(-4, 1));
    assert_eq!(x, q(2, 1));
}

#[test]
fn identities() {
    for x in samples() {
        assert_eq!(x.clone().add(Rational::zero()), x);
        assert_eq!(x.clone().mul(Rational::one()), x);
        assert_eq!(x.clone().mul(Rational::zero()), Rational::zero());
    }
}

#[test]
fn inverse_twice_and_of_zero() {
    for x in samples() {
        if x.is_zero() {
            assert!(x.inverse().is_none());
        } else {
            assert_eq!(x.clone().inverse().unwrap().inverse().unwrap(), x);
        }
    }
    assert_eq!(q(-2, 3).inverse().unwrap(), q(-3, 2));
    assert_eq!(q(5, 1).inverse().unwrap(), q(1, 5));
}

#[test]
fn divide_is_multiply_by_inverse() {
    for a in samples() {
        for b in samples() {
            if b.is_zero() {
                assert!(a.clone().div(b).is_none());
            } else {
                let expected = a.clone().mul(b.clone().inverse().unwrap());
                assert_eq!(a.clone().div(b).unwrap(), expected);
            }
        }
    }
    assert_eq!(q(1, 2).div(q(-3, 4)).unwrap(), q(-2, 3));
}

#[test]
fn canonical_form() {
    let x = q(12, -18);
    assert_eq!(x.to_string(), "-2/3");
    assert_eq!(Rational::from_unsigned_pair(10, 4).to_string(), "5/2");
    assert_eq!(Rational::from_unsigned_pair(0, 7), Rational::zero());
    assert_eq!(Rational::from_unsigned_pair(0, 7).to_string(), "0");
    assert_eq!(q(0, -5).to_string(), "0");
    assert_eq!(q(-8, -4).to_string(), "2");
}

#[test]
fn classify_consistency() {
    for x in samples() {
        let d = x.desc();
        assert_eq!(x.is_zero(), d.has(Flag::Zero));
        assert_eq!(x.is_pos(), d.has(Flag::Pos));
        assert_eq!(x.is_neg(), d.has(Flag::Neg));
        let n = [Flag::Zero, Flag::Pos, Flag::Neg].iter().filter(|f| d.has(**f)).count();
        assert_eq!(n, 1);
        assert!(d.has(Flag::Rational));
        assert_eq!(x.is_int(), d.has(Flag::Integer));
    }
    let d = Rational::minus_one().desc();
    assert!(d.has(Flag::UOne) && d.has(Flag::Integer) && d.has(Flag::Neg));
    let d = q(1, 2).desc();
    assert!(!d.has(Flag::UOne) && !d.has(Flag::Integer) && d.has(Flag::Pos));
    let d = q(5, 1).desc();
    assert!(!d.has(Flag::UOne) && d.has(Flag::Integer));
    assert!(Rational::zero().desc().has(Flag::Zero));
}

#[test]
fn power_integer_exponent() {
    let (b, e) = Rational::from_i64(2).pow(Rational::from_i64(3)).unwrap();
    assert_eq!(b, Rational::from_i64(8));
    assert_eq!(e, Rational::one());
}

#[test]
fn power_negative_exponent() {
    let (b, e) = Rational::from_i64(2).pow(Rational::from_i64(-1)).unwrap();
    assert_eq!(b, q(1, 2));
    assert_eq!(e, Rational::one());
    let (b, e) = q(-2, 3).pow(Rational::from_i64(-3)).unwrap();
    assert_eq!(b, q(-27, 8));
    assert_eq!(e, Rational::one());
}

#[test]
fn power_zero_to_zero_is_undefined() {
    assert_eq!(Rational::zero().pow(Rational::zero()).unwrap_err(), PowError::UndefinedForm);
    assert_eq!(Rational::zero().pow(q(-1, 2)).unwrap_err(), PowError::ZeroInverse);
}

#[test]
fn power_zero_exponent() {
    for x in samples() {
        if !x.is_zero() {
            let (b, e) = x.pow(Rational::zero()).unwrap();
            assert_eq!(b, Rational::one());
            assert_eq!(e, Rational::one());
        }
    }
}

#[test]
fn power_splits_improper_fraction() {
    let (b, e) = Rational::from_i64(2).pow(q(5, 3)).unwrap();
    assert_eq!(b, Rational::from_i64(2));
    assert_eq!(e, q(2, 3));
    let (b, e) = Rational::from_i64(3).pow(q(7, 2)).unwrap();
    assert_eq!(b, Rational::from_i64(27));
    assert_eq!(e, q(1, 2));
    let (b, e) = Rational::from_i64(2).pow(q(-7, 3)).unwrap();
    assert_eq!(b, q(1, 4));
    assert_eq!(e, q(1, 3));
}

#[test]
fn power_proper_fraction_unchanged() {
    let (b, e) = Rational::from_i64(4).pow(q(1, 2)).unwrap();
    assert_eq!(b, Rational::from_i64(4));
    assert_eq!(e, q(1, 2));
}

#[test]
fn power_too_large_exponent_unchanged() {
    let big = Rational::from_i64(i64::MAX).mul(Rational::from_i64(4));
    let (b, e) = Rational::from_i64(1).pow(big.clone()).unwrap();
    assert_eq!(b, Rational::one());
    assert_eq!(e, big);
}

#[test]
fn signed_pair_constructor() {
    assert_eq!(q(-6, 4), q(6, -4));
    assert_eq!(q(-6, 4).to_string(), "-3/2");
    assert_eq!(q(6, -4).to_string(), "-3/2");
    assert_eq!(q(-6, -4).to_string(), "3/2");
    assert_eq!(q(i64::MIN, 1).to_string(), "-9223372036854775808");
}

#[test]
fn integer_round_trip() {
    for n in [0i64, 1, -1, 42, -42, i64::MAX, i64::MIN] {
        assert_eq!(q(n, 1).try_into_int(), Some(n));
    }
    assert_eq!(q(1, 2).try_into_int(), None);
    let big = Rational::from_i64(i64::MAX).add(Rational::one());
    assert_eq!(big.try_into_int(), None);
}

#[test]
fn predicates_and_constants() {
    assert!(Rational::zero().is_zero());
    assert!(Rational::one().is_one());
    assert!(!Rational::minus_one().is_one());
    assert!(Rational::minus_one().is_neg());
    assert!(q(3, 7).is_pos());
    assert!(!q(3, 7).is_int());
    assert_eq!(Rational::from_i32(-7), Rational::from_i64(-7));
    assert_eq!(q(-7, 2).abs(), q(7, 2));
    assert_eq!(Rational::minus_one().to_string(), "-1");
    assert_eq!(q(-3, 4).copy(), q(-3, 4));
}

#[test]
fn order_and_hashing_follow_value() {
    assert!(q(1, 3) < q(1, 2));
    assert!(q(-1, 2) < q(-1, 3));
    assert!(q(2, 4) <= q(1, 2) && q(2, 4) >= q(1, 2));
    assert_eq!(q(7, 3).partial_cmp(&q(5, 2)), Some(std::cmp::Ordering::Less));
    assert_eq!(q(3, 1).cmp(&q(-3, 1)), std::cmp::Ordering::Greater);
    let mut set = std::collections::HashSet::new();
    set.insert(q(2, 4));
    set.insert(q(-3, -6));
    set.insert(Rational::from_unsigned_pair(1, 2));
    assert_eq!(set.len(), 1);
    let tree: std::collections::BTreeSet<Rational> = samples().into_iter().collect();
    let sorted: Vec<String> = tree.iter().map(|r| r.to_string()).collect();
    assert_eq!(sorted, vec!["-5/4", "-1", "-3/8", "0", "2/3", "1", "7"]);
}

#[test]
fn power_beyond_computable_size_unchanged() {
    let e = Rational::from_unsigned_pair(u64::MAX, 1);
    let (b, r) = Rational::from_i64(3).pow(e.clone()).unwrap();
    assert_eq!(b, Rational::from_i64(3));
    assert_eq!(r, e);
    let (b, r) = Rational::minus_one().pow(e).unwrap();
    assert_eq!(b, Rational::minus_one());
    assert_eq!(r, Rational::one());
}
