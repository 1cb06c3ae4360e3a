use calcu_rs::base::Inherited;
use calcu_rs::rational::Rational;

struct Scaled {
    factor: i64,
    base: Rational,
}

impl Inherited<Rational> for Scaled {
    fn base(&self) -> &Rational {
        &self.base
    }
}

#[test]
fn node_exposes_its_embedded_base() {
    let node = Scaled { factor: 3, base: Rational::from_signed_pair(1, 2) };
    assert_eq!(node.factor, 3);
    assert_eq!(node.base().to_string(), "1/2");
}
