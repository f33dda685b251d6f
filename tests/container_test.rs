use bernstein::{Bernstein, Rational};

fn whole(n: i64) -> Rational {
    Rational::from_integer(n)
}

#[test]
fn bernstein_private_container_basic() {
    let c = Bernstein { coef: vec![whole(0), whole(1), whole(2)], segm: (whole(0), whole(1)) };
    assert_eq!(c.coef, [whole(0), whole(1), whole(2)]);
    assert_eq!(c.segm, (whole(0), whole(1)));
}

#[test]
fn bernstein_public_getset_api() {
    let coef_in = vec![whole(1), whole(2), whole(3)];
    let c = Bernstein::new(coef_in.clone());
    let coef_out = c.coef().clone();
    assert_eq!(coef_in, coef_out);
}

#[test]
fn new_uses_unit_interval() {
    let c = Bernstein::new(vec![whole(4)]);
    assert_eq!(c.segm, (Rational::zero(), Rational::one()));
    assert_eq!(c.segm, (whole(0), whole(1)));
}

#[test]
fn rational_new_reduces_and_normalises_sign() {
    assert_eq!(Rational::new(2, 4), Rational::new(1, 2));
    assert_eq!(Rational::new(1, -2), Rational { numer: -1, denom: 2 });
    assert_eq!(Rational::new(0, 5), Rational::zero());
    assert_eq!(Rational::new(6, 3), whole(2));
}

#[test]
fn rational_quotient() {
    assert_eq!(Rational::new(3, 4).checked_quot(&Rational::new(-1, 2)), Some(Rational::new(-3, 2)));
    assert_eq!(Rational::zero().checked_quot(&Rational::new(i64::MIN, 3)), Some(Rational::zero()));
    assert_eq!(Rational::one().checked_quot(&Rational::zero()), None);
}
