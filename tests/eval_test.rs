use bernstein::{Bernstein, Rational};

fn rat(n: i64, d: i64) -> Rational {
    Rational::new(n, d)
}

fn poly(c: &[(i64, i64)]) -> Bernstein<Rational> {
    Bernstein::new(c.iter().map(|&(n, d)| Rational::new(n, d)).collect())
}

#[test]
fn eval_zero_order_f64() {
    let c = poly(&[(3, 2)]);
    assert_eq!(c.eval(rat(0, 1)), Some(rat(3, 2)));
    assert_eq!(c.eval(rat(1, 1)), Some(rat(3, 2)));
    assert_eq!(c.eval(rat(1, 2)), Some(rat(3, 2)));
}

#[test]
fn eval_first_order_f64() {
    let c = poly(&[(1, 1), (2, 1)]);
    assert_eq!(c.eval(rat(0, 1)), Some(rat(1, 1)));
    assert_eq!(c.eval(rat(1, 1)), Some(rat(2, 1)));
    assert_eq!(c.eval(rat(1, 2)), Some(rat(3, 2)));
}

#[test]
fn eval_second_order_f64() {
    let c = poly(&[(1, 1), (2, 1), (-1, 1)]);
    assert_eq!(c.eval(rat(0, 1)), Some(rat(1, 1)));
    assert_eq!(c.eval(rat(1, 1)), Some(rat(-1, 1)));
    assert_eq!(c.eval(rat(1, 2)), Some(rat(1, 1)));
}

#[test]
fn eval_second_order_rational() {
    let c = poly(&[(1, 1), (2, 1), (-1, 1)]);
    assert_eq!(c.eval(Rational::zero()), Some(Rational::one()));
    assert_eq!(c.eval(Rational::one()), Some(rat(-1, 1)));
    assert_eq!(c.eval(rat(1, 2)), Some(Rational::one()));
    assert_eq!(c.eval(rat(1, 17)), Some(rat(319, 289)));
}

#[test]
fn eval_third_order_rational() {
    let p0 = rat(1, 5);
    let p1 = rat(-3, 7);
    let p2 = rat(4, 13);
    let p3 = rat(-11, 17);
    let c = Bernstein::new(vec![p0, p1, p2, p3]);
    assert_eq!(c.eval(rat(0, 1)), Some(p0));
    assert_eq!(c.eval(rat(1, 1)), Some(p3));
    assert_eq!(c.eval(rat(1, 2)), Some(rat(-6263, 61880)));
    assert_eq!(c.eval(rat(1, 17)), Some(rat(3899827, 38002055)));
}

#[test]
fn eval_extrapolates_outside_interval() {
    // 1 + u over (0, 1): at u = 2 the value is 3, at u = -1 it is 0.
    let c = poly(&[(1, 1), (2, 1)]);
    assert_eq!(c.eval(rat(2, 1)), Some(rat(3, 1)));
    assert_eq!(c.eval(rat(-1, 1)), Some(rat(0, 1)));
}

#[test]
fn eval_on_other_interval() {
    // Over (2, 4) the value at u0 is the first coefficient, at u1 the last,
    // and at the midpoint the average for a line.
    let c = Bernstein { coef: vec![rat(1, 1), rat(5, 1)], segm: (rat(2, 1), rat(4, 1)) };
    assert_eq!(c.eval(rat(2, 1)), Some(rat(1, 1)));
    assert_eq!(c.eval(rat(4, 1)), Some(rat(5, 1)));
    assert_eq!(c.eval(rat(3, 1)), Some(rat(3, 1)));
}

#[test]
fn eval_endpoints_interpolate() {
    let c = poly(&[(7, 3), (-2, 5), (11, 4), (1, 9), (-5, 2)]);
    assert_eq!(c.eval(rat(0, 1)), Some(rat(7, 3)));
    assert_eq!(c.eval(rat(1, 1)), Some(rat(-5, 2)));
}

#[test]
fn eval_reports_overflow() {
    let c = Bernstein::new(vec![Rational::from_integer(i64::MAX), Rational::from_integer(i64::MAX)]);
    assert_eq!(c.eval(rat(1, 2)), None);
}
