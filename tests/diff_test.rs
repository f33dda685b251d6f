use bernstein::{Bernstein, Complex, Rational};

fn poly(c: &[i64]) -> Bernstein<Rational> {
    Bernstein::new(c.iter().map(|&n| Rational::from_integer(n)).collect())
}

fn ints(c: &[i64]) -> Vec<Rational> {
    c.iter().map(|&n| Rational::from_integer(n)).collect()
}

#[test]
fn diff_zero_order() {
    let c = poly(&[1]);
    let d = c.diff().unwrap();
    assert_eq!(d.coef().clone(), Vec::<Rational>::new());
}

#[test]
fn diff_second_order_f64() {
    let c = poly(&[1, -1, 2]);
    let d = c.diff().unwrap();
    assert_eq!(d.coef().clone(), ints(&[-4, 6]));
}

#[test]
fn diff_third_order_f64() {
    let c = poly(&[1, 0, 1, -1]);
    let d = c.diff().unwrap();
    assert_eq!(d.coef().clone(), ints(&[-3, 3, -6]));
}

#[test]
fn diff_scales_by_interval_length() {
    let c = Bernstein {
        coef: ints(&[1, 3, 7]),
        segm: (Rational::from_integer(0), Rational::from_integer(4)),
    };
    let d = c.diff().unwrap();
    assert_eq!(d.coef().clone(), ints(&[1, 2]));
    assert_eq!(d.segm, c.segm);
}

#[test]
fn diff_first_order_complex() {
    let p0 = Complex::new(Rational::from_integer(0), Rational::from_integer(0));
    let p1 = Complex::new(Rational::from_integer(2), Rational::from_integer(1));
    let c = Bernstein::new(vec![p0, p1]);
    let d = c.diff().unwrap().coef().clone();
    assert_eq!(d[0].re, Rational::from_integer(2));
    assert_eq!(d[0].im, Rational::from_integer(1));
}
