use bernstein::{Bernstein, Complex, Rational};

fn rat(n: i64, d: i64) -> Rational {
    Rational::new(n, d)
}

fn poly(c: &[i64]) -> Bernstein<Rational> {
    Bernstein::new(c.iter().map(|&n| Rational::from_integer(n)).collect())
}

#[test]
fn product_fist_order() {
    let p = poly(&[0, 1]);
    let q = poly(&[2, 0]);
    let c = p.mul(&q).unwrap();
    assert_eq!(c.coef().clone(), vec![rat(0, 1), rat(1, 1), rat(0, 1)]);

    let c = q.mul(&p).unwrap();
    assert_eq!(c.coef().clone(), vec![rat(0, 1), rat(1, 1), rat(0, 1)]);
}

#[test]
fn product_first_order_by_second_order() {
    let p = poly(&[5, 3]);
    let q = poly(&[1, 2, 5]);
    let expected = vec![rat(5, 1), rat(23, 3), rat(37, 3), rat(15, 1)];

    let c = p.mul(&q).unwrap();
    assert_eq!(c.coef().clone(), expected);

    let c = q.mul(&p).unwrap();
    assert_eq!(c.coef().clone(), expected);
}

#[test]
fn product_second_order_by_third_order() {
    let p = poly(&[0, 2, 1]);
    let q = poly(&[1, 2, 0, 0]);
    let expected = vec![rat(0, 1), rat(4, 5), rat(5, 2), rat(3, 5), rat(0, 1), rat(0, 1)];

    let c = p.mul(&q).unwrap();
    assert_eq!(c.coef().clone(), expected);

    let c = q.mul(&p).unwrap();
    assert_eq!(c.coef().clone(), expected);
}

#[test]
fn mul_right_by_scalar() {
    let c = poly(&[1, 2, 3]);
    let p = c.scale(rat(3, 1)).unwrap();
    assert_eq!(p.coef().clone(), vec![rat(3, 1), rat(6, 1), rat(9, 1)]);

    let p0 = Complex::new(rat(1, 1), rat(2, 1));
    let p1 = Complex::new(rat(3, 1), rat(4, 1));
    let c = Bernstein::new(vec![p0, p1]);
    let p = c.scale(rat(2, 1)).unwrap();
    let coef = p.coef().clone();
    assert_eq!(coef[0].re, rat(2, 1));
    assert_eq!(coef[0].im, rat(4, 1));
    assert_eq!(coef[1].re, rat(6, 1));
    assert_eq!(coef[1].im, rat(8, 1));

    let c = Bernstein::new(vec![rat(1, 2), rat(3, 4)]);
    let p = c.scale(rat(2, 1)).unwrap();
    assert_eq!(p.coef().clone(), vec![rat(1, 1), rat(3, 2)]);
}

#[test]
fn complex_product_commutes() {
    let p = Bernstein::new(vec![Complex::new(rat(1, 2), rat(-1, 1)), Complex::new(rat(0, 1), rat(3, 1))]);
    let q = Bernstein::new(vec![
        Complex::new(rat(2, 1), rat(1, 3)),
        Complex::new(rat(-1, 1), rat(0, 1)),
        Complex::new(rat(1, 1), rat(1, 1)),
    ]);
    let pq = p.mul(&q).unwrap();
    let qp = q.mul(&p).unwrap();
    assert_eq!(pq.coef().clone(), qp.coef().clone());
    assert_eq!(pq.coef()[0], Complex::new(rat(4, 3), rat(-11, 6)));
}

#[test]
fn product_keeps_left_interval() {
    let p = Bernstein { coef: vec![rat(1, 1), rat(2, 1)], segm: (rat(0, 1), rat(2, 1)) };
    let q = poly(&[3, 4]);
    let c = p.mul(&q).unwrap();
    assert_eq!(c.segm, p.segm);
    let d = q.mul(&p).unwrap();
    assert_eq!(d.segm, q.segm);
    assert_eq!(c.coef().clone(), d.coef().clone());
}

#[test]
fn product_evaluates_to_product_of_values() {
    let p = Bernstein::new(vec![rat(1, 2), rat(-3, 1), rat(2, 7)]);
    let q = Bernstein::new(vec![rat(4, 1), rat(1, 3)]);
    let c = p.mul(&q).unwrap();
    for u in [rat(0, 1), rat(1, 3), rat(1, 2), rat(1, 1), rat(5, 4)] {
        let pu = p.eval(u).unwrap();
        let qu = q.eval(u).unwrap();
        let prod = Rational::new(pu.numer * qu.numer, pu.denom * qu.denom);
        assert_eq!(c.eval(u).unwrap(), prod);
    }
}

#[test]
fn product_with_constant_is_scaling() {
    let p = poly(&[1, -2, 5]);
    let q = poly(&[3]);
    assert_eq!(p.mul(&q).unwrap().coef().clone(), p.scale(rat(3, 1)).unwrap().coef().clone());
}

#[test]
fn scale_reports_overflow() {
    let c = Bernstein::new(vec![Rational::from_integer(i64::MAX)]);
    assert!(c.scale(rat(2, 1)).is_none());
}
