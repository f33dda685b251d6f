use bernstein::{Bernstein, Complex, Rational};

fn rat(n: i64, d: i64) -> Rational {
    Rational::new(n, d)
}

#[test]
fn integ_second_order_rational() {
    let p0 = rat(1, 13);
    let p1 = rat(-3, 11);
    let p2 = rat(1, 7);
    let coef = vec![p0, p1, p2];

    let c = Bernstein::new(coef.clone());

    assert_eq!(c.integ(Rational::zero()).unwrap().diff().unwrap().coef().clone(), coef);
    assert_eq!(c.diff().unwrap().integ(rat(1, 13)).unwrap().coef().clone(), coef);
}

#[test]
fn integ_known_values() {
    // [1, 2] over (0, 1): factor 1/2, so [c, c + 1/2, c + 3/2].
    let c = Bernstein::new(vec![rat(1, 1), rat(2, 1)]);
    let h = c.integ(rat(3, 1)).unwrap();
    assert_eq!(h.coef().clone(), vec![rat(3, 1), rat(7, 2), rat(9, 2)]);
}

#[test]
fn integ_then_diff_round_trip() {
    let c = Bernstein {
        coef: vec![rat(2, 3), rat(-1, 4), rat(5, 1), rat(0, 1)],
        segm: (rat(-1, 2), rat(3, 2)),
    };
    let back = c.integ(rat(7, 5)).unwrap().diff().unwrap();
    assert_eq!(back.coef().clone(), c.coef().clone());
    assert_eq!(back.segm, c.segm);
}

#[test]
fn diff_then_integ_round_trip() {
    let c = Bernstein {
        coef: vec![rat(2, 3), rat(-1, 4), rat(5, 1), rat(0, 1)],
        segm: (rat(1, 1), rat(3, 1)),
    };
    let back = c.diff().unwrap().integ(c.coef()[0]).unwrap();
    assert_eq!(back.coef().clone(), c.coef().clone());
}

#[test]
fn integ_of_constant_starts_at_constant() {
    let c = Bernstein::new(vec![rat(5, 1)]);
    let h = c.integ(rat(1, 2)).unwrap();
    assert_eq!(h.coef().clone(), vec![rat(1, 2), rat(11, 2)]);
}

#[test]
fn integ_first_order_complex() {
    let zero = Rational::zero();
    let one = Rational::one();
    let half = rat(1, 2);
    let c = Bernstein::new(vec![Complex::new(zero, one), Complex::new(one, zero)]);
    let h = c.integ(Complex::new(zero, zero)).unwrap();
    let coef = h.coef().clone();

    assert_eq!(coef[0].re, zero);
    assert_eq!(coef[1].re, zero);
    assert_eq!(coef[2].re, half);

    assert_eq!(coef[0].im, zero);
    assert_eq!(coef[1].im, half);
    assert_eq!(coef[2].im, half);
}

#[test]
fn squared_hodograph_integrates() {
    // w = [1, i] over (0, 1); w * w = [1, i, -1]; integrating from 0 gives
    // [0, 1/3, 1/3 + i/3, i/3].
    let zero = Rational::zero();
    let one = Rational::one();
    let w = Bernstein::new(vec![Complex::new(one, zero), Complex::new(zero, one)]);
    let sq = w.mul(&w).unwrap();
    assert_eq!(
        sq.coef().clone(),
        vec![Complex::new(one, zero), Complex::new(zero, one), Complex::new(rat(-1, 1), zero)]
    );
    let p = sq.integ(Complex::new(zero, zero)).unwrap();
    let third = rat(1, 3);
    assert_eq!(
        p.coef().clone(),
        vec![
            Complex::new(zero, zero),
            Complex::new(third, zero),
            Complex::new(third, third),
            Complex::new(zero, third),
        ]
    );
}
