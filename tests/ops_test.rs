use bernstein::{binom, low_bound};

#[test]
fn binom_n_zero() {
    assert_eq!(binom(0, 0), Some(1));
    assert_eq!(binom(0, 1), Some(0));
}

#[test]
fn binom_n_k() {
    assert_eq!(binom(7, 0), Some(1));
    assert_eq!(binom(7, 1), Some(7));
    assert_eq!(binom(7, 2), Some(21));
    assert_eq!(binom(7, 3), Some(35));
    assert_eq!(binom(7, 4), Some(35));
    assert_eq!(binom(7, 5), Some(21));
    assert_eq!(binom(7, 6), Some(7));
    assert_eq!(binom(7, 7), Some(1));
    assert_eq!(binom(7, 8), Some(0));

    assert_eq!(binom(6, 0), Some(1));
    assert_eq!(binom(6, 1), Some(6));
    assert_eq!(binom(6, 2), Some(15));
    assert_eq!(binom(6, 3), Some(20));
    assert_eq!(binom(6, 4), Some(15));
    assert_eq!(binom(6, 5), Some(6));
    assert_eq!(binom(6, 6), Some(1));
    assert_eq!(binom(6, 7), Some(0));
}

#[test]
fn low_bound_usize() {
    let u: usize = 3;
    let v: usize = 7;
    assert_eq!(low_bound(u, v), 0);
    assert_eq!(low_bound(v, u), 4);
}

#[test]
fn binom_edges() {
    assert_eq!(binom(100, 0), Some(1));
    assert_eq!(binom(3, 100), Some(0));
    assert_eq!(binom(usize::MAX, 1), Some(usize::MAX));
    assert_eq!(binom(20, 10), Some(184756));
}

#[test]
fn binom_large_fits_or_overflows() {
    // C(62, 31) * 31 fits in 64 bits; C(68, 34) * 34 does not.
    assert_eq!(binom(62, 31), Some(465428353255261088));
    assert_eq!(binom(68, 34), None);
}
