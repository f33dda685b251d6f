//! Polynomials in the Bernstein basis, generic over exact coefficients
//! (rationals, complex numbers with rational parts): evaluation by De
//! Casteljau's algorithm, differentiation, integration and products, each
//! stated against a model over the reals.
pub mod coefficient;
pub mod laws;
pub mod ops;
pub mod poly;
pub mod rational;

pub use coefficient::{Coefficient, Complex};
pub use ops::{binom, low_bound};
pub use poly::Bernstein;
pub use rational::Rational;
