//! Trusted bridge to `num`'s complex arithmetic.
//!
//! The transform's element type is `num::Complex<T>` for a caller-chosen
//! float `T`; its values are opaque here. Each function below wraps exactly
//! one `num` operation and is the only place that operation is relied on.

use vstd::prelude::*;

verus! {

use num::Complex;
use num::Float;
use num::traits::float::FloatConst;

#[verifier::external_type_specification]
#[verifier::external_body]
#[verifier::reject_recursive_types(T)]
pub struct ExComplex<T>(Complex<T>);

/// Relies on num's `Add for Complex`: componentwise complex addition.
#[verifier::external_body]
pub(crate) fn c_add<T: Float>(a: &Complex<T>, b: &Complex<T>) -> Complex<T> {
    *a + *b
}

/// Relies on num's `Sub for Complex`: componentwise complex subtraction.
#[verifier::external_body]
pub(crate) fn c_sub<T: Float>(a: &Complex<T>, b: &Complex<T>) -> Complex<T> {
    *a - *b
}

/// Relies on num's `Mul for Complex`: complex multiplication.
#[verifier::external_body]
pub(crate) fn c_mul<T: Float>(a: &Complex<T>, b: &Complex<T>) -> Complex<T> {
    *a * *b
}

/// Relies on num's `Complex::exp` and the `T::from` integer-to-float cast
/// (which always succeeds for the primitive float types): the twiddle factor
/// `exp(-2*pi*i*k/n)`, the rotation applied ahead of a butterfly.
#[verifier::external_body]
pub(crate) fn twiddle_factor<T: Float + FloatConst>(k: usize, n: usize) -> Complex<T>
    requires
        1 <= n,
        k < n,
{
    Complex::new(
        T::zero(),
        -T::from(2).unwrap() * T::PI() * T::from(k).unwrap() / T::from(n).unwrap(),
    ).exp()
}

} // verus!
