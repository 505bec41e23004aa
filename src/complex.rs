//! Complex numbers from `num`, and the Gaussian-integer arithmetic that the
//! root formulas need on them.
use vstd::prelude::*;



verus! {

#[verifier::external_type_specification]
#[verifier::reject_recursive_types(T)]
pub struct ExComplex<T>(num::Complex<T>);

/// Relies on `num::Complex::new`: it stores `re` and `im` as given.
pub assume_specification<T>[ num::Complex::<T>::new ](re: T, im: T) -> (r: num::Complex<T>)
    ensures
        r.re == re,
        r.im == im,
;

/// Relies on `From<T> for num::Complex<T>`: the value becomes the real part,
/// with a zero imaginary part.
#[verifier::external_body]
pub(crate) fn complex_from_real(x: i32) -> (r: num::Complex<i32>)
    ensures
        r.re == x,
        r.im == 0,
{
    num::Complex::from(x)
}

/// Real part of the product of two complex integers.
pub open spec fn mul_re(xr: int, xi: int, yr: int, yi: int) -> int {
    xr * yr - xi * yi
}

/// Imaginary part of the product of two complex integers.
pub open spec fn mul_im(xr: int, xi: int, yr: int, yi: int) -> int {
    xr * yi + xi * yr
}

} // verus!
