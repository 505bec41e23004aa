//! The integer value of a root in radical form, where it has one.
use vstd::prelude::*;

use vstd::arithmetic::div_mod::lemma_mod_multiples_basic;

use num::Complex;

use crate::expression::{RadicalRoot, SolvingVariant};

verus! {

/// `v` is the value of `(p + s·√d) / q`, with an integer square root of `d`.
pub open spec fn is_value(p: int, s: int, d: int, q: int, v: int) -> bool {
    exists|t: int| #![trigger t * t] t >= 0 && t * t == d && q != 0 && v * q == p + s * t
}

/// `v` is the value of `(offset ± √radicand) / divisor`, with an integer
/// square root.
pub open spec fn is_value_of(r: RadicalRoot<i64, i128>, v: int) -> bool {
    is_value(r.offset as int, r.branch.sign(), r.radicand as int, r.divisor as int, v)
}

/// `re + im·i` is the value of the complex root `z`, whose offset, divisor and
/// radicand are real: a negative radicand `d` has the square root `i·√(−d)`.
pub open spec fn is_complex_value_of(
    z: RadicalRoot<Complex<i64>, Complex<i128>>,
    re: int,
    im: int,
) -> bool {
    &&& z.offset.im == 0 && z.divisor.im == 0 && z.radicand.im == 0
    &&& if z.radicand.re >= 0 {
        is_value(z.offset.re as int, z.branch.sign(), z.radicand.re as int, z.divisor.re as int, re)
            && im == 0
    } else {
        is_value(z.offset.re as int, 1, 0, z.divisor.re as int, re) && is_value(
            0,
            z.branch.sign(),
            -z.radicand.re,
            z.divisor.re as int,
            im,
        )
    }
}

/// The integer square root: the largest `s` with `s² ≤ n`.
pub fn isqrt(n: u128) -> (s: u128)
    ensures
        s * s <= n < (s + 1) * (s + 1),
{
    let mut lo: u128 = 0;
    let mut hi: u128 = 0x1_0000_0000_0000_0000;
    while lo + 1 < hi
        invariant
            lo < hi <= 0x1_0000_0000_0000_0000,
            lo * lo <= n < hi * hi,
        decreases hi - lo,
    {
        let mid: u128 = lo + (hi - lo) / 2;
        assert(mid * mid < 0x1_0000_0000_0000_0000_0000_0000_0000_0000) by (nonlinear_arith)
            requires mid < 0x1_0000_0000_0000_0000;
        if mid * mid <= n {
            lo = mid;
        } else {
            hi = mid;
        }
    }
    lo
}

/// No integer other than `s` has a square between `s²` and `(s + 1)²`.
proof fn lemma_square_unique(s: int, t: int, n: int)
    requires
        s >= 0,
        t >= 0,
        s * s <= n < (s + 1) * (s + 1),
        t * t == n,
    ensures
        t == s,
{
    if t < s {
        assert(t * t < s * s) by (nonlinear_arith)
            requires 0 <= t < s;
    } else if t > s {
        assert((s + 1) * (s + 1) <= t * t) by (nonlinear_arith)
            requires 0 <= s, s + 1 <= t;
    }
}

/// The integer value of `(offset ± √radicand) / divisor`, if the radicand is
/// a perfect square and the divisor divides the numerator.
fn exact_quotient(offset: i64, branch: SolvingVariant, radicand: u128, divisor: i64) -> (r: Option<
    i128,
>)
    ensures
        r matches Some(v) ==> is_value(offset as int, branch.sign(), radicand as int, divisor as int, v as int),
        r is None ==> forall|v: int| !is_value(offset as int, branch.sign(), radicand as int, divisor as int, v),
{
    if divisor == 0 {
        return None;
    }
    let s = isqrt(radicand);
    if s * s != radicand {
        proof {
            assert forall|v: int| !is_value(offset as int, branch.sign(), radicand as int, divisor as int, v) by {
                if is_value(offset as int, branch.sign(), radicand as int, divisor as int, v) {
                    let t = choose|t: int|
                        #![trigger t * t]
                        t >= 0 && t * t == radicand && divisor != 0 && v
                            * divisor == offset + branch.sign() * t;
                    lemma_square_unique(s as int, t, radicand as int);
                }
            }
        }
        return None;
    }
    assert(s < 0x1_0000_0000_0000_0000) by (nonlinear_arith)
        requires s * s <= 0xffff_ffff_ffff_ffff_ffff_ffff_ffff_ffff;
    let si = s as i128;
    let num: i128 = branch.apply(offset as i128, si);
    let num_abs: u128 = if num >= 0 { num as u128 } else { (-num) as u128 };
    let div_abs: u128 = if divisor >= 0 {
        divisor as u128
    } else {
        (-(divisor as i128)) as u128
    };
    if num_abs % div_abs != 0 {
        proof {
            assert forall|v: int| !is_value(offset as int, branch.sign(), radicand as int, divisor as int, v) by {
                if is_value(offset as int, branch.sign(), radicand as int, divisor as int, v) {
                    let t = choose|t: int|
                        #![trigger t * t]
                        t >= 0 && t * t == radicand && divisor != 0 && v
                            * divisor == offset + branch.sign() * t;
                    lemma_square_unique(s as int, t, radicand as int);
                    let va: int = if v >= 0 { v } else { -v };
                    assert(va * div_abs == num_abs) by (nonlinear_arith)
                        requires
                            v * divisor == num,
                            va == if v >= 0 { v } else { -v },
                            div_abs == if divisor >= 0 { divisor as int } else { -divisor },
                            num_abs == if num >= 0 { num as int } else { -num },
                    ;
                    lemma_mod_multiples_basic(va, div_abs as int);
                }
            }
        }
        return None;
    }
    let q: u128 = num_abs / div_abs;
    assert(q * div_abs == num_abs) by (nonlinear_arith)
        requires
            num_abs % div_abs == 0,
            div_abs > 0,
            q == num_abs / div_abs,
    ;
    assert(q <= num_abs) by (nonlinear_arith)
        requires q * div_abs == num_abs, div_abs > 0;
    let v: i128 = if (num >= 0) == (divisor > 0) { q as i128 } else { -(q as i128) };
    assert(v * divisor == num) by (nonlinear_arith)
        requires
            q * div_abs == num_abs,
            div_abs == if divisor >= 0 { divisor as int } else { -divisor },
            num_abs == if num >= 0 { num as int } else { -num },
            v == if (num >= 0) == (divisor > 0) { q as int } else { -q },
            divisor != 0,
    ;
    assert(s * s == radicand);
    Some(v)
}

impl RadicalRoot<i64, i128> {
    /// The integer value of this root, if the radicand is a perfect square
    /// and the divisor divides the numerator.
    pub fn exact_value(&self) -> (r: Option<i128>)
        ensures
            r matches Some(v) ==> is_value_of(*self, v as int),
            r is None ==> forall|v: int| !is_value_of(*self, v),
    {
        if self.radicand < 0 {
            return None;
        }
        exact_quotient(self.offset, self.branch, self.radicand as u128, self.divisor)
    }
}

impl RadicalRoot<Complex<i64>, Complex<i128>> {
    /// The value of this root as a complex integer, if its offset, divisor and
    /// radicand are real and both parts of the value are integers.
    pub fn exact_value(&self) -> (r: Option<Complex<i128>>)
        ensures
            r matches Some(w) ==> is_complex_value_of(*self, w.re as int, w.im as int),
            r is None ==> forall|re: int, im: int| !is_complex_value_of(*self, re, im),
    {
        if self.offset.im != 0 || self.divisor.im != 0 || self.radicand.im != 0 {
            return None;
        }
        let d = self.radicand.re;
        if d >= 0 {
            match exact_quotient(self.offset.re, self.branch, d as u128, self.divisor.re) {
                Some(re) => Some(Complex::new(re, 0)),
                None => None,
            }
        } else {
            let d_abs: u128 = (-(d + 1)) as u128 + 1;
            let re = exact_quotient(self.offset.re, SolvingVariant::PositivePart, 0, self.divisor.re);
            let im = exact_quotient(0, self.branch, d_abs, self.divisor.re);
            match (re, im) {
                (Some(re), Some(im)) => Some(Complex::new(re, im)),
                _ => None,
            }
        }
    }
}

} // verus!
