//! What holds of the roots that the formulas give.
//!
//! A root `x = (p + s·t) / q` with `s = ±1` and `t² = d` is checked exactly:
//! `q²·(a·x² + b·x + c)` is written as `A + B·t` with integer `A` and `B`, and
//! `x` is a root when `q ≠ 0` and both `A` and `B` are zero. This holds for
//! every square root `t` of `d`, real or imaginary.
use vstd::prelude::*;

use crate::complex::mul_re;
use crate::expression::{
    discriminant, QuadraticExpr, QuadraticExpression, QuadraticRoots, RadicalRoot,
    RealQuadraticRootResult, SolvingVariant,
};

verus! {

/// The part of `q²·(a·x² + b·x + c)` free of `t`, at `x = (p + s·t) / q`.
pub open spec fn scaled_value_plain(a: int, b: int, c: int, p: int, s: int, d: int, q: int) -> int {
    a * (p * p + s * s * d) + b * q * p + c * q * q
}

/// The coefficient of `t` in `q²·(a·x² + b·x + c)`, at `x = (p + s·t) / q`.
pub open spec fn scaled_value_radical(a: int, b: int, c: int, p: int, s: int, q: int) -> int {
    2 * a * p * s + b * q * s
}

/// `(p + s·√d) / q` is a root of `a·x² + b·x + c`.
pub open spec fn is_exact_root(a: int, b: int, c: int, p: int, s: int, d: int, q: int) -> bool {
    q != 0 && scaled_value_plain(a, b, c, p, s, d, q) == 0 && scaled_value_radical(a, b, c, p, s, q)
        == 0
}

/// A real root in radical form is a root of the expression.
pub open spec fn is_real_root(e: QuadraticExpression<i32>, r: RadicalRoot<i64, i128>) -> bool {
    is_exact_root(
        e.a as int,
        e.b as int,
        e.c as int,
        r.offset as int,
        r.branch.sign(),
        r.radicand as int,
        r.divisor as int,
    )
}

/// A complex root in radical form with real offset, divisor and radicand is a
/// root of the expression with real coefficients `e`.
pub open spec fn is_complex_root_of_real(
    e: QuadraticExpression<i32>,
    z: RadicalRoot<num::Complex<i64>, num::Complex<i128>>,
) -> bool {
    z.offset.im == 0 && z.divisor.im == 0 && z.radicand.im == 0 && is_exact_root(
        e.a as int,
        e.b as int,
        e.c as int,
        z.offset.re as int,
        z.branch.sign(),
        z.radicand.re as int,
        z.divisor.re as int,
    )
}

/// `z1` and `z2` are `(p + t) / q` and `(p − t) / q` with real `p` and `q` and
/// `t` the square root of a negative real: `t` is purely imaginary, so the two
/// are complex conjugates.
pub open spec fn is_conjugate_pair(
    z1: RadicalRoot<num::Complex<i64>, num::Complex<i128>>,
    z2: RadicalRoot<num::Complex<i64>, num::Complex<i128>>,
) -> bool {
    &&& z1.offset == z2.offset && z1.offset.im == 0
    &&& z1.divisor == z2.divisor && z1.divisor.im == 0
    &&& z1.radicand == z2.radicand && z1.radicand.im == 0 && z1.radicand.re < 0
    &&& z1.branch.sign() == -z2.branch.sign()
}

/// The discriminant of an expression over `i32` coefficients fits in `i128`.
proof fn lemma_delta_fits(e: QuadraticExpression<i32>)
    ensures
        -0x1_0000_0000_0000_0000 <= e.delta_spec() <= 0x2_0000_0000_0000_0000,
{
    let (a, b, c) = (e.a as int, e.b as int, e.c as int);
    assert(0 <= b * b <= 0x4000_0000_0000_0000) by (nonlinear_arith)
        requires -0x8000_0000 <= b <= 0x7fff_ffff;
    assert(-0x1_0000_0000_0000_0000 <= 4 * a * c <= 0x1_0000_0000_0000_0000) by (nonlinear_arith)
        requires -0x8000_0000 <= a <= 0x7fff_ffff, -0x8000_0000 <= c <= 0x7fff_ffff;
}

/// The formula `(−b ± √Δ) / 2a` gives a root of `a·x² + b·x + c` on either
/// branch, whenever `a ≠ 0`.
pub proof fn lemma_formula_is_root(a: int, b: int, c: int, s: int)
    requires
        a != 0,
        s == 1 || s == -1,
    ensures
        is_exact_root(a, b, c, -b, s, discriminant(a, b, c), 2 * a),
{
    let d = discriminant(a, b, c);
    assert(s * s == 1) by (nonlinear_arith)
        requires s == 1 || s == -1;
    assert(a * ((-b) * (-b) + s * s * d) + b * (2 * a) * (-b) + c * (2 * a) * (2 * a) == 0)
        by (nonlinear_arith)
        requires s * s == 1, d == b * b - 4 * a * c;
    assert(2 * a * (-b) * s + b * (2 * a) * s == 0) by (nonlinear_arith);
    assert(scaled_value_plain(a, b, c, -b, s, d, 2 * a) == 0);
    assert(scaled_value_radical(a, b, c, -b, s, 2 * a) == 0);
}

/// With a positive discriminant the expression has two real roots: the first
/// from `+√Δ`, the second from `−√Δ`.
pub proof fn lemma_positive_delta_two_roots(e: QuadraticExpression<i32>, r: RealQuadraticRootResult)
    requires
        e.a != 0,
        e.delta_spec() > 0,
        e.solved_by(r),
    ensures
        r matches RealQuadraticRootResult::RealRoots(q) && q.0.branch
            == SolvingVariant::PositivePart && q.1.branch == SolvingVariant::NegativePart
            && is_real_root(e, q.0) && is_real_root(e, q.1),
{
    lemma_delta_fits(e);
    lemma_formula_is_root(e.a as int, e.b as int, e.c as int, 1);
    lemma_formula_is_root(e.a as int, e.b as int, e.c as int, -1);
}

/// With a zero discriminant the expression has the single root `−b / 2a`.
pub proof fn lemma_zero_delta_single_root(e: QuadraticExpression<i32>, r: RealQuadraticRootResult)
    requires
        e.a != 0,
        e.delta_spec() == 0,
        e.solved_by(r),
    ensures
        r matches RealQuadraticRootResult::SingleRoot(s) && s.0.offset == -e.b && s.0.divisor == 2
            * e.a && s.0.radicand == 0 && is_real_root(e, s.0),
{
    lemma_delta_fits(e);
    lemma_formula_is_root(e.a as int, e.b as int, e.c as int, 1);
}

/// With a negative discriminant the expression comes back over complex
/// coefficients, and solving that gives two complex conjugate roots of the
/// original expression.
pub proof fn lemma_negative_delta_conjugate_roots(
    e: QuadraticExpression<i32>,
    r: RealQuadraticRootResult,
    z: QuadraticRoots<RadicalRoot<num::Complex<i64>, num::Complex<i128>>>,
)
    requires
        e.a != 0,
        e.delta_spec() < 0,
        e.solved_by(r),
        r matches RealQuadraticRootResult::Complex(ce) && ce.solved_by(z),
    ensures
        is_conjugate_pair(z.0, z.1),
        is_complex_root_of_real(e, z.0),
        is_complex_root_of_real(e, z.1),
{
    lemma_delta_fits(e);
    assert(mul_re(e.a as int, 0, e.c as int, 0) == e.a * e.c);
    assert(4 * (e.a * e.c) == 4 * e.a * e.c) by (nonlinear_arith);
    assert(e.complex_spec().delta_re_spec() == e.delta_spec());
    assert(e.complex_spec().delta_im_spec() == 0);
    lemma_formula_is_root(e.a as int, e.b as int, e.c as int, 1);
    lemma_formula_is_root(e.a as int, e.b as int, e.c as int, -1);
}

/// Turning an expression into one over complex coefficients and taking the real
/// parts back gives the original coefficients.
pub proof fn lemma_complex_round_trip(e: QuadraticExpression<i32>)
    ensures
        e.complex_spec().real_part_spec() == e,
{
}

} // verus!
