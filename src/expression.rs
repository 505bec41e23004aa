//! Quadratic expressions, their discriminant and the two root formulas.
use vstd::prelude::*;

use num::Complex;

use crate::complex::{complex_from_real, mul_im, mul_re};

verus! {

/// The discriminant `b² − 4ac` of `a·x² + b·x + c`.
pub open spec fn discriminant(a: int, b: int, c: int) -> int {
    b * b - 4 * a * c
}

/// Which sign stands before the square root in `(−b ± √Δ) / 2a`.
#[derive(Clone, Copy, Debug, PartialEq, Eq, Structural)]
pub enum SolvingVariant {
    PositivePart,
    NegativePart,
}

impl SolvingVariant {
    /// `1` for the `+√Δ` branch, `−1` for the `−√Δ` branch.
    pub open spec fn sign(self) -> int {
        match self {
            SolvingVariant::PositivePart => 1,
            SolvingVariant::NegativePart => -1,
        }
    }

    /// `x + y` on the positive branch, `x − y` on the negative one.
    pub fn apply(self, x: i128, y: i128) -> (r: i128)
        requires
            i128::MIN <= x + self.sign() * y <= i128::MAX,
        ensures
            r == x + self.sign() * y,
    {
        match self {
            SolvingVariant::PositivePart => x + y,
            SolvingVariant::NegativePart => x - y,
        }
    }
}

/// A root kept exactly as `(offset + sign·√radicand) / divisor`, where the sign
/// is given by `branch`. Over complex values the square root is the principal
/// one; a negative real radicand thus gives a purely imaginary root term.
#[derive(Clone, Copy, Debug, PartialEq, Eq)]
pub struct RadicalRoot<T, D> {
    pub offset: T,
    pub branch: SolvingVariant,
    pub radicand: D,
    pub divisor: T,
}

/// Two roots: the `+√Δ` one first, the `−√Δ` one second.
#[derive(Clone, Copy, Debug, PartialEq, Eq)]
pub struct QuadraticRoots<T>(pub T, pub T);

/// The one root of an expression whose discriminant is zero.
#[derive(Clone, Copy, Debug, PartialEq, Eq)]
pub struct SingleRoot<T>(pub T);

/// The expression `a·x² + b·x + c`.
#[derive(Clone, Copy, Debug, PartialEq, Eq)]
pub struct QuadraticExpression<T> {
    pub a: T,
    pub b: T,
    pub c: T,
}

impl<T> QuadraticExpression<T> {
    pub fn new(a: T, b: T, c: T) -> (r: Self)
        ensures
            r.a == a,
            r.b == b,
            r.c == c,
    {
        QuadraticExpression { a, b, c }
    }
}

impl QuadraticExpression<i32> {
    /// The discriminant of this expression.
    pub open spec fn delta_spec(self) -> int {
        discriminant(self.a as int, self.b as int, self.c as int)
    }

    /// The root that the formula gives on the given branch.
    pub open spec fn root_spec(self, solving: SolvingVariant) -> RadicalRoot<i64, i128> {
        RadicalRoot {
            offset: (-self.b) as i64,
            branch: solving,
            radicand: self.delta_spec() as i128,
            divisor: (2 * self.a) as i64,
        }
    }

    /// The same expression over complex coefficients with zero imaginary parts.
    pub open spec fn complex_spec(self) -> QuadraticExpression<Complex<i32>> {
        QuadraticExpression {
            a: Complex { re: self.a, im: 0i32 },
            b: Complex { re: self.b, im: 0i32 },
            c: Complex { re: self.c, im: 0i32 },
        }
    }

    /// `b² − 4ac`, computed exactly.
    pub fn delta(&self) -> (r: i128)
        ensures
            r == self.delta_spec(),
    {
        let a = self.a as i128;
        let b = self.b as i128;
        let c = self.c as i128;
        proof {
            assert(0 <= b * b <= 0x4000_0000_0000_0000) by (nonlinear_arith)
                requires -0x8000_0000 <= b <= 0x7fff_ffff;
            assert(-0x1_0000_0000_0000_0000 <= 4 * a * c <= 0x1_0000_0000_0000_0000)
                by (nonlinear_arith)
                requires -0x8000_0000 <= a <= 0x7fff_ffff, -0x8000_0000 <= c <= 0x7fff_ffff;
        }
        b * b - 4 * a * c
    }

    /// `(−b ± √Δ) / 2a` on the chosen branch. Nothing is checked: the square
    /// root is only a real number when `Δ ≥ 0`, and `a = 0` gives a zero divisor.
    pub fn get_single_root_unchecked(&self, solving: SolvingVariant) -> (r: RadicalRoot<i64, i128>)
        ensures
            r == self.root_spec(solving),
    {
        RadicalRoot {
            offset: -(self.b as i64),
            branch: solving,
            radicand: self.delta(),
            divisor: 2 * (self.a as i64),
        }
    }

    /// Both roots, the `+√Δ` one first.
    pub fn get_all_roots_unchecked(&self) -> (r: QuadraticRoots<RadicalRoot<i64, i128>>)
        ensures
            r.0 == self.root_spec(SolvingVariant::PositivePart),
            r.1 == self.root_spec(SolvingVariant::NegativePart),
    {
        QuadraticRoots(
            self.get_single_root_unchecked(SolvingVariant::PositivePart),
            self.get_single_root_unchecked(SolvingVariant::NegativePart),
        )
    }

    /// The same expression over complex coefficients; this one is untouched.
    pub fn to_complex(&self) -> (r: QuadraticExpression<Complex<i32>>)
        ensures
            r == self.complex_spec(),
    {
        QuadraticExpression::new(
            complex_from_real(self.a),
            complex_from_real(self.b),
            complex_from_real(self.c),
        )
    }
}

impl QuadraticExpression<Complex<i32>> {
    /// Real part of the discriminant `b² − 4ac` over complex coefficients.
    pub open spec fn delta_re_spec(self) -> int {
        mul_re(self.b.re as int, self.b.im as int, self.b.re as int, self.b.im as int) - 4
            * mul_re(self.a.re as int, self.a.im as int, self.c.re as int, self.c.im as int)
    }

    /// Imaginary part of the discriminant `b² − 4ac` over complex coefficients.
    pub open spec fn delta_im_spec(self) -> int {
        mul_im(self.b.re as int, self.b.im as int, self.b.re as int, self.b.im as int) - 4
            * mul_im(self.a.re as int, self.a.im as int, self.c.re as int, self.c.im as int)
    }

    /// The root that the formula gives on the given branch.
    pub open spec fn root_spec(self, solving: SolvingVariant) -> RadicalRoot<
        Complex<i64>,
        Complex<i128>,
    > {
        RadicalRoot {
            offset: Complex { re: (-self.b.re) as i64, im: (-self.b.im) as i64 },
            branch: solving,
            radicand: Complex {
                re: self.delta_re_spec() as i128,
                im: self.delta_im_spec() as i128,
            },
            divisor: Complex { re: (2 * self.a.re) as i64, im: (2 * self.a.im) as i64 },
        }
    }

    /// The expression made of the real parts of the coefficients.
    pub open spec fn real_part_spec(self) -> QuadraticExpression<i32> {
        QuadraticExpression { a: self.a.re, b: self.b.re, c: self.c.re }
    }

    /// `b² − 4ac` over complex coefficients, computed exactly.
    pub fn delta(&self) -> (r: Complex<i128>)
        ensures
            r.re == self.delta_re_spec(),
            r.im == self.delta_im_spec(),
    {
        let ar = self.a.re as i128;
        let ai = self.a.im as i128;
        let br = self.b.re as i128;
        let bi = self.b.im as i128;
        let cr = self.c.re as i128;
        let ci = self.c.im as i128;
        proof {
            assert(-0x4000_0000_0000_0000 <= br * br <= 0x4000_0000_0000_0000
                && -0x4000_0000_0000_0000 <= bi * bi <= 0x4000_0000_0000_0000
                && -0x4000_0000_0000_0000 <= br * bi <= 0x4000_0000_0000_0000
                && -0x4000_0000_0000_0000 <= ar * cr <= 0x4000_0000_0000_0000
                && -0x4000_0000_0000_0000 <= ai * ci <= 0x4000_0000_0000_0000
                && -0x4000_0000_0000_0000 <= ar * ci <= 0x4000_0000_0000_0000
                && -0x4000_0000_0000_0000 <= ai * cr <= 0x4000_0000_0000_0000)
                by (nonlinear_arith)
                requires
                    -0x8000_0000 <= ar <= 0x7fff_ffff,
                    -0x8000_0000 <= ai <= 0x7fff_ffff,
                    -0x8000_0000 <= br <= 0x7fff_ffff,
                    -0x8000_0000 <= bi <= 0x7fff_ffff,
                    -0x8000_0000 <= cr <= 0x7fff_ffff,
                    -0x8000_0000 <= ci <= 0x7fff_ffff,
            ;
        }
        Complex::new(
            (br * br - bi * bi) - 4 * (ar * cr - ai * ci),
            (br * bi + bi * br) - 4 * (ar * ci + ai * cr),
        )
    }

    /// `(−b ± √Δ) / 2a` on the chosen branch, with the principal square root.
    /// Nothing is checked: `a = 0` gives a zero divisor.
    pub fn get_single_root_unchecked(&self, solving: SolvingVariant) -> (r: RadicalRoot<
        Complex<i64>,
        Complex<i128>,
    >)
        ensures
            r == self.root_spec(solving),
    {
        RadicalRoot {
            offset: Complex::new(-(self.b.re as i64), -(self.b.im as i64)),
            branch: solving,
            radicand: self.delta(),
            divisor: Complex::new(2 * (self.a.re as i64), 2 * (self.a.im as i64)),
        }
    }

    /// Both roots, the `+√Δ` one first.
    pub fn get_all_roots_unchecked(&self) -> (r: QuadraticRoots<
        RadicalRoot<Complex<i64>, Complex<i128>>,
    >)
        ensures
            r.0 == self.root_spec(SolvingVariant::PositivePart),
            r.1 == self.root_spec(SolvingVariant::NegativePart),
    {
        QuadraticRoots(
            self.get_single_root_unchecked(SolvingVariant::PositivePart),
            self.get_single_root_unchecked(SolvingVariant::NegativePart),
        )
    }

    /// The expression made of the real parts of the coefficients.
    pub fn real_part(&self) -> (r: QuadraticExpression<i32>)
        ensures
            r == self.real_part_spec(),
    {
        QuadraticExpression::new(self.a.re, self.b.re, self.c.re)
    }
}

/// What solving an expression over real coefficients gives.
#[derive(Clone, Copy, Debug, PartialEq, Eq)]
pub enum RealQuadraticRootResult {
    /// The discriminant is zero.
    SingleRoot(SingleRoot<RadicalRoot<i64, i128>>),
    /// The discriminant is positive.
    RealRoots(QuadraticRoots<RadicalRoot<i64, i128>>),
    /// The discriminant is negative: the expression over complex coefficients,
    /// still to be solved.
    Complex(QuadraticExpression<Complex<i32>>),
}

/// An expression that can be solved, giving a result of type `R`.
pub trait QuadraticExpr<R>: Sized {
    /// Whether `r` is what solving this expression gives.
    spec fn solved_by(&self, r: R) -> bool;

    fn get_roots(&self) -> (r: R)
        ensures
            self.solved_by(r),
    ;
}

impl QuadraticExpr<RealQuadraticRootResult> for QuadraticExpression<i32> {
    /// Split on the sign of the discriminant, compared exactly.
    open spec fn solved_by(&self, r: RealQuadraticRootResult) -> bool {
        match r {
            RealQuadraticRootResult::SingleRoot(s) => self.delta_spec() == 0 && s.0
                == self.root_spec(SolvingVariant::PositivePart),
            RealQuadraticRootResult::RealRoots(q) => self.delta_spec() > 0 && q.0
                == self.root_spec(SolvingVariant::PositivePart) && q.1 == self.root_spec(
                SolvingVariant::NegativePart,
            ),
            RealQuadraticRootResult::Complex(e) => self.delta_spec() < 0 && e
                == self.complex_spec(),
        }
    }

    fn get_roots(&self) -> (r: RealQuadraticRootResult) {
        let d = self.delta();
        if d > 0 {
            RealQuadraticRootResult::RealRoots(self.get_all_roots_unchecked())
        } else if d == 0 {
            RealQuadraticRootResult::SingleRoot(
                SingleRoot(self.get_single_root_unchecked(SolvingVariant::PositivePart)),
            )
        } else {
            RealQuadraticRootResult::Complex(self.to_complex())
        }
    }
}

impl QuadraticExpr<QuadraticRoots<RadicalRoot<Complex<i64>, Complex<i128>>>> for QuadraticExpression<
    Complex<i32>,
> {
    /// Always the two roots, the `+√Δ` one first.
    open spec fn solved_by(&self, r: QuadraticRoots<RadicalRoot<Complex<i64>, Complex<i128>>>) -> bool {
        r.0 == self.root_spec(SolvingVariant::PositivePart) && r.1 == self.root_spec(
            SolvingVariant::NegativePart,
        )
    }

    fn get_roots(&self) -> (r: QuadraticRoots<RadicalRoot<Complex<i64>, Complex<i128>>>) {
        self.get_all_roots_unchecked()
    }
}

} // verus!
