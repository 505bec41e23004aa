use num::Complex;
use quadratic::expression::{
    QuadraticExpr, QuadraticExpression, QuadraticRoots, RadicalRoot, RealQuadraticRootResult,
    SingleRoot, SolvingVariant,
};
use quadratic::text::{decimal_string, DisplayQuadraticExpression};
use quadratic::value::isqrt;

fn real_roots(a: i32, b: i32, c: i32) -> QuadraticRoots<RadicalRoot<i64, i128>> {
    match QuadraticExpression::new(a, b, c).get_roots() {
        RealQuadraticRootResult::RealRoots(q) => q,
        other => panic!("expected two real roots, got {:?}", other),
    }
}

fn value_at(a: i32, b: i32, c: i32, x: i128) -> i128 {
    a as i128 * x * x + b as i128 * x + c as i128
}

#[test]
fn delta_is_exact() {
    assert_eq!(QuadraticExpression::new(1, -3, 2).delta(), 1);
    assert_eq!(QuadraticExpression::new(1, 2, 1).delta(), 0);
    assert_eq!(QuadraticExpression::new(1, 0, 1).delta(), -4);
    assert_eq!(QuadraticExpression::new(2, 5, -3).delta(), 49);
}

#[test]
fn delta_at_the_largest_coefficients() {
    let e = QuadraticExpression::new(i32::MIN, i32::MIN, i32::MAX);
    let b = i32::MIN as i128;
    assert_eq!(e.delta(), b * b - 4 * (i32::MIN as i128) * (i32::MAX as i128));
}

#[test]
fn positive_delta_gives_two_real_roots() {
    let q = real_roots(1, -3, 2);
    assert_eq!(q.0.branch, SolvingVariant::PositivePart);
    assert_eq!(q.1.branch, SolvingVariant::NegativePart);
    assert_eq!(q.0.exact_value(), Some(2));
    assert_eq!(q.1.exact_value(), Some(1));
    assert_eq!(q.to_string(), "(2, 1)");
}

#[test]
fn two_real_roots_solve_the_expression() {
    let q = real_roots(2, 5, -3);
    // (-5 + 7) / 4 = 1/2 has no integer value; (-5 - 7) / 4 = -3
    assert_eq!(q.0, RadicalRoot { offset: -5, branch: SolvingVariant::PositivePart, radicand: 49, divisor: 4 });
    assert_eq!(q.0.exact_value(), None);
    let r2 = q.1.exact_value().unwrap();
    assert_eq!(r2, -3);
    assert_eq!(value_at(2, 5, -3, r2), 0);
    assert_eq!(q.to_string(), "((-5+√49)/4, -3)");
}

#[test]
fn irrational_roots_keep_radical_form() {
    let q = real_roots(1, -1, -1);
    assert_eq!(q.0, RadicalRoot { offset: 1, branch: SolvingVariant::PositivePart, radicand: 5, divisor: 2 });
    assert_eq!(q.0.exact_value(), None);
    assert_eq!(q.to_string(), "((1+√5)/2, (1-√5)/2)");
}

#[test]
fn zero_delta_gives_single_root() {
    match QuadraticExpression::new(1, 2, 1).get_roots() {
        RealQuadraticRootResult::SingleRoot(s) => {
            assert_eq!(s.0.offset, -2);
            assert_eq!(s.0.divisor, 2);
            assert_eq!(s.0.radicand, 0);
            assert_eq!(s.0.exact_value(), Some(-1));
            assert_eq!(value_at(1, 2, 1, -1), 0);
            assert_eq!(s.to_string(), "(-1)");
        }
        other => panic!("expected a single root, got {:?}", other),
    }
}

#[test]
fn negative_delta_gives_conjugate_complex_roots() {
    let e = QuadraticExpression::new(1, 0, 1);
    let ce = match e.get_roots() {
        RealQuadraticRootResult::Complex(ce) => ce,
        other => panic!("expected complex coefficients, got {:?}", other),
    };
    assert_eq!(ce.a, Complex::new(1, 0));
    assert_eq!(ce.b, Complex::new(0, 0));
    assert_eq!(ce.c, Complex::new(1, 0));
    let z = ce.get_roots();
    assert_eq!(z.0.offset, Complex::new(0, 0));
    assert_eq!(z.0.radicand, Complex::new(-4, 0));
    assert_eq!(z.0.divisor, Complex::new(2, 0));
    assert_eq!(z.0.branch, SolvingVariant::PositivePart);
    assert_eq!(z.1.branch, SolvingVariant::NegativePart);
    assert_eq!((z.0.offset, z.0.radicand, z.0.divisor), (z.1.offset, z.1.radicand, z.1.divisor));
    assert_eq!(z.0.exact_value(), Some(Complex::new(0, 1)));
    assert_eq!(z.1.exact_value(), Some(Complex::new(0, -1)));
    assert_eq!(z.to_string(), "(((0+0i)+√(-4+0i))/(2+0i), ((0+0i)-√(-4+0i))/(2+0i))");
}

#[test]
fn complex_roots_are_conjugates_and_solve_the_expression() {
    let ce = match QuadraticExpression::new(1, 2, 5).get_roots() {
        RealQuadraticRootResult::Complex(ce) => ce,
        other => panic!("expected complex coefficients, got {:?}", other),
    };
    let z = ce.get_roots();
    let z1 = z.0.exact_value().unwrap();
    let z2 = z.1.exact_value().unwrap();
    assert_eq!(z1, Complex::new(-1, 2));
    assert_eq!(z2, z1.conj());
    let zero = Complex::new(0i128, 0);
    assert_eq!(z1 * z1 + Complex::new(2, 0) * z1 + Complex::new(5, 0), zero);
    assert_eq!(z2 * z2 + Complex::new(2, 0) * z2 + Complex::new(5, 0), zero);
}

#[test]
fn complex_value_needs_real_parts() {
    let z = RadicalRoot {
        offset: Complex::new(0i64, 1),
        branch: SolvingVariant::PositivePart,
        radicand: Complex::new(4i128, 0),
        divisor: Complex::new(1i64, 0),
    };
    assert_eq!(z.exact_value(), None);
    let w = RadicalRoot { offset: Complex::new(0i64, 0), ..z };
    assert_eq!(w.exact_value(), Some(Complex::new(2, 0)));
    let m = RadicalRoot { radicand: Complex::new(i128::MIN, 0), ..w };
    assert_eq!(m.exact_value(), None);
}

#[test]
fn complex_coefficients_use_the_complex_discriminant() {
    let e = QuadraticExpression::new(Complex::new(1, 1), Complex::new(2, -1), Complex::new(0, 3));
    // (2 - i)² - 4 (1 + i)(3i) = (3 - 4i) - 4(-3 + 3i) = 15 - 16i
    assert_eq!(e.delta(), Complex::new(15, -16));
    let z = e.get_roots();
    assert_eq!(z.0.offset, Complex::new(-2, 1));
    assert_eq!(z.0.divisor, Complex::new(2, 2));
    assert_eq!(z.1.radicand, Complex::new(15, -16));
}

#[test]
fn complex_round_trip_keeps_coefficients() {
    let e = QuadraticExpression::new(-7, 3, i32::MAX);
    let ce = e.to_complex();
    assert_eq!(ce.a, Complex::new(-7, 0));
    assert_eq!(ce.c, Complex::new(i32::MAX, 0));
    assert_eq!(ce.real_part(), e);
}

#[test]
fn zero_leading_coefficient_gives_zero_divisor() {
    let q = real_roots(0, 2, 1);
    assert_eq!(q.0.divisor, 0);
    assert_eq!(q.0.exact_value(), None);
    assert_eq!(q.to_string(), "((-2+√4)/0, (-2-√4)/0)");
}

#[test]
fn single_root_text() {
    assert_eq!(SingleRoot(2i128).to_string(), "(2)");
}

#[test]
fn two_roots_text() {
    assert_eq!(QuadraticRoots(1i128, -3i128).to_string(), "(1, -3)");
}

#[test]
fn expression_text_writes_every_sign() {
    let e = QuadraticExpression::new(1, -2, 3);
    assert_eq!(DisplayQuadraticExpression::new(&e, 'x').to_string(), "+1x^2-2x+3");
    let z = QuadraticExpression::new(0, 0, -5);
    assert_eq!(DisplayQuadraticExpression::new(&z, 'y').to_string(), "+0y^2+0y-5");
}

#[test]
fn display_part_signs_and_variable() {
    let e = QuadraticExpression::new(1, 1, 1);
    let d = DisplayQuadraticExpression::new(&e, 't');
    assert_eq!(d.display_part(-12), "-12t");
    assert_eq!(d.display_part(0), "+0t");
    assert_eq!(d.display_part(40), "+40t");
}

#[test]
fn decimal_text_of_extremes() {
    assert_eq!(decimal_string(0), "0");
    assert_eq!(decimal_string(-305), "-305");
    assert_eq!(decimal_string(i128::MIN), i128::MIN.to_string());
    assert_eq!(decimal_string(i128::MAX), i128::MAX.to_string());
}

#[test]
fn integer_square_root() {
    assert_eq!(isqrt(0), 0);
    assert_eq!(isqrt(15), 3);
    assert_eq!(isqrt(16), 4);
    assert_eq!(isqrt(u128::MAX), u64::MAX as u128);
}

#[test]
fn exact_value_needs_divisibility() {
    let r = RadicalRoot { offset: 3, branch: SolvingVariant::NegativePart, radicand: 4, divisor: 4 };
    assert_eq!(r.exact_value(), None);
    let r = RadicalRoot { offset: 3, branch: SolvingVariant::NegativePart, radicand: 9, divisor: 4 };
    assert_eq!(r.exact_value(), Some(0));
    let r = RadicalRoot { offset: -9, branch: SolvingVariant::NegativePart, radicand: 9, divisor: -4 };
    assert_eq!(r.exact_value(), Some(3));
    let r = RadicalRoot { offset: 1, branch: SolvingVariant::PositivePart, radicand: -1, divisor: 1 };
    assert_eq!(r.exact_value(), None);
}

#[test]
fn branch_applies_its_sign() {
    assert_eq!(SolvingVariant::PositivePart.apply(3, 5), 8);
    assert_eq!(SolvingVariant::NegativePart.apply(3, 5), -2);
}
