//! Rendering expressions and roots as text.
use vstd::prelude::*;

use num::Complex;

use crate::expression::{QuadraticExpression, QuadraticRoots, RadicalRoot, SingleRoot, SolvingVariant};
use crate::value::is_value_of;

verus! {

/// The character of the decimal digit `d`.
pub open spec fn digit_char(d: nat) -> char {
    if d == 0 {
        '0'
    } else if d == 1 {
        '1'
    } else if d == 2 {
        '2'
    } else if d == 3 {
        '3'
    } else if d == 4 {
        '4'
    } else if d == 5 {
        '5'
    } else if d == 6 {
        '6'
    } else if d == 7 {
        '7'
    } else if d == 8 {
        '8'
    } else {
        '9'
    }
}

/// The decimal digits of `n`, without leading zeros.
pub open spec fn digits_of(n: nat) -> Seq<char>
    decreases n,
{
    if n < 10 {
        seq![digit_char(n)]
    } else {
        digits_of(n / 10).push(digit_char(n % 10))
    }
}

/// `n` in decimal, with a leading `-` when negative.
pub open spec fn decimal(n: int) -> Seq<char> {
    if n < 0 {
        seq!['-'] + digits_of((-n) as nat)
    } else {
        digits_of(n as nat)
    }
}

/// `n` in decimal with its sign always written: `+` before zero and positive
/// values.
pub open spec fn signed_text(n: int) -> Seq<char> {
    if n >= 0 {
        seq!['+'] + decimal(n)
    } else {
        decimal(n)
    }
}

/// `±a v^2 ±b v ±c` without spaces, for the variable `v`.
pub open spec fn expression_text(e: QuadraticExpression<i32>, v: char) -> Seq<char> {
    signed_text(e.a as int) + seq![v, '^', '2'] + signed_text(e.b as int) + seq![v] + signed_text(
        e.c as int,
    )
}

/// A root in radical form: `(offset+√radicand)/divisor`, or with `-` before
/// the square root on the negative branch.
pub open spec fn radical_text(r: RadicalRoot<i64, i128>) -> Seq<char> {
    seq!['('] + decimal(r.offset as int) + seq![
        if r.branch == SolvingVariant::PositivePart {
            '+'
        } else {
            '-'
        },
        '√',
    ] + decimal(r.radicand as int) + seq![')', '/'] + decimal(r.divisor as int)
}

/// Relies on `FromIterator<char> for String`: the characters, in order.
#[verifier::external_body]
fn string_of_chars(cs: Vec<char>) -> (r: String)
    ensures
        r@ == cs@,
{
    String::from_iter(cs)
}

fn digit(d: u128) -> (c: char)
    requires
        d < 10,
    ensures
        c == digit_char(d as nat),
{
    if d == 0 {
        '0'
    } else if d == 1 {
        '1'
    } else if d == 2 {
        '2'
    } else if d == 3 {
        '3'
    } else if d == 4 {
        '4'
    } else if d == 5 {
        '5'
    } else if d == 6 {
        '6'
    } else if d == 7 {
        '7'
    } else if d == 8 {
        '8'
    } else {
        '9'
    }
}

fn push_digits(out: &mut Vec<char>, n: u128)
    ensures
        final(out)@ == old(out)@ + digits_of(n as nat),
    decreases n,
{
    if n >= 10 {
        push_digits(out, n / 10);
    }
    out.push(digit(n % 10));
    assert(final(out)@ =~= old(out)@ + digits_of(n as nat));
}

fn push_decimal(out: &mut Vec<char>, n: i128)
    ensures
        final(out)@ == old(out)@ + decimal(n as int),
{
    if n < 0 {
        out.push('-');
        let m: u128 = (-(n + 1)) as u128 + 1;
        push_digits(out, m);
        assert(final(out)@ =~= old(out)@ + decimal(n as int));
    } else {
        push_digits(out, n as u128);
    }
}

fn push_signed(out: &mut Vec<char>, n: i128)
    ensures
        final(out)@ == old(out)@ + signed_text(n as int),
{
    if n >= 0 {
        out.push('+');
    }
    push_decimal(out, n);
    assert(final(out)@ =~= old(out)@ + signed_text(n as int));
}

/// `n` in decimal.
pub fn decimal_string(n: i128) -> (r: String)
    ensures
        r@ == decimal(n as int),
{
    let mut out: Vec<char> = Vec::new();
    push_decimal(&mut out, n);
    assert(out@ =~= decimal(n as int));
    string_of_chars(out)
}

/// Renders an expression with a chosen variable symbol. The constant term is
/// written as `c`.
pub struct DisplayQuadraticExpression<'a> {
    expr: &'a QuadraticExpression<i32>,
    variable: char,
}

impl<'a> DisplayQuadraticExpression<'a> {
    pub closed spec fn expr_spec(&self) -> QuadraticExpression<i32> {
        *self.expr
    }

    pub closed spec fn variable_spec(&self) -> char {
        self.variable
    }

    pub fn new(expr: &'a QuadraticExpression<i32>, variable: char) -> (r: Self)
        ensures
            r.expr_spec() == *expr,
            r.variable_spec() == variable,
    {
        DisplayQuadraticExpression { expr, variable }
    }

    /// A coefficient with its sign always written, then the variable.
    pub fn display_part(&self, n: i32) -> (r: String)
        ensures
            r@ == signed_text(n as int) + seq![self.variable_spec()],
    {
        let mut out: Vec<char> = Vec::new();
        push_signed(&mut out, n as i128);
        out.push(self.variable);
        assert(out@ =~= signed_text(n as int) + seq![self.variable_spec()]);
        string_of_chars(out)
    }

    /// The whole expression, as `+1x^2-2x+3`.
    pub fn to_string(&self) -> (r: String)
        ensures
            r@ == expression_text(self.expr_spec(), self.variable_spec()),
    {
        let mut out: Vec<char> = Vec::new();
        push_signed(&mut out, self.expr.a as i128);
        out.push(self.variable);
        out.push('^');
        out.push('2');
        push_signed(&mut out, self.expr.b as i128);
        out.push(self.variable);
        push_signed(&mut out, self.expr.c as i128);
        assert(out@ =~= expression_text(self.expr_spec(), self.variable_spec()));
        string_of_chars(out)
    }
}

/// Appends a root: its integer value where it has one, else its radical form.
fn push_root(out: &mut Vec<char>, r: &RadicalRoot<i64, i128>) -> (ghost_text: Ghost<Seq<char>>)
    ensures
        final(out)@ == old(out)@ + ghost_text@,
        root_text_is(*r, ghost_text@),
{
    match r.exact_value() {
        Some(v) => {
            push_decimal(out, v);
            Ghost(decimal(v as int))
        },
        None => {
            out.push('(');
            push_decimal(out, r.offset as i128);
            out.push(
                match r.branch {
                    SolvingVariant::PositivePart => '+',
                    SolvingVariant::NegativePart => '-',
                },
            );
            out.push('√');
            push_decimal(out, r.radicand);
            out.push(')');
            out.push('/');
            push_decimal(out, r.divisor as i128);
            assert(final(out)@ =~= old(out)@ + radical_text(*r));
            Ghost(radical_text(*r))
        },
    }
}

/// `s` is how a root is written: the decimal form of its integer value where
/// it has one, else its radical form.
pub open spec fn root_text_is(r: RadicalRoot<i64, i128>, s: Seq<char>) -> bool {
    (exists|v: int| is_value_of(r, v) && s == decimal(v)) || ((forall|v: int|
        !is_value_of(r, v)) && s == radical_text(r))
}

impl SingleRoot<i128> {
    /// `(r)`.
    pub fn to_string(&self) -> (r: String)
        ensures
            r@ == seq!['('] + decimal(self.0 as int) + seq![')'],
    {
        let mut out: Vec<char> = Vec::new();
        out.push('(');
        push_decimal(&mut out, self.0);
        out.push(')');
        assert(out@ =~= seq!['('] + decimal(self.0 as int) + seq![')']);
        string_of_chars(out)
    }
}

impl QuadraticRoots<i128> {
    /// `(r1, r2)`.
    pub fn to_string(&self) -> (r: String)
        ensures
            r@ == seq!['('] + decimal(self.0 as int) + seq![',', ' '] + decimal(self.1 as int)
                + seq![')'],
    {
        let mut out: Vec<char> = Vec::new();
        out.push('(');
        push_decimal(&mut out, self.0);
        out.push(',');
        out.push(' ');
        push_decimal(&mut out, self.1);
        out.push(')');
        assert(out@ =~= seq!['('] + decimal(self.0 as int) + seq![',', ' '] + decimal(self.1 as int)
            + seq![')']);
        string_of_chars(out)
    }
}

impl SingleRoot<RadicalRoot<i64, i128>> {
    /// `(r)`, with the root written by value where it has an integer one.
    pub fn to_string(&self) -> (r: String)
        ensures
            exists|s: Seq<char>| root_text_is(self.0, s) && r@ == seq!['('] + s + seq![')'],
    {
        let mut out: Vec<char> = Vec::new();
        out.push('(');
        let s = push_root(&mut out, &self.0);
        out.push(')');
        assert(out@ =~= seq!['('] + s@ + seq![')']);
        string_of_chars(out)
    }
}

impl QuadraticRoots<RadicalRoot<i64, i128>> {
    /// `(r1, r2)`, each root written by value where it has an integer one.
    pub fn to_string(&self) -> (r: String)
        ensures
            exists|s1: Seq<char>, s2: Seq<char>|
                root_text_is(self.0, s1) && root_text_is(self.1, s2) && r@ == seq!['('] + s1
                    + seq![',', ' '] + s2 + seq![')'],
    {
        let mut out: Vec<char> = Vec::new();
        out.push('(');
        let s1 = push_root(&mut out, &self.0);
        out.push(',');
        out.push(' ');
        let s2 = push_root(&mut out, &self.1);
        out.push(')');
        assert(out@ =~= seq!['('] + s1@ + seq![',', ' '] + s2@ + seq![')']);
        string_of_chars(out)
    }
}

/// A complex integer as `(re±imi)`.
pub open spec fn complex_text(re: int, im: int) -> Seq<char> {
    seq!['('] + decimal(re) + signed_text(im) + seq!['i', ')']
}

/// A complex root in radical form: `(offset±√radicand)/divisor`, each part
/// written as a complex integer.
pub open spec fn complex_radical_text(z: RadicalRoot<Complex<i64>, Complex<i128>>) -> Seq<char> {
    seq!['('] + complex_text(z.offset.re as int, z.offset.im as int) + seq![
        if z.branch == SolvingVariant::PositivePart {
            '+'
        } else {
            '-'
        },
        '√',
    ] + complex_text(z.radicand.re as int, z.radicand.im as int) + seq![')', '/'] + complex_text(
        z.divisor.re as int,
        z.divisor.im as int,
    )
}

fn push_complex(out: &mut Vec<char>, re: i128, im: i128)
    ensures
        final(out)@ == old(out)@ + complex_text(re as int, im as int),
{
    out.push('(');
    push_decimal(out, re);
    push_signed(out, im);
    out.push('i');
    out.push(')');
    assert(final(out)@ =~= old(out)@ + complex_text(re as int, im as int));
}

fn push_complex_root(out: &mut Vec<char>, z: &RadicalRoot<Complex<i64>, Complex<i128>>)
    ensures
        final(out)@ == old(out)@ + complex_radical_text(*z),
{
    out.push('(');
    push_complex(out, z.offset.re as i128, z.offset.im as i128);
    out.push(
        match z.branch {
            SolvingVariant::PositivePart => '+',
            SolvingVariant::NegativePart => '-',
        },
    );
    out.push('√');
    push_complex(out, z.radicand.re, z.radicand.im);
    out.push(')');
    out.push('/');
    push_complex(out, z.divisor.re as i128, z.divisor.im as i128);
    assert(final(out)@ =~= old(out)@ + complex_radical_text(*z));
}

impl QuadraticRoots<RadicalRoot<Complex<i64>, Complex<i128>>> {
    /// `(z1, z2)`, each root in radical form.
    pub fn to_string(&self) -> (r: String)
        ensures
            r@ == seq!['('] + complex_radical_text(self.0) + seq![',', ' '] + complex_radical_text(
                self.1,
            ) + seq![')'],
    {
        let mut out: Vec<char> = Vec::new();
        out.push('(');
        push_complex_root(&mut out, &self.0);
        out.push(',');
        out.push(' ');
        push_complex_root(&mut out, &self.1);
        out.push(')');
        assert(out@ =~= seq!['('] + complex_radical_text(self.0) + seq![',', ' ']
            + complex_radical_text(self.1) + seq![')']);
        string_of_chars(out)
    }
}

} // verus!
