//! Symbolic arithmetic expressions, built with the usual operators, and the
//! text they are written as: operands are put in parentheses only where the
//! precedence of the operators asks for it.

use crate::text::{chars_of, string_of};
use vstd::prelude::*;

verus! {

/// An expression: a number, a variable, or an operator applied to
/// expressions.
#[derive(Debug)]
pub enum Expr {
    IntNumber(i32),
    /// The number written as the first integer, a point, then the second.
    FixedNumber(i32, i32),
    /// A floating-point constant, held as the text it is written with.
    FloatNumber(String),
    Variable(String),
    Neg(Box<Expr>),
    Sin(Box<Expr>),
    Cos(Box<Expr>),
    Add(Box<Expr>, Box<Expr>),
    Sub(Box<Expr>, Box<Expr>),
    Mul(Box<Expr>, Box<Expr>),
    Div(Box<Expr>, Box<Expr>),
}

/// The decimal digit `d` (0..10).
pub open spec fn digit_char(d: int) -> char {
    if d == 0 {
        '0'
    } else if d == 1 {
        '1'
    } else if d == 2 {
        '2'
    } else if d == 3 {
        '3'
    } else if d == 4 {
        '4'
    } else if d == 5 {
        '5'
    } else if d == 6 {
        '6'
    } else if d == 7 {
        '7'
    } else if d == 8 {
        '8'
    } else {
        '9'
    }
}

/// The decimal digits of `n`, without leading zeros.
pub open spec fn nat_text(n: nat) -> Seq<char>
    decreases n,
{
    if n < 10 {
        seq![digit_char(n as int)]
    } else {
        nat_text(n / 10).push(digit_char((n % 10) as int))
    }
}

/// `n` in decimal, with a minus sign when negative.
pub open spec fn int_text(n: int) -> Seq<char> {
    if n < 0 {
        seq!['-'] + nat_text((-n) as nat)
    } else {
        nat_text(n as nat)
    }
}

/// A number, a variable, a sine or a cosine: written without parentheses
/// after a minus sign or as the right operand of a product or quotient.
pub open spec fn is_tight(e: Expr) -> bool {
    match e {
        Expr::IntNumber(_) | Expr::FixedNumber(_, _) | Expr::FloatNumber(_) | Expr::Variable(_)
        | Expr::Sin(_) | Expr::Cos(_) => true,
        _ => false,
    }
}

/// A sum or difference: put in parentheses as the left operand of a product
/// or quotient.
pub open spec fn is_additive(e: Expr) -> bool {
    match e {
        Expr::Add(_, _) | Expr::Sub(_, _) => true,
        _ => false,
    }
}

/// A product or quotient: written without parentheses as the right operand
/// of a sum or difference.
pub open spec fn is_multiplicative(e: Expr) -> bool {
    match e {
        Expr::Mul(_, _) | Expr::Div(_, _) => true,
        _ => false,
    }
}

/// `t` in parentheses.
pub open spec fn parenthesized(t: Seq<char>) -> Seq<char> {
    seq!['('] + t + seq![')']
}

/// The text of `e`: numbers in decimal, function applications as
/// `sin(..)` and `cos(..)`, binary operators between spaces, and
/// parentheses around an operand only where precedence asks for them.
pub open spec fn expr_text(e: Expr) -> Seq<char>
    decreases e,
{
    match e {
        Expr::IntNumber(n) => int_text(n as int),
        Expr::FixedNumber(n, d) => int_text(n as int) + seq!['.'] + int_text(d as int),
        Expr::FloatNumber(t) => t@,
        Expr::Variable(v) => v@,
        Expr::Neg(x) => seq!['-'] + if is_tight(*x) {
            expr_text(*x)
        } else {
            parenthesized(expr_text(*x))
        },
        Expr::Sin(x) => seq!['s', 'i', 'n'] + parenthesized(expr_text(*x)),
        Expr::Cos(x) => seq!['c', 'o', 's'] + parenthesized(expr_text(*x)),
        Expr::Add(a, b) => expr_text(*a) + seq![' ', '+', ' '] + if is_tight(*b) || is_multiplicative(*b) {
            expr_text(*b)
        } else {
            parenthesized(expr_text(*b))
        },
        Expr::Sub(a, b) => expr_text(*a) + seq![' ', '-', ' '] + if is_tight(*b) || is_multiplicative(*b) {
            expr_text(*b)
        } else {
            parenthesized(expr_text(*b))
        },
        Expr::Mul(a, b) => (if is_additive(*a) {
            parenthesized(expr_text(*a))
        } else {
            expr_text(*a)
        }) + seq![' ', '*', ' '] + if is_tight(*b) {
            expr_text(*b)
        } else {
            parenthesized(expr_text(*b))
        },
        Expr::Div(a, b) => (if is_additive(*a) {
            parenthesized(expr_text(*a))
        } else {
            expr_text(*a)
        }) + seq![' ', '/', ' '] + if is_tight(*b) {
            expr_text(*b)
        } else {
            parenthesized(expr_text(*b))
        },
    }
}

/// The character of the decimal digit `d`.
fn digit_char_of(d: u64) -> (c: char)
    requires
        d < 10,
    ensures
        c == digit_char(d as int),
{
    match d {
        0 => '0',
        1 => '1',
        2 => '2',
        3 => '3',
        4 => '4',
        5 => '5',
        6 => '6',
        7 => '7',
        8 => '8',
        _ => '9',
    }
}

/// Appends the decimal digits of `n`.
fn push_nat(out: &mut Vec<char>, n: u64)
    ensures
        final(out)@ == old(out)@ + nat_text(n as nat),
    decreases n,
{
    if n >= 10 {
        push_nat(out, n / 10);
    }
    let d = digit_char_of(n % 10);
    out.push(d);
    proof {
        if n >= 10 {
            assert(old(out)@ + nat_text(n as nat) =~= (old(out)@ + nat_text((n / 10) as nat)).push(d));
        } else {
            assert(old(out)@ + nat_text(n as nat) =~= old(out)@.push(d));
        }
    }
}

/// Appends `n` in decimal.
fn push_int(out: &mut Vec<char>, n: i32)
    ensures
        final(out)@ == old(out)@ + int_text(n as int),
{
    if n < 0 {
        out.push('-');
        let m: i64 = n as i64;
        push_nat(out, (-m) as u64);
        assert(old(out)@ + int_text(n as int) =~= old(out)@.push('-') + nat_text((-m) as nat));
    } else {
        push_nat(out, n as u64);
    }
}

/// Appends the characters of `s`.
fn push_str(out: &mut Vec<char>, s: &String)
    ensures
        final(out)@ == old(out)@ + s@,
{
    let cs = chars_of(s.as_str());
    let n = cs.len();
    for i in 0..n
        invariant
            n == cs@.len(),
            cs@ == s@,
            out@ == old(out)@ + cs@.take(i as int),
    {
        assert(cs@.take(i + 1) == cs@.take(i as int).push(cs@[i as int]));
        out.push(cs[i]);
    }
    assert(cs@.take(n as int) == cs@);
}

/// Whether `e` is written without parentheses after a minus sign or as the
/// right operand of a product or quotient.
fn tight(e: &Expr) -> (b: bool)
    ensures
        b == is_tight(*e),
{
    match e {
        Expr::IntNumber(_) | Expr::FixedNumber(_, _) | Expr::FloatNumber(_) | Expr::Variable(_)
        | Expr::Sin(_) | Expr::Cos(_) => true,
        _ => false,
    }
}

/// Whether `e` is a sum or a difference.
fn additive(e: &Expr) -> (b: bool)
    ensures
        b == is_additive(*e),
{
    match e {
        Expr::Add(_, _) | Expr::Sub(_, _) => true,
        _ => false,
    }
}

/// Whether `e` is a product or a quotient.
fn multiplicative(e: &Expr) -> (b: bool)
    ensures
        b == is_multiplicative(*e),
{
    match e {
        Expr::Mul(_, _) | Expr::Div(_, _) => true,
        _ => false,
    }
}

impl Expr {
    /// A copy of the expression.
    fn duplicate(&self) -> (r: Expr)
        ensures
            r == *self,
        decreases self,
    {
        match self {
            Expr::IntNumber(n) => Expr::IntNumber(*n),
            Expr::FixedNumber(n, d) => Expr::FixedNumber(*n, *d),
            Expr::FloatNumber(t) => Expr::FloatNumber(t.clone()),
            Expr::Variable(v) => Expr::Variable(v.clone()),
            Expr::Neg(x) => Expr::Neg(Box::new(x.duplicate())),
            Expr::Sin(x) => Expr::Sin(Box::new(x.duplicate())),
            Expr::Cos(x) => Expr::Cos(Box::new(x.duplicate())),
            Expr::Add(a, b) => Expr::Add(Box::new(a.duplicate()), Box::new(b.duplicate())),
            Expr::Sub(a, b) => Expr::Sub(Box::new(a.duplicate()), Box::new(b.duplicate())),
            Expr::Mul(a, b) => Expr::Mul(Box::new(a.duplicate()), Box::new(b.duplicate())),
            Expr::Div(a, b) => Expr::Div(Box::new(a.duplicate()), Box::new(b.duplicate())),
        }
    }

    /// Appends the text of `e`, in parentheses if `paren`.
    fn write_operand(e: &Expr, paren: bool, out: &mut Vec<char>)
        ensures
            final(out)@ == old(out)@ + if paren {
                parenthesized(expr_text(*e))
            } else {
                expr_text(*e)
            },
        decreases e, 1nat,
    {
        if paren {
            out.push('(');
            e.write_into(out);
            out.push(')');
            assert(old(out)@ + parenthesized(expr_text(*e)) =~= (old(out)@.push('(') + expr_text(
                *e,
            )).push(')'));
        } else {
            e.write_into(out);
        }
    }

    /// Appends the text of the binary operator `op` between spaces.
    fn write_op(op: char, out: &mut Vec<char>)
        ensures
            final(out)@ == old(out)@ + seq![' ', op, ' '],
    {
        out.push(' ');
        out.push(op);
        out.push(' ');
        assert(old(out)@ + seq![' ', op, ' '] =~= old(out)@.push(' ').push(op).push(' '));
    }

    /// Appends the text of this expression.
    fn write_into(&self, out: &mut Vec<char>)
        ensures
            final(out)@ == old(out)@ + expr_text(*self),
        decreases self, 0nat,
    {
        let ghost start = out@;
        match self {
            Expr::IntNumber(n) => push_int(out, *n),
            Expr::FixedNumber(n, d) => {
                push_int(out, *n);
                out.push('.');
                push_int(out, *d);
                assert(start + expr_text(*self) =~= (start + int_text(*n as int)).push('.')
                    + int_text(*d as int));
            },
            Expr::FloatNumber(t) => push_str(out, t),
            Expr::Variable(v) => push_str(out, v),
            Expr::Neg(x) => {
                out.push('-');
                Expr::write_operand(x, !tight(x), out);
                assert(start + expr_text(*self) =~= start.push('-') + (if is_tight(**x) {
                    expr_text(**x)
                } else {
                    parenthesized(expr_text(**x))
                }));
            },
            Expr::Sin(x) => {
                out.push('s');
                out.push('i');
                out.push('n');
                Expr::write_operand(x, true, out);
                assert(start + expr_text(*self) =~= start.push('s').push('i').push('n')
                    + parenthesized(expr_text(**x)));
            },
            Expr::Cos(x) => {
                out.push('c');
                out.push('o');
                out.push('s');
                Expr::write_operand(x, true, out);
                assert(start + expr_text(*self) =~= start.push('c').push('o').push('s')
                    + parenthesized(expr_text(**x)));
            },
            Expr::Add(a, b) => {
                a.write_into(out);
                Expr::write_op('+', out);
                let bare = tight(b) || multiplicative(b);
                Expr::write_operand(b, !bare, out);
                assert(start + expr_text(*self) =~= start + expr_text(**a) + seq![' ', '+', ' ']
                    + (if bare {
                    expr_text(**b)
                } else {
                    parenthesized(expr_text(**b))
                }));
            },
            Expr::Sub(a, b) => {
                a.write_into(out);
                Expr::write_op('-', out);
                let bare = tight(b) || multiplicative(b);
                Expr::write_operand(b, !bare, out);
                assert(start + expr_text(*self) =~= start + expr_text(**a) + seq![' ', '-', ' ']
                    + (if bare {
                    expr_text(**b)
                } else {
                    parenthesized(expr_text(**b))
                }));
            },
            Expr::Mul(a, b) => {
                Expr::write_operand(a, additive(a), out);
                Expr::write_op('*', out);
                Expr::write_operand(b, !tight(b), out);
                assert(start + expr_text(*self) =~= start + (if is_additive(**a) {
                    parenthesized(expr_text(**a))
                } else {
                    expr_text(**a)
                }) + seq![' ', '*', ' '] + (if is_tight(**b) {
                    expr_text(**b)
                } else {
                    parenthesized(expr_text(**b))
                }));
            },
            Expr::Div(a, b) => {
                Expr::write_operand(a, additive(a), out);
                Expr::write_op('/', out);
                Expr::write_operand(b, !tight(b), out);
                assert(start + expr_text(*self) =~= start + (if is_additive(**a) {
                    parenthesized(expr_text(**a))
                } else {
                    expr_text(**a)
                }) + seq![' ', '/', ' '] + (if is_tight(**b) {
                    expr_text(**b)
                } else {
                    parenthesized(expr_text(**b))
                }));
            },
        }
    }

    /// The text of the expression.
    pub fn to_text(&self) -> (s: String)
        ensures
            s@ == expr_text(*self),
    {
        let mut out: Vec<char> = Vec::new();
        self.write_into(&mut out);
        assert(Seq::<char>::empty() + expr_text(*self) =~= expr_text(*self));
        string_of(&out)
    }
}

/// Wrapping an expression in a sine or a cosine.
pub trait Visitor: Sized {
    fn sin(e: Self) -> Self;

    fn cos(e: Self) -> Self;
}

impl Visitor for Expr {
    fn sin(e: Expr) -> (r: Expr)
        ensures
            r == Expr::Sin(Box::new(e)),
    {
        Expr::Sin(Box::new(e))
    }

    fn cos(e: Expr) -> (r: Expr)
        ensures
            r == Expr::Cos(Box::new(e)),
    {
        Expr::Cos(Box::new(e))
    }
}

impl core::ops::Neg for Expr {
    type Output = Expr;

    fn neg(self) -> (r: Expr)
        ensures
            r == Expr::Neg(Box::new(self)),
    {
        Expr::Neg(Box::new(self))
    }
}

impl core::ops::Add for Expr {
    type Output = Expr;

    fn add(self, other: Expr) -> (r: Expr)
        ensures
            r == Expr::Add(Box::new(self), Box::new(other)),
    {
        Expr::Add(Box::new(self), Box::new(other))
    }
}

impl core::ops::Sub for Expr {
    type Output = Expr;

    fn sub(self, other: Expr) -> (r: Expr)
        ensures
            r == Expr::Sub(Box::new(self), Box::new(other)),
    {
        Expr::Sub(Box::new(self), Box::new(other))
    }
}

impl core::ops::Mul for Expr {
    type Output = Expr;

    fn mul(self, other: Expr) -> (r: Expr)
        ensures
            r == Expr::Mul(Box::new(self), Box::new(other)),
    {
        Expr::Mul(Box::new(self), Box::new(other))
    }
}

impl core::ops::Div for Expr {
    type Output = Expr;

    fn div(self, other: Expr) -> (r: Expr)
        ensures
            r == Expr::Div(Box::new(self), Box::new(other)),
    {
        Expr::Div(Box::new(self), Box::new(other))
    }
}

impl vstd::std_specs::ops::NegSpecImpl for Expr {
    open spec fn obeys_neg_spec() -> bool {
        true
    }

    open spec fn neg_req(self) -> bool {
        true
    }

    open spec fn neg_spec(self) -> Expr {
        Expr::Neg(Box::new(self))
    }
}

impl vstd::std_specs::ops::AddSpecImpl for Expr {
    open spec fn obeys_add_spec() -> bool {
        true
    }

    open spec fn add_req(self, rhs: Expr) -> bool {
        true
    }

    open spec fn add_spec(self, rhs: Expr) -> Expr {
        Expr::Add(Box::new(self), Box::new(rhs))
    }
}

impl vstd::std_specs::ops::SubSpecImpl for Expr {
    open spec fn obeys_sub_spec() -> bool {
        true
    }

    open spec fn sub_req(self, rhs: Expr) -> bool {
        true
    }

    open spec fn sub_spec(self, rhs: Expr) -> Expr {
        Expr::Sub(Box::new(self), Box::new(rhs))
    }
}

impl vstd::std_specs::ops::MulSpecImpl for Expr {
    open spec fn obeys_mul_spec() -> bool {
        true
    }

    open spec fn mul_req(self, rhs: Expr) -> bool {
        true
    }

    open spec fn mul_spec(self, rhs: Expr) -> Expr {
        Expr::Mul(Box::new(self), Box::new(rhs))
    }
}

impl vstd::std_specs::ops::DivSpecImpl for Expr {
    open spec fn obeys_div_spec() -> bool {
        true
    }

    open spec fn div_req(self, rhs: Expr) -> bool {
        true
    }

    open spec fn div_spec(self, rhs: Expr) -> Expr {
        Expr::Div(Box::new(self), Box::new(rhs))
    }
}

impl Clone for Expr {
    fn clone(&self) -> (r: Self)
        ensures
            r == *self,
    {
        self.duplicate()
    }
}

} // verus!
