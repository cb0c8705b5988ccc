//! How the text of an expression reads: parentheses balance, and the
//! operator at which the text splits, read with the usual precedence and
//! left to right, is the one at the root of the expression.

use crate::expr::{
    digit_char, expr_text, int_text, is_additive, is_multiplicative, is_tight, nat_text,
    parenthesized, Expr,
};
use vstd::prelude::*;

verus! {

/// How a character changes the nesting of parentheses.
pub open spec fn paren_delta(c: char) -> int {
    if c == '(' {
        1
    } else if c == ')' {
        -1
    } else {
        0
    }
}

/// The nesting depth of parentheses after the text `s`.
pub open spec fn depth(s: Seq<char>) -> int
    decreases s.len(),
{
    if s.len() == 0 {
        0
    } else {
        depth(s.drop_last()) + paren_delta(s.last())
    }
}

/// Every parenthesis of `t` is closed after it is opened.
pub open spec fn balanced(t: Seq<char>) -> bool {
    &&& depth(t) == 0
    &&& forall|i: int| 0 <= i <= t.len() ==> depth(#[trigger] t.take(i)) >= 0
}

/// The characters at `i` are a space, `c1` or `c2`, and a space.
pub open spec fn op_chars(t: Seq<char>, i: int, c1: char, c2: char) -> bool {
    &&& 0 <= i
    &&& i + 3 <= t.len()
    &&& t[i] == ' '
    &&& (t[i + 1] == c1 || t[i + 1] == c2)
    &&& t[i + 2] == ' '
}

/// A binary operator `c1` or `c2`, written between spaces, stands at `i`
/// outside all parentheses.
pub open spec fn op_at(t: Seq<char>, i: int, c1: char, c2: char) -> bool {
    op_chars(t, i, c1, c2) && depth(t.take(i)) == 0
}

/// No operator `c1` or `c2` stands outside all parentheses.
pub open spec fn no_op(t: Seq<char>, c1: char, c2: char) -> bool {
    forall|i: int| !#[trigger] op_at(t, i, c1, c2)
}

/// The operator at `i` is the last `c1` or `c2` outside all parentheses.
pub open spec fn last_op(t: Seq<char>, i: int, c1: char, c2: char) -> bool {
    op_at(t, i, c1, c2) && forall|j: int| j > i ==> !#[trigger] op_at(t, j, c1, c2)
}

/// A character of a number or a name.
pub open spec fn leaf_char(c: char) -> bool {
    ('0' <= c && c <= '9') || ('a' <= c && c <= 'z') || ('A' <= c && c <= 'Z') || c == '.'
}

/// A text made only of digits, letters and points.
pub open spec fn leaf_text(t: Seq<char>) -> bool {
    t.len() > 0 && forall|i: int| 0 <= i < t.len() ==> leaf_char(#[trigger] t[i])
}

/// An expression whose numbers are not negative and whose names and
/// floating-point constants are written with digits, letters and points.
pub open spec fn plain(e: Expr) -> bool
    decreases e,
{
    match e {
        Expr::IntNumber(n) => n >= 0,
        Expr::FixedNumber(n, d) => n >= 0 && d >= 0,
        Expr::FloatNumber(t) => leaf_text(t@),
        Expr::Variable(v) => leaf_text(v@),
        Expr::Neg(x) => plain(*x),
        Expr::Sin(x) => plain(*x),
        Expr::Cos(x) => plain(*x),
        Expr::Add(a, b) => plain(*a) && plain(*b),
        Expr::Sub(a, b) => plain(*a) && plain(*b),
        Expr::Mul(a, b) => plain(*a) && plain(*b),
        Expr::Div(a, b) => plain(*a) && plain(*b),
    }
}

proof fn lemma_depth_concat(s1: Seq<char>, s2: Seq<char>)
    ensures
        depth(s1 + s2) == depth(s1) + depth(s2),
    decreases s2.len(),
{
    if s2.len() > 0 {
        assert((s1 + s2).drop_last() =~= s1 + s2.drop_last());
        lemma_depth_concat(s1, s2.drop_last());
    } else {
        assert(s1 + s2 =~= s1);
    }
}

proof fn lemma_take_concat(s1: Seq<char>, s2: Seq<char>, i: int)
    requires
        0 <= i <= s1.len() + s2.len(),
    ensures
        i <= s1.len() ==> (s1 + s2).take(i) == s1.take(i),
        i >= s1.len() ==> (s1 + s2).take(i) == s1 + s2.take(i - s1.len()),
{
    if i <= s1.len() {
        assert((s1 + s2).take(i) =~= s1.take(i));
    }
    if i >= s1.len() {
        assert((s1 + s2).take(i) =~= s1 + s2.take(i - s1.len()));
    }
}

/// The operators of a text put together from two: those of the first that
/// lie inside it, and those of the second; nothing straddles the join.
proof fn lemma_ops_concat(x: Seq<char>, y: Seq<char>, c1: char, c2: char)
    requires
        depth(x) == 0,
        forall|i: int| x.len() - 2 <= i < x.len() ==> !#[trigger] op_chars(x + y, i, c1, c2),
    ensures
        forall|i: int| #[trigger]
            op_at(x + y, i, c1, c2) <==> ((i + 3 <= x.len() && op_at(x, i, c1, c2)) || (i
                >= x.len() && op_at(y, i - x.len(), c1, c2))),
{
    let t = x + y;
    assert forall|i: int| #[trigger]
        op_at(t, i, c1, c2) <==> ((i + 3 <= x.len() && op_at(x, i, c1, c2)) || (i >= x.len()
            && op_at(y, i - x.len(), c1, c2))) by {
        if 0 <= i <= t.len() {
            lemma_take_concat(x, y, i);
            if i >= x.len() {
                lemma_depth_concat(x, y.take(i - x.len()));
                if i + 3 <= t.len() {
                    assert(t[i] == y[i - x.len()] && t[i + 1] == y[i - x.len() + 1] && t[i + 2]
                        == y[i - x.len() + 2]);
                }
            } else if i + 3 <= x.len() {
                assert(t[i] == x[i] && t[i + 1] == x[i + 1] && t[i + 2] == x[i + 2]);
            } else {
                assert(!op_chars(t, i, c1, c2) || i < x.len() - 2);
            }
        }
    }
}

/// Balanced texts put together are balanced.
proof fn lemma_balanced_concat(x: Seq<char>, y: Seq<char>)
    requires
        balanced(x),
        balanced(y),
    ensures
        balanced(x + y),
{
    lemma_depth_concat(x, y);
    assert forall|i: int| 0 <= i <= (x + y).len() implies depth(#[trigger] (x + y).take(i)) >= 0 by {
        lemma_take_concat(x, y, i);
        if i >= x.len() {
            lemma_depth_concat(x, y.take(i - x.len()));
        }
    }
}

/// A text without parentheses is balanced, at depth zero throughout.
proof fn lemma_paren_free(t: Seq<char>)
    requires
        forall|i: int| 0 <= i < t.len() ==> #[trigger] t[i] != '(' && t[i] != ')',
    ensures
        balanced(t),
        forall|i: int| 0 <= i <= t.len() ==> depth(#[trigger] t.take(i)) == 0,
{
    assert forall|i: int| 0 <= i <= t.len() implies depth(#[trigger] t.take(i)) == 0 by {
        lemma_flat_depth(t.take(i));
    }
    assert(t.take(t.len() as int) =~= t);
}

/// A text without parentheses and spaces is balanced and has no operators.
proof fn lemma_flat_text(t: Seq<char>, c1: char, c2: char)
    requires
        forall|i: int| 0 <= i < t.len() ==> #[trigger] t[i] != '(' && t[i] != ')' && t[i] != ' ',
    ensures
        balanced(t),
        no_op(t, c1, c2),
        forall|i: int| 0 <= i <= t.len() ==> depth(#[trigger] t.take(i)) == 0,
{
    assert forall|i: int| 0 <= i <= t.len() implies depth(#[trigger] t.take(i)) == 0 by {
        lemma_flat_depth(t.take(i));
    }
    assert(t.take(t.len() as int) =~= t);
}

proof fn lemma_flat_depth(t: Seq<char>)
    requires
        forall|i: int| 0 <= i < t.len() ==> #[trigger] t[i] != '(' && t[i] != ')',
    ensures
        depth(t) == 0,
    decreases t.len(),
{
    if t.len() > 0 {
        lemma_flat_depth(t.drop_last());
    }
}

/// A balanced text in parentheses is balanced and has no operator outside
/// all parentheses.
proof fn lemma_paren_text(x: Seq<char>, c1: char, c2: char)
    requires
        balanced(x),
    ensures
        balanced(parenthesized(x)),
        no_op(parenthesized(x), c1, c2),
{
    let p = parenthesized(x);
    let open = seq!['('];
    assert(p == open + x + seq![')']);
    lemma_depth_concat(open, x);
    lemma_depth_concat(open + x, seq![')']);
    assert(depth(open) == 1) by {
        assert(open.drop_last() =~= Seq::<char>::empty());
        assert(depth(open.drop_last()) == 0);
        assert(open.last() == '(');
    }
    assert(depth(seq![')']) == -1) by {
        assert(seq![')'].drop_last() =~= Seq::<char>::empty());
        assert(depth(seq![')'].drop_last()) == 0);
        assert(seq![')'].last() == ')');
    }
    assert forall|i: int| 1 <= i <= x.len() + 1 implies depth(#[trigger] p.take(i)) >= 1 by {
        assert(p.take(i) =~= open + x.take(i - 1));
        lemma_depth_concat(open, x.take(i - 1));
    }
    assert forall|i: int| 0 <= i <= p.len() implies depth(#[trigger] p.take(i)) >= 0 by {
        if i == 0 {
            assert(p.take(0) =~= Seq::<char>::empty());
        } else if i == p.len() {
            assert(p.take(i) =~= p);
        }
    }
    assert forall|i: int| !#[trigger] op_at(p, i, c1, c2) by {
        if op_at(p, i, c1, c2) {
            if i == 0 {
                assert(p[0] == '(');
            } else {
                assert(depth(p.take(i)) >= 1);
            }
        }
    }
}

/// The text begins with neither a space nor an operator, and a leading
/// minus sign is followed by something other than a space.
pub open spec fn starts_ok(t: Seq<char>) -> bool {
    &&& t.len() > 0
    &&& t[0] != ' ' && t[0] != '+' && t[0] != '*' && t[0] != '/'
    &&& t[0] == '-' ==> t.len() >= 2 && t[1] != ' '
}

/// The text ends with neither a space nor an operator.
pub open spec fn ends_ok(t: Seq<char>) -> bool {
    &&& t.len() > 0
    &&& t.last() != ' ' && t.last() != '+' && t.last() != '-' && t.last() != '*' && t.last() != '/'
}

/// Balanced, and neither beginning nor ending with an operator.
pub open spec fn well_written(t: Seq<char>) -> bool {
    balanced(t) && starts_ok(t) && ends_ok(t)
}

/// `l` and `r` joined by the binary operator `c` between spaces.
pub open spec fn joined(l: Seq<char>, c: char, r: Seq<char>) -> Seq<char> {
    l + seq![' ', c, ' '] + r
}

/// Two well-written texts joined by a binary operator `c` between spaces:
/// the result is well written, and its operators outside parentheses are
/// those of the left text, the joining one, and those of the right text.
proof fn lemma_binary_text(l: Seq<char>, c: char, r: Seq<char>, k1: char, k2: char)
    requires
        well_written(l),
        well_written(r),
        c == '+' || c == '-' || c == '*' || c == '/',
        k1 == '+' || k1 == '*',
        k2 == '-' || k2 == '/',
    ensures
        well_written(joined(l, c, r)),
        forall|i: int| #[trigger]
            op_at(joined(l, c, r), i, k1, k2) <==> ((i + 3 <= l.len() && op_at(l, i, k1, k2))
                || (i == l.len() && (c == k1 || c == k2)) || (i >= l.len() + 3 && op_at(
                r,
                i - l.len() - 3,
                k1,
                k2,
            ))),
{
    let op = seq![' ', c, ' '];
    let x = l + op;
    let t = x + r;
    lemma_paren_free(op);
    lemma_balanced_concat(l, op);
    lemma_balanced_concat(x, r);
    assert(depth(x) == 0) by {
        lemma_depth_concat(l, op);
    }
    assert forall|i: int| l.len() - 2 <= i < l.len() implies !#[trigger] op_chars(x, i, k1, k2) by {
        if i == l.len() - 1 {
            assert(x[i] == l.last());
        } else if i >= 0 {
            assert(x[i + 1] == l.last());
        }
    }
    lemma_ops_concat(l, op, k1, k2);
    assert forall|i: int| x.len() - 2 <= i < x.len() implies !#[trigger] op_chars(t, i, k1, k2) by {
        if i == x.len() - 2 {
            assert(t[i] == c);
        } else {
            assert(t[i + 1] == r[0]);
            if r[0] == k1 || r[0] == k2 {
                assert(t[i + 2] == r[1]);
            }
        }
    }
    lemma_ops_concat(x, r, k1, k2);
    assert forall|i: int| #[trigger]
        op_at(t, i, k1, k2) <==> ((i + 3 <= l.len() && op_at(l, i, k1, k2)) || (i == l.len() && (c
            == k1 || c == k2)) || (i >= l.len() + 3 && op_at(r, i - l.len() - 3, k1, k2))) by {
        if i + 3 <= x.len() && i >= l.len() {
            assert(i == l.len());
            assert(op_at(op, 0, k1, k2) == (c == k1 || c == k2)) by {
                assert(op.take(0) =~= Seq::<char>::empty());
            }
        }
    }
    assert(t[0] == l[0]);
    if l[0] == '-' {
        assert(t[1] == l[1]);
    }
    assert(t.last() == r.last());
}

/// A well-written text after a prefix of letters or a minus sign: well
/// written, with the operators of the text after the prefix.
proof fn lemma_prefixed_text(pre: Seq<char>, r: Seq<char>, k1: char, k2: char)
    requires
        pre == seq!['-'] || pre == seq!['s', 'i', 'n'] || pre == seq!['c', 'o', 's'],
        well_written(r),
        r[0] == '(' || pre == seq!['-'],
    ensures
        well_written(pre + r),
        forall|i: int| #[trigger] op_at(pre + r, i, k1, k2) <==> (i >= pre.len() && op_at(r, i - pre.len(), k1, k2)),
{
    let t = pre + r;
    lemma_flat_text(pre, k1, k2);
    lemma_balanced_concat(pre, r);
    assert forall|i: int| pre.len() - 2 <= i < pre.len() implies !#[trigger] op_chars(t, i, k1, k2) by {
        if i >= 0 {
            assert(t[i] == pre[i]);
        }
    }
    lemma_ops_concat(pre, r, k1, k2);
    assert(t[0] == pre[0]);
    if pre == seq!['-'] {
        assert(t[1] == r[0]);
    }
    assert(t.last() == r.last());
}

/// The decimal digits of a number are digits, at least one.
proof fn lemma_nat_text_digits(n: nat)
    ensures
        nat_text(n).len() > 0,
        forall|i: int| 0 <= i < nat_text(n).len() ==> '0' <= #[trigger] nat_text(n)[i] <= '9',
    decreases n,
{
    if n >= 10 {
        lemma_nat_text_digits(n / 10);
    }
}

/// A text of digits, letters and points is well written, without operators.
proof fn lemma_leaf_written(t: Seq<char>)
    requires
        leaf_text(t),
    ensures
        well_written(t),
        no_op(t, '+', '-'),
        no_op(t, '*', '/'),
{
    assert forall|i: int| 0 <= i < t.len() implies #[trigger] t[i] != '(' && t[i] != ')' && t[i] != ' ' by {
        assert(leaf_char(t[i]));
    }
    lemma_flat_text(t, '+', '-');
    lemma_flat_text(t, '*', '/');
    assert(leaf_char(t[0]));
    assert(leaf_char(t.last()));
}

/// The text of the left operand of a product or quotient: in parentheses
/// when it is a sum or difference.
pub open spec fn factor_text(a: Expr) -> Seq<char> {
    if is_additive(a) {
        parenthesized(expr_text(a))
    } else {
        expr_text(a)
    }
}

/// The text of an operand written in parentheses unless `bare`.
spec fn operand_text(x: Expr, bare: bool) -> Seq<char> {
    if bare {
        expr_text(x)
    } else {
        parenthesized(expr_text(x))
    }
}

/// An operand's text is well written, and has the operators of its
/// expression's text if bare, none if in parentheses.
proof fn lemma_operand(x: Expr, bare: bool)
    requires
        well_written(expr_text(x)),
    ensures
        well_written(operand_text(x, bare)),
        !bare ==> no_op(operand_text(x, bare), '+', '-') && no_op(operand_text(x, bare), '*', '/')
            && operand_text(x, bare)[0] == '(',
{
    if !bare {
        let p = parenthesized(expr_text(x));
        lemma_paren_text(expr_text(x), '+', '-');
        lemma_paren_text(expr_text(x), '*', '/');
        assert(p[0] == '(');
        assert(p.last() == ')');
    }
}

/// The shape of the text of a plain expression: its parentheses balance;
/// outside parentheses, a text that is not a sum or difference has no `+`
/// or `-` operator, and one that is not a product or quotient either has no
/// `*` or `/` operator; and the text of a sum, difference, product or
/// quotient splits at its last operator of that precedence outside
/// parentheses, between the texts of its two operands.
pub proof fn lemma_text_shape(e: Expr)
    requires
        plain(e),
    ensures
        well_written(expr_text(e)),
        !is_additive(e) ==> no_op(expr_text(e), '+', '-'),
        !is_additive(e) && !is_multiplicative(e) ==> no_op(expr_text(e), '*', '/'),
        e matches Expr::Add(a, b) ==> last_op(expr_text(e), expr_text(*a).len() as int, '+', '-')
            && expr_text(e)[expr_text(*a).len() + 1int] == '+',
        e matches Expr::Sub(a, b) ==> last_op(expr_text(e), expr_text(*a).len() as int, '+', '-')
            && expr_text(e)[expr_text(*a).len() + 1int] == '-',
        e matches Expr::Mul(a, b) ==> last_op(expr_text(e), factor_text(*a).len() as int, '*', '/')
            && expr_text(e)[factor_text(*a).len() + 1int] == '*',
        e matches Expr::Div(a, b) ==> last_op(expr_text(e), factor_text(*a).len() as int, '*', '/')
            && expr_text(e)[factor_text(*a).len() + 1int] == '/',
    decreases e,
{
    let t = expr_text(e);
    match e {
        Expr::IntNumber(n) => {
            lemma_nat_text_digits(n as nat);
            assert(leaf_text(t)) by {
                assert forall|i: int| 0 <= i < t.len() implies leaf_char(#[trigger] t[i]) by {
                    assert('0' <= nat_text(n as nat)[i] <= '9');
                }
            }
            lemma_leaf_written(t);
        },
        Expr::FixedNumber(n, d) => {
            lemma_nat_text_digits(n as nat);
            lemma_nat_text_digits(d as nat);
            let tn = nat_text(n as nat);
            let td = nat_text(d as nat);
            assert(t == tn + seq!['.'] + td);
            assert(leaf_text(t)) by {
                assert forall|i: int| 0 <= i < t.len() implies leaf_char(#[trigger] t[i]) by {
                    if i < tn.len() {
                        assert(t[i] == tn[i]);
                        assert('0' <= tn[i] <= '9');
                    } else if i > tn.len() {
                        assert(t[i] == td[i - tn.len() - 1]);
                        assert('0' <= td[i - tn.len() - 1] <= '9');
                    }
                }
            }
            lemma_leaf_written(t);
        },
        Expr::FloatNumber(f) => {
            lemma_leaf_written(t);
        },
        Expr::Variable(v) => {
            lemma_leaf_written(t);
        },
        Expr::Neg(x) => {
            lemma_text_shape(*x);
            let bare = is_tight(*x);
            lemma_operand(*x, bare);
            let r = operand_text(*x, bare);
            assert(t == seq!['-'] + r);
            lemma_prefixed_text(seq!['-'], r, '+', '-');
            lemma_prefixed_text(seq!['-'], r, '*', '/');
        },
        Expr::Sin(x) => {
            lemma_text_shape(*x);
            lemma_operand(*x, false);
            let r = operand_text(*x, false);
            assert(t == seq!['s', 'i', 'n'] + r);
            lemma_prefixed_text(seq!['s', 'i', 'n'], r, '+', '-');
            lemma_prefixed_text(seq!['s', 'i', 'n'], r, '*', '/');
        },
        Expr::Cos(x) => {
            lemma_text_shape(*x);
            lemma_operand(*x, false);
            let r = operand_text(*x, false);
            assert(t == seq!['c', 'o', 's'] + r);
            lemma_prefixed_text(seq!['c', 'o', 's'], r, '+', '-');
            lemma_prefixed_text(seq!['c', 'o', 's'], r, '*', '/');
        },
        Expr::Add(a, b) => {
            lemma_text_shape(*a);
            lemma_text_shape(*b);
            let bare = is_tight(*b) || crate::expr::is_multiplicative(*b);
            lemma_operand(*b, bare);
            let l = expr_text(*a);
            let r = operand_text(*b, bare);
            assert(t == joined(l, '+', r));
            lemma_binary_text(l, '+', r, '+', '-');
        },
        Expr::Sub(a, b) => {
            lemma_text_shape(*a);
            lemma_text_shape(*b);
            let bare = is_tight(*b) || crate::expr::is_multiplicative(*b);
            lemma_operand(*b, bare);
            let l = expr_text(*a);
            let r = operand_text(*b, bare);
            assert(t == joined(l, '-', r));
            lemma_binary_text(l, '-', r, '+', '-');
        },
        Expr::Mul(a, b) => {
            lemma_text_shape(*a);
            lemma_text_shape(*b);
            lemma_operand(*a, !is_additive(*a));
            lemma_operand(*b, is_tight(*b));
            let l = operand_text(*a, !is_additive(*a));
            let r = operand_text(*b, is_tight(*b));
            assert(l == factor_text(*a));
            assert(t == joined(l, '*', r));
            lemma_binary_text(l, '*', r, '+', '-');
            lemma_binary_text(l, '*', r, '*', '/');
        },
        Expr::Div(a, b) => {
            lemma_text_shape(*a);
            lemma_text_shape(*b);
            lemma_operand(*a, !is_additive(*a));
            lemma_operand(*b, is_tight(*b));
            let l = operand_text(*a, !is_additive(*a));
            let r = operand_text(*b, is_tight(*b));
            assert(l == factor_text(*a));
            assert(t == joined(l, '/', r));
            lemma_binary_text(l, '/', r, '+', '-');
            lemma_binary_text(l, '/', r, '*', '/');
        },
    }
}

/// The tree of an expression, with each number or name as the text it is
/// written with.
pub enum ExprShape {
    Leaf(Seq<char>),
    Neg(Box<ExprShape>),
    Sin(Box<ExprShape>),
    Cos(Box<ExprShape>),
    Add(Box<ExprShape>, Box<ExprShape>),
    Sub(Box<ExprShape>, Box<ExprShape>),
    Mul(Box<ExprShape>, Box<ExprShape>),
    Div(Box<ExprShape>, Box<ExprShape>),
}

/// The tree of `e`.
pub open spec fn shape(e: Expr) -> ExprShape
    decreases e,
{
    match e {
        Expr::IntNumber(_) | Expr::FixedNumber(_, _) | Expr::FloatNumber(_) | Expr::Variable(_) => {
            ExprShape::Leaf(expr_text(e))
        },
        Expr::Neg(x) => ExprShape::Neg(Box::new(shape(*x))),
        Expr::Sin(x) => ExprShape::Sin(Box::new(shape(*x))),
        Expr::Cos(x) => ExprShape::Cos(Box::new(shape(*x))),
        Expr::Add(a, b) => ExprShape::Add(Box::new(shape(*a)), Box::new(shape(*b))),
        Expr::Sub(a, b) => ExprShape::Sub(Box::new(shape(*a)), Box::new(shape(*b))),
        Expr::Mul(a, b) => ExprShape::Mul(Box::new(shape(*a)), Box::new(shape(*b))),
        Expr::Div(a, b) => ExprShape::Div(Box::new(shape(*a)), Box::new(shape(*b))),
    }
}

/// Reads a text as arithmetic with the usual precedence, operators of equal
/// precedence grouping to the left: at the last `+` or `-` outside
/// parentheses if there is one, else at the last `*` or `/`; else a leading
/// minus sign, a text in parentheses, a sine or cosine, or a number or name.
pub open spec fn read_text(t: Seq<char>) -> ExprShape
    decreases t.len(),
{
    if exists|i: int| last_op(t, i, '+', '-') {
        let i = choose|i: int| last_op(t, i, '+', '-');
        let l = read_text(t.take(i));
        let r = read_text(t.skip(i + 3));
        if t[i + 1] == '+' {
            ExprShape::Add(Box::new(l), Box::new(r))
        } else {
            ExprShape::Sub(Box::new(l), Box::new(r))
        }
    } else if exists|i: int| last_op(t, i, '*', '/') {
        let i = choose|i: int| last_op(t, i, '*', '/');
        let l = read_text(t.take(i));
        let r = read_text(t.skip(i + 3));
        if t[i + 1] == '*' {
            ExprShape::Mul(Box::new(l), Box::new(r))
        } else {
            ExprShape::Div(Box::new(l), Box::new(r))
        }
    } else if t.len() >= 1 && t[0] == '-' {
        ExprShape::Neg(Box::new(read_text(t.skip(1))))
    } else if t.len() >= 2 && t[0] == '(' {
        read_text(t.subrange(1, t.len() - 1))
    } else if t.len() >= 4 && t[3] == '(' && t.take(3) == seq!['s', 'i', 'n'] {
        ExprShape::Sin(Box::new(read_text(t.skip(3))))
    } else if t.len() >= 4 && t[3] == '(' && t.take(3) == seq!['c', 'o', 's'] {
        ExprShape::Cos(Box::new(read_text(t.skip(3))))
    } else {
        ExprShape::Leaf(t)
    }
}

proof fn lemma_last_op_unique(t: Seq<char>, i: int, c1: char, c2: char)
    requires
        last_op(t, i, c1, c2),
    ensures
        (choose|j: int| last_op(t, j, c1, c2)) == i,
{
    let j = choose|j: int| last_op(t, j, c1, c2);
    assert(last_op(t, j, c1, c2));
    if j > i {
        assert(!op_at(t, j, c1, c2));
    } else if j < i {
        assert(!op_at(t, i, c1, c2));
    }
}

proof fn lemma_no_last_op(t: Seq<char>, c1: char, c2: char)
    requires
        no_op(t, c1, c2),
    ensures
        !exists|i: int| last_op(t, i, c1, c2),
{
    if exists|i: int| last_op(t, i, c1, c2) {
        let i = choose|i: int| last_op(t, i, c1, c2);
        assert(op_at(t, i, c1, c2));
    }
}

/// Reading an operand's text gives its expression's tree, in parentheses or
/// not.
proof fn lemma_read_operand(x: Expr, bare: bool)
    requires
        plain(x),
        read_text(expr_text(x)) == shape(x),
    ensures
        read_text(operand_text(x, bare)) == shape(x),
{
    if !bare {
        lemma_text_shape(x);
        let p = parenthesized(expr_text(x));
        lemma_paren_text(expr_text(x), '+', '-');
        lemma_paren_text(expr_text(x), '*', '/');
        lemma_no_last_op(p, '+', '-');
        lemma_no_last_op(p, '*', '/');
        assert(p[0] == '(');
        assert(p.subrange(1, p.len() - 1) =~= expr_text(x));
    }
}

/// The text of a plain expression, read with the usual precedence and
/// operators of equal precedence grouping to the left, gives back the
/// expression's tree: the parentheses it carries are exactly enough.
pub proof fn lemma_text_reads_back(e: Expr)
    requires
        plain(e),
    ensures
        read_text(expr_text(e)) == shape(e),
    decreases e,
{
    let t = expr_text(e);
    lemma_text_shape(e);
    match e {
        Expr::IntNumber(_) | Expr::FixedNumber(_, _) | Expr::FloatNumber(_) | Expr::Variable(_) => {
            lemma_no_last_op(t, '+', '-');
            lemma_no_last_op(t, '*', '/');
            lemma_leaf_of(e);
            assert(leaf_char(t[0]));
            if t.len() >= 4 {
                assert(leaf_char(t[3]));
            }
        },
        Expr::Neg(x) => {
            lemma_text_reads_back(*x);
            lemma_no_last_op(t, '+', '-');
            lemma_no_last_op(t, '*', '/');
            let bare = is_tight(*x);
            lemma_read_operand(*x, bare);
            assert(t.skip(1) =~= operand_text(*x, bare));
        },
        Expr::Sin(x) => {
            lemma_text_reads_back(*x);
            lemma_no_last_op(t, '+', '-');
            lemma_no_last_op(t, '*', '/');
            lemma_read_operand(*x, false);
            assert(t.skip(3) =~= operand_text(*x, false));
            assert(t.take(3) =~= seq!['s', 'i', 'n']);
        },
        Expr::Cos(x) => {
            lemma_text_reads_back(*x);
            lemma_no_last_op(t, '+', '-');
            lemma_no_last_op(t, '*', '/');
            lemma_read_operand(*x, false);
            assert(t.skip(3) =~= operand_text(*x, false));
            assert(t.take(3) =~= seq!['c', 'o', 's']);
            assert(t.take(3) != seq!['s', 'i', 'n']) by {
                assert(t.take(3)[0] == 'c');
            }
        },
        Expr::Add(a, b) => {
            lemma_text_reads_back(*a);
            lemma_text_reads_back(*b);
            let bare = is_tight(*b) || crate::expr::is_multiplicative(*b);
            lemma_read_operand(*b, bare);
            let l = expr_text(*a);
            lemma_last_op_unique(t, l.len() as int, '+', '-');
            assert(t.take(l.len() as int) =~= l);
            assert(t.skip(l.len() + 3int) =~= operand_text(*b, bare));
        },
        Expr::Sub(a, b) => {
            lemma_text_reads_back(*a);
            lemma_text_reads_back(*b);
            let bare = is_tight(*b) || crate::expr::is_multiplicative(*b);
            lemma_read_operand(*b, bare);
            let l = expr_text(*a);
            lemma_last_op_unique(t, l.len() as int, '+', '-');
            assert(t.take(l.len() as int) =~= l);
            assert(t.skip(l.len() + 3int) =~= operand_text(*b, bare));
        },
        Expr::Mul(a, b) => {
            lemma_text_reads_back(*a);
            lemma_text_reads_back(*b);
            lemma_no_last_op(t, '+', '-');
            lemma_read_operand(*a, !is_additive(*a));
            lemma_read_operand(*b, is_tight(*b));
            let l = factor_text(*a);
            assert(l == operand_text(*a, !is_additive(*a)));
            lemma_last_op_unique(t, l.len() as int, '*', '/');
            assert(t.take(l.len() as int) =~= l);
            assert(t.skip(l.len() + 3int) =~= operand_text(*b, is_tight(*b)));
        },
        Expr::Div(a, b) => {
            lemma_text_reads_back(*a);
            lemma_text_reads_back(*b);
            lemma_no_last_op(t, '+', '-');
            lemma_read_operand(*a, !is_additive(*a));
            lemma_read_operand(*b, is_tight(*b));
            let l = factor_text(*a);
            assert(l == operand_text(*a, !is_additive(*a)));
            lemma_last_op_unique(t, l.len() as int, '*', '/');
            assert(t.take(l.len() as int) =~= l);
            assert(t.skip(l.len() + 3int) =~= operand_text(*b, is_tight(*b)));
        },
    }
}

/// The text of a plain number or name is made of digits, letters and points.
proof fn lemma_leaf_of(e: Expr)
    requires
        plain(e),
        is_tight(e),
        !(e is Sin),
        !(e is Cos),
    ensures
        leaf_text(expr_text(e)),
{
    let t = expr_text(e);
    match e {
        Expr::IntNumber(n) => {
            lemma_nat_text_digits(n as nat);
            assert forall|i: int| 0 <= i < t.len() implies leaf_char(#[trigger] t[i]) by {
                assert('0' <= nat_text(n as nat)[i] <= '9');
            }
        },
        Expr::FixedNumber(n, d) => {
            lemma_nat_text_digits(n as nat);
            lemma_nat_text_digits(d as nat);
            let tn = nat_text(n as nat);
            let td = nat_text(d as nat);
            assert forall|i: int| 0 <= i < t.len() implies leaf_char(#[trigger] t[i]) by {
                if i < tn.len() {
                    assert(t[i] == tn[i]);
                    assert('0' <= tn[i] <= '9');
                } else if i > tn.len() {
                    assert(t[i] == td[i - tn.len() - 1]);
                    assert('0' <= td[i - tn.len() - 1] <= '9');
                }
            }
        },
        _ => {},
    }
}

} // verus!
