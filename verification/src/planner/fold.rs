//! Folding of constant subexpressions.
use vstd::prelude::*;

use crate::division::{truncated_quotient, truncated_remainder};
use crate::planner::expression::{expr_view, BinaryOp, Expr, Expression, UnaryOp};
use crate::quantity::{compared, decides, Compared, Quantity};
use crate::text::{precedes, text_precedes};

verus! {

/// Whether an integer is one of the machine's signed 64-bit integers.
pub open spec fn in_range(n: int) -> bool {
    i64::MIN <= n <= i64::MAX
}

/// How two literals of one kind stand to each other; `None` for anything else.
pub open spec fn literal_order<F: Fn(&Quantity, &Quantity) -> Compared>(l: Expr, r: Expr, compare: F) -> Option<Compared> {
    match (l, r) {
        (Expr::Int(a), Expr::Int(b)) => Some(
            if a < b {
                Compared::Less
            } else if a == b {
                Compared::Equal
            } else {
                Compared::Greater
            },
        ),
        (Expr::Double(a), Expr::Double(b)) => Some(compared(compare, a, b)),
        (Expr::Text(a), Expr::Text(b)) => Some(
            if a == b {
                Compared::Equal
            } else if text_precedes(a, b) {
                Compared::Less
            } else {
                Compared::Greater
            },
        ),
        (Expr::Bool(a), Expr::Bool(b)) => Some(
            if a == b {
                Compared::Equal
            } else if b {
                Compared::Less
            } else {
                Compared::Greater
            },
        ),
        _ => None,
    }
}

/// Whether a comparison operator holds of two values that stand to each other as given.
pub open spec fn order_holds(op: BinaryOp, c: Compared) -> bool {
    match op {
        BinaryOp::Eq => c == Compared::Equal,
        BinaryOp::Neq => c != Compared::Equal,
        BinaryOp::Lt => c == Compared::Less,
        BinaryOp::Gt => c == Compared::Greater,
        BinaryOp::Lte => c == Compared::Less || c == Compared::Equal,
        BinaryOp::Gte => c == Compared::Greater || c == Compared::Equal,
        _ => false,
    }
}

/// The truth of a comparison of two literals. Two nulls are equal and have no order; literals of
/// different kinds are left alone.
pub open spec fn literal_comparison<F: Fn(&Quantity, &Quantity) -> Compared>(
    op: BinaryOp,
    l: Expr,
    r: Expr,
    compare: F,
) -> Option<bool> {
    if l is Null && r is Null {
        match op {
            BinaryOp::Eq => Some(true),
            BinaryOp::Neq => Some(false),
            _ => None,
        }
    } else {
        match literal_order(l, r, compare) {
            Some(c) => Some(order_holds(op, c)),
            None => None,
        }
    }
}

/// A literal number as a quantity.
pub open spec fn as_quantity(e: Expr) -> Option<Quantity> {
    match e {
        Expr::Int(n) => Some(Quantity::Integer(n)),
        Expr::Double(q) => Some(q),
        _ => None,
    }
}

/// Whether a literal number is other than zero.
pub open spec fn is_nonzero<F: Fn(&Quantity, &Quantity) -> Compared>(e: Expr, compare: F) -> bool {
    match e {
        Expr::Int(n) => n != 0,
        Expr::Double(q) => compared(compare, q, Quantity::Count(0)) != Compared::Equal,
        _ => false,
    }
}

/// The exact result of an arithmetic operator on two integers.
pub open spec fn integer_result(op: BinaryOp, a: int, b: int) -> int {
    match op {
        BinaryOp::Add => a + b,
        BinaryOp::Sub => a - b,
        BinaryOp::Mul => a * b,
        BinaryOp::Div => truncated_quotient(a, b),
        _ => truncated_remainder(a, b),
    }
}

/// The quantity that an arithmetic operator gives for two quantities.
pub open spec fn quantity_result(op: BinaryOp, a: Quantity, b: Quantity) -> Quantity {
    match op {
        BinaryOp::Add => Quantity::Sum(Box::new(a), Box::new(b)),
        BinaryOp::Sub => Quantity::Difference(Box::new(a), Box::new(b)),
        BinaryOp::Mul => Quantity::Product(Box::new(a), Box::new(b)),
        _ => Quantity::Quotient(Box::new(a), Box::new(b)),
    }
}

/// An arithmetic operator on two folded operands. Two integers give an integer; where a double
/// takes part the result is a double, except that a remainder is taken of integers only. Nothing is
/// divided by zero.
pub open spec fn fold_arithmetic<F: Fn(&Quantity, &Quantity) -> Compared>(
    op: BinaryOp,
    l: Expr,
    r: Expr,
    compare: F,
) -> Expr {
    let divides = op is Div || op is Mod;
    if as_quantity(l) is None || as_quantity(r) is None || (divides && !is_nonzero(r, compare)) {
        Expr::Binary(op, Box::new(l), Box::new(r))
    } else if l is Int && r is Int {
        Expr::Int(integer_result(op, l->Int_0 as int, r->Int_0 as int) as i64)
    } else if op is Mod {
        Expr::Binary(op, Box::new(l), Box::new(r))
    } else {
        Expr::Double(quantity_result(op, as_quantity(l)->0, as_quantity(r)->0))
    }
}

/// A conjunction (`unit` true) or a disjunction (`unit` false) of two folded operands: the opposite
/// of `unit` absorbs, `unit` itself is dropped.
pub open spec fn fold_connective(op: BinaryOp, unit: bool, l: Expr, r: Expr) -> Expr {
    if l == Expr::Bool(!unit) || r == Expr::Bool(!unit) {
        Expr::Bool(!unit)
    } else if l == Expr::Bool(unit) {
        r
    } else if r == Expr::Bool(unit) {
        l
    } else {
        Expr::Binary(op, Box::new(l), Box::new(r))
    }
}

/// Whether an operator's operands are folded at all: tests of membership and of text are left as
/// they stand.
pub open spec fn looks_inside(op: BinaryOp) -> bool {
    match op {
        BinaryOp::In | BinaryOp::StartsWith | BinaryOp::EndsWith | BinaryOp::Contains | BinaryOp::RegexMatch => false,
        _ => true,
    }
}

/// A binary operator on two folded operands.
pub open spec fn fold_binary<F: Fn(&Quantity, &Quantity) -> Compared>(
    op: BinaryOp,
    l: Expr,
    r: Expr,
    compare: F,
) -> Expr {
    match op {
        BinaryOp::Add | BinaryOp::Sub | BinaryOp::Mul | BinaryOp::Div | BinaryOp::Mod => fold_arithmetic(op, l, r, compare),
        BinaryOp::And => fold_connective(op, true, l, r),
        BinaryOp::Or => fold_connective(op, false, l, r),
        _ => match literal_comparison(op, l, r, compare) {
            Some(b) => Expr::Bool(b),
            None => Expr::Binary(op, Box::new(l), Box::new(r)),
        },
    }
}

/// Whether a folded expression is a scalar literal other than null.
pub open spec fn is_scalar(e: Expr) -> bool {
    e is Bool || e is Int || e is Double || e is Text
}

/// A unary operator on a folded operand.
pub open spec fn fold_unary(op: UnaryOp, x: Expr) -> Expr {
    match op {
        UnaryOp::Not => match x {
            Expr::Bool(b) => Expr::Bool(!b),
            _ => Expr::Unary(op, Box::new(x)),
        },
        UnaryOp::Neg => match x {
            Expr::Int(n) => Expr::Int((-n) as i64),
            Expr::Double(q) => Expr::Double(Quantity::Negated(Box::new(q))),
            _ => Expr::Unary(op, Box::new(x)),
        },
        UnaryOp::IsNull | UnaryOp::IsNotNull => if x is Null {
            Expr::Bool(op is IsNull)
        } else if is_scalar(x) {
            Expr::Bool(op is IsNotNull)
        } else {
            Expr::Unary(op, Box::new(x))
        },
    }
}

/// An expression with its constant subexpressions evaluated, from the leaves up.
pub open spec fn folded<F: Fn(&Quantity, &Quantity) -> Compared>(e: Expr, compare: F) -> Expr
    decreases e,
{
    match e {
        Expr::Binary(op, l, r) => if looks_inside(op) {
            fold_binary(op, folded(*l, compare), folded(*r, compare), compare)
        } else {
            e
        },
        Expr::Unary(op, x) => fold_unary(op, folded(*x, compare)),
        Expr::List(items) => Expr::List(
            Seq::new(items.len(), |i: int| if 0 <= i < items.len() { folded(items[i], compare) } else { Expr::Null }),
        ),
        Expr::MapLiteral(entries) => Expr::MapLiteral(
            Seq::new(
                entries.len(),
                |i: int|
                    if 0 <= i < entries.len() {
                        (entries[i].0, folded(entries[i].1, compare))
                    } else {
                        (seq![], Expr::Null)
                    },
            ),
        ),
        Expr::Property(object, key) => Expr::Property(Box::new(folded(*object, compare)), key),
        Expr::Label(object, label) => Expr::Label(Box::new(folded(*object, compare)), label),
        Expr::Function(name, arguments, distinct) => Expr::Function(
            name,
            Seq::new(
                arguments.len(),
                |i: int| if 0 <= i < arguments.len() { folded(arguments[i], compare) } else { Expr::Null },
            ),
            distinct,
        ),
        Expr::Case(expression, whens, else_branch) => Expr::Case(
            match expression {
                Some(x) => Some(Box::new(folded(*x, compare))),
                None => None,
            },
            Seq::new(
                whens.len(),
                |i: int|
                    if 0 <= i < whens.len() {
                        (folded(whens[i].0, compare), folded(whens[i].1, compare))
                    } else {
                        (Expr::Null, Expr::Null)
                    },
            ),
            match else_branch {
                Some(x) => Some(Box::new(folded(*x, compare))),
                None => None,
            },
        ),
        _ => e,
    }
}

/// Whether a binary operator on two folded operands stays within the machine's integers.
pub open spec fn binary_fits(op: BinaryOp, l: Expr, r: Expr) -> bool {
    let arithmetic = op is Add || op is Sub || op is Mul || op is Div || op is Mod;
    let divides = op is Div || op is Mod;
    match (l, r) {
        (Expr::Int(a), Expr::Int(b)) => {
            arithmetic && !(divides && b == 0) ==> if divides {
                !(a == i64::MIN && b == -1)
            } else {
                in_range(integer_result(op, a as int, b as int))
            }
        },
        _ => true,
    }
}

/// Whether folding an expression stays within the machine's integers throughout.
pub open spec fn fits<F: Fn(&Quantity, &Quantity) -> Compared>(e: Expr, compare: F) -> bool
    decreases e,
{
    match e {
        Expr::Binary(op, l, r) => looks_inside(op) ==> {
            &&& fits(*l, compare)
            &&& fits(*r, compare)
            &&& binary_fits(op, folded(*l, compare), folded(*r, compare))
        },
        Expr::Unary(op, x) => {
            &&& fits(*x, compare)
            &&& op is Neg ==> folded(*x, compare) != Expr::Int(i64::MIN)
        },
        Expr::List(items) => forall|i: int| 0 <= i < items.len() ==> fits(#[trigger] items[i], compare),
        Expr::MapLiteral(entries) => forall|i: int| 0 <= i < entries.len() ==> fits((#[trigger] entries[i]).1, compare),
        Expr::Property(object, key) => fits(*object, compare),
        Expr::Label(object, label) => fits(*object, compare),
        Expr::Function(name, arguments, distinct) => forall|i: int|
            0 <= i < arguments.len() ==> fits(#[trigger] arguments[i], compare),
        Expr::Case(expression, whens, else_branch) => {
            &&& expression matches Some(x) ==> fits(*x, compare)
            &&& forall|i: int|
                0 <= i < whens.len() ==> fits((#[trigger] whens[i]).0, compare) && fits(whens[i].1, compare)
            &&& else_branch matches Some(x) ==> fits(*x, compare)
        },
        _ => true,
    }
}

fn int_order(a: i64, b: i64) -> (c: Compared)
    ensures
        c == (if a < b {
            Compared::Less
        } else if a == b {
            Compared::Equal
        } else {
            Compared::Greater
        }),
{
    if a < b {
        Compared::Less
    } else if a == b {
        Compared::Equal
    } else {
        Compared::Greater
    }
}

fn holds(op: BinaryOp, c: Compared) -> (r: bool)
    ensures
        r == order_holds(op, c),
{
    match op {
        BinaryOp::Eq => c == Compared::Equal,
        BinaryOp::Neq => c != Compared::Equal,
        BinaryOp::Lt => c == Compared::Less,
        BinaryOp::Gt => c == Compared::Greater,
        BinaryOp::Lte => c == Compared::Less || c == Compared::Equal,
        BinaryOp::Gte => c == Compared::Greater || c == Compared::Equal,
        _ => false,
    }
}

/// Evaluates a comparison of two literal expressions.
pub fn eval_const<F: Fn(&Quantity, &Quantity) -> Compared>(
    op: BinaryOp,
    lhs: &Expression,
    rhs: &Expression,
    compare: &F,
) -> (r: Option<bool>)
    requires
        decides(*compare),
    ensures
        r == literal_comparison(op, lhs@, rhs@, *compare),
{
    match (lhs, rhs) {
        (Expression::Int(a), Expression::Int(b)) => Some(holds(op, int_order(*a, *b))),
        (Expression::Double(a), Expression::Double(b)) => {
            let c = compare(a, b);
            Some(holds(op, c))
        },
        (Expression::String(a), Expression::String(b)) => {
            let c = if *a == *b {
                Compared::Equal
            } else if precedes(a.as_str(), b.as_str()) {
                Compared::Less
            } else {
                Compared::Greater
            };
            Some(holds(op, c))
        },
        (Expression::Bool(a), Expression::Bool(b)) => {
            let c = if *a == *b {
                Compared::Equal
            } else if *b {
                Compared::Less
            } else {
                Compared::Greater
            };
            Some(holds(op, c))
        },
        (Expression::Null, Expression::Null) => match op {
            BinaryOp::Eq => Some(true),
            BinaryOp::Neq => Some(false),
            _ => None,
        },
        _ => None,
    }
}

fn integer_arithmetic(op: BinaryOp, a: i64, b: i64) -> (r: i64)
    requires
        op is Add || op is Sub || op is Mul || op is Div || op is Mod,
        op is Div || op is Mod ==> b != 0,
        binary_fits(op, Expr::Int(a), Expr::Int(b)),
    ensures
        r == integer_result(op, a as int, b as int) as i64,
{
    match op {
        BinaryOp::Add => a + b,
        BinaryOp::Sub => a - b,
        BinaryOp::Mul => a * b,
        BinaryOp::Div => a / b,
        _ => a % b,
    }
}

fn quantity_arithmetic(op: BinaryOp, a: Quantity, b: Quantity) -> (r: Quantity)
    ensures
        r == quantity_result(op, a, b),
{
    match op {
        BinaryOp::Add => Quantity::Sum(Box::new(a), Box::new(b)),
        BinaryOp::Sub => Quantity::Difference(Box::new(a), Box::new(b)),
        BinaryOp::Mul => Quantity::Product(Box::new(a), Box::new(b)),
        _ => Quantity::Quotient(Box::new(a), Box::new(b)),
    }
}

fn literal_quantity(e: &Expression) -> (r: Option<Quantity>)
    ensures
        r == as_quantity(e@),
{
    match e {
        Expression::Int(n) => Some(Quantity::Integer(*n)),
        Expression::Double(q) => Some(q.clone()),
        _ => None,
    }
}

fn nonzero<F: Fn(&Quantity, &Quantity) -> Compared>(e: &Expression, compare: &F) -> (r: bool)
    requires
        decides(*compare),
    ensures
        r == is_nonzero(e@, *compare),
{
    match e {
        Expression::Int(n) => *n != 0,
        Expression::Double(q) => {
            let c = compare(q, &Quantity::Count(0));
            c != Compared::Equal
        },
        _ => false,
    }
}

fn arithmetic<F: Fn(&Quantity, &Quantity) -> Compared>(op: BinaryOp, l: Expression, r: Expression, compare: &F) -> (e:
    Expression)
    requires
        decides(*compare),
        op is Add || op is Sub || op is Mul || op is Div || op is Mod,
        binary_fits(op, l@, r@),
    ensures
        e@ == fold_arithmetic(op, l@, r@, *compare),
{
    let divides = match op {
        BinaryOp::Div | BinaryOp::Mod => true,
        _ => false,
    };
    let remainder = match op {
        BinaryOp::Mod => true,
        _ => false,
    };
    if divides && !nonzero(&r, compare) {
        return Expression::Binary(op, Box::new(l), Box::new(r));
    }
    if let (Expression::Int(a), Expression::Int(b)) = (&l, &r) {
        return Expression::Int(integer_arithmetic(op, *a, *b));
    }
    match (literal_quantity(&l), literal_quantity(&r)) {
        (Some(a), Some(b)) => if remainder {
            Expression::Binary(op, Box::new(l), Box::new(r))
        } else {
            Expression::Double(quantity_arithmetic(op, a, b))
        },
        _ => Expression::Binary(op, Box::new(l), Box::new(r)),
    }
}

fn is_bool(e: &Expression, value: bool) -> (r: bool)
    ensures
        r == (e@ == Expr::Bool(value)),
{
    match e {
        Expression::Bool(b) => *b == value,
        _ => false,
    }
}

fn connective(op: BinaryOp, unit: bool, l: Expression, r: Expression) -> (e: Expression)
    ensures
        e@ == fold_connective(op, unit, l@, r@),
{
    if is_bool(&l, !unit) || is_bool(&r, !unit) {
        Expression::Bool(!unit)
    } else if is_bool(&l, unit) {
        r
    } else if is_bool(&r, unit) {
        l
    } else {
        Expression::Binary(op, Box::new(l), Box::new(r))
    }
}

fn unary(op: UnaryOp, x: Expression) -> (e: Expression)
    requires
        op is Neg ==> x@ != Expr::Int(i64::MIN),
    ensures
        e@ == fold_unary(op, x@),
{
    match op {
        UnaryOp::Not => match x {
            Expression::Bool(b) => Expression::Bool(!b),
            _ => Expression::Unary(op, Box::new(x)),
        },
        UnaryOp::Neg => match x {
            Expression::Int(n) => Expression::Int(-n),
            Expression::Double(q) => Expression::Double(Quantity::Negated(Box::new(q))),
            _ => Expression::Unary(op, Box::new(x)),
        },
        UnaryOp::IsNull | UnaryOp::IsNotNull => {
            let asks_null = match op {
                UnaryOp::IsNull => true,
                _ => false,
            };
            match x {
                Expression::Null => Expression::Bool(asks_null),
                Expression::Bool(_) | Expression::Int(_) | Expression::Double(_) | Expression::String(_) => Expression::Bool(
                    !asks_null,
                ),
                _ => Expression::Unary(op, Box::new(x)),
            }
        },
    }
}

/// Folds every expression of a vector.
fn fold_all<F: Fn(&Quantity, &Quantity) -> Compared>(v: &Vec<Expression>, compare: &F) -> (r: Vec<Expression>)
    requires
        decides(*compare),
        forall|i: int| 0 <= i < v@.len() ==> #[trigger] fits(expr_view(v@[i]), *compare),
    ensures
        r@.len() == v@.len(),
        forall|i: int| 0 <= i < v@.len() ==> expr_view(#[trigger] r@[i]) == folded(expr_view(v@[i]), *compare),
    decreases v@,
{
    let mut r: Vec<Expression> = Vec::new();
    let mut i: usize = 0;
    while i < v.len()
        invariant
            decides(*compare),
            forall|i: int| 0 <= i < v@.len() ==> #[trigger] fits(expr_view(v@[i]), *compare),
            i <= v@.len(),
            r@.len() == i,
            forall|j: int| 0 <= j < i ==> expr_view(#[trigger] r@[j]) == folded(expr_view(v@[j]), *compare),
        decreases v@.len() - i,
    {
        let x = fold_expression(&v[i], compare);
        r.push(x);
        i += 1;
    }
    r
}

/// Folds the constant subexpressions of an expression, from the leaves up.
pub fn fold_expression<F: Fn(&Quantity, &Quantity) -> Compared>(expr: &Expression, compare: &F) -> (r: Expression)
    requires
        decides(*compare),
        fits(expr@, *compare),
    ensures
        r@ == folded(expr@, *compare),
    decreases expr,
{
    match expr {
        Expression::Binary(op, lhs, rhs) => match op {
            BinaryOp::In | BinaryOp::StartsWith | BinaryOp::EndsWith | BinaryOp::Contains | BinaryOp::RegexMatch => expr.clone(),
            BinaryOp::Add | BinaryOp::Sub | BinaryOp::Mul | BinaryOp::Div | BinaryOp::Mod => {
                let l = fold_expression(lhs, compare);
                let r = fold_expression(rhs, compare);
                arithmetic(*op, l, r, compare)
            },
            BinaryOp::And => {
                let l = fold_expression(lhs, compare);
                let r = fold_expression(rhs, compare);
                connective(*op, true, l, r)
            },
            BinaryOp::Or => {
                let l = fold_expression(lhs, compare);
                let r = fold_expression(rhs, compare);
                connective(*op, false, l, r)
            },
            _ => {
                let l = fold_expression(lhs, compare);
                let r = fold_expression(rhs, compare);
                match eval_const(*op, &l, &r, compare) {
                    Some(b) => Expression::Bool(b),
                    None => Expression::Binary(*op, Box::new(l), Box::new(r)),
                }
            },
        },
        Expression::Unary(op, inner) => {
            let x = fold_expression(inner, compare);
            unary(*op, x)
        },
        Expression::List(items) => {
            proof {
                assert forall|i: int| 0 <= i < items@.len() implies #[trigger] fits(expr_view(items@[i]), *compare) by {
                    assert(fits(expr@->List_0[i], *compare));
                }
            }
            let r = Expression::List(fold_all(items, compare));
            assert(r@->List_0 =~= folded(expr@, *compare)->List_0);
            r
        },
        Expression::MapLiteral(entries) => {
            let mut out: Vec<(String, Expression)> = Vec::new();
            let mut i: usize = 0;
            while i < entries.len()
                invariant
                    decides(*compare),
                    fits(expr@, *compare),
                    i <= entries@.len(),
                    out@.len() == i,
                    expr matches Expression::MapLiteral(e) && e == entries,
                    forall|j: int|
                        0 <= j < i ==> out@[j].0@ == entries@[j].0@ && expr_view(#[trigger] out@[j].1) == folded(
                            expr_view(entries@[j].1),
                            *compare,
                        ),
                decreases entries@.len() - i,
            {
                assert(fits(expr@->MapLiteral_0[i as int].1, *compare));
                let k = entries[i].0.clone();
                let x = fold_expression(&entries[i].1, compare);
                out.push((k, x));
                i += 1;
            }
            let r = Expression::MapLiteral(out);
            assert(r@->MapLiteral_0 =~= folded(expr@, *compare)->MapLiteral_0);
            r
        },
        Expression::Property { object, key } => Expression::Property {
            object: Box::new(fold_expression(object, compare)),
            key: *key,
        },
        Expression::Label { object, label } => Expression::Label {
            object: Box::new(fold_expression(object, compare)),
            label: *label,
        },
        Expression::Function { name, arguments, distinct } => {
            proof {
                assert forall|i: int| 0 <= i < arguments@.len() implies #[trigger] fits(
                    expr_view(arguments@[i]),
                    *compare,
                ) by {
                    assert(fits(expr@->Function_1[i], *compare));
                }
            }
            let args = fold_all(arguments, compare);
            let r = Expression::Function { name: name.clone(), arguments: args, distinct: *distinct };
            assert(r@->Function_1 =~= folded(expr@, *compare)->Function_1);
            r
        },
        Expression::Case { expression, whens, else_branch } => {
            let head = match expression {
                Some(x) => Some(Box::new(fold_expression(x, compare))),
                None => None,
            };
            let tail = match else_branch {
                Some(x) => Some(Box::new(fold_expression(x, compare))),
                None => None,
            };
            let mut out: Vec<(Expression, Expression)> = Vec::new();
            let mut i: usize = 0;
            while i < whens.len()
                invariant
                    decides(*compare),
                    fits(expr@, *compare),
                    i <= whens@.len(),
                    out@.len() == i,
                    expr matches Expression::Case { whens: w, .. } && w == whens,
                    forall|j: int|
                        0 <= j < i ==> expr_view((#[trigger] out@[j]).0) == folded(expr_view(whens@[j].0), *compare)
                            && expr_view(out@[j].1) == folded(expr_view(whens@[j].1), *compare),
                decreases whens@.len() - i,
            {
                assert(fits(expr@->Case_1[i as int].0, *compare));
                let w = fold_expression(&whens[i].0, compare);
                let t = fold_expression(&whens[i].1, compare);
                out.push((w, t));
                i += 1;
            }
            let r = Expression::Case { expression: head, whens: out, else_branch: tail };
            assert(r@->Case_1 =~= folded(expr@, *compare)->Case_1);
            r
        },
        _ => expr.clone(),
    }
}

fn binary_stays_in_range(op: BinaryOp, l: &Expression, r: &Expression) -> (b: bool)
    ensures
        b == binary_fits(op, l@, r@),
{
    match (l, r) {
        (Expression::Int(x), Expression::Int(y)) => {
            let a: i64 = *x;
            let b: i64 = *y;
            match op {
                BinaryOp::Add => a.checked_add(b).is_some(),
                BinaryOp::Sub => a.checked_sub(b).is_some(),
                BinaryOp::Mul => a.checked_mul(b).is_some(),
                BinaryOp::Div | BinaryOp::Mod => !(a == i64::MIN && b == -1),
                _ => true,
            }
        },
        _ => true,
    }
}

/// Decides whether folding an expression stays within the machine's integers throughout.
pub fn check_fits<F: Fn(&Quantity, &Quantity) -> Compared>(expr: &Expression, compare: &F) -> (b: bool)
    requires
        decides(*compare),
    ensures
        b == fits(expr@, *compare),
    decreases expr,
{
    match expr {
        Expression::Binary(op, lhs, rhs) => match op {
            BinaryOp::In | BinaryOp::StartsWith | BinaryOp::EndsWith | BinaryOp::Contains | BinaryOp::RegexMatch => true,
            _ => {
                if !check_fits(lhs, compare) || !check_fits(rhs, compare) {
                    return false;
                }
                let l = fold_expression(lhs, compare);
                let r = fold_expression(rhs, compare);
                binary_stays_in_range(*op, &l, &r)
            },
        },
        Expression::Unary(op, inner) => {
            if !check_fits(inner, compare) {
                return false;
            }
            match op {
                UnaryOp::Neg => match fold_expression(inner, compare) {
                    Expression::Int(n) => n != i64::MIN,
                    _ => true,
                },
                _ => true,
            }
        },
        Expression::List(items) => {
            let b = check_all_fit(items, compare);
            proof {
                let s = expr@->List_0;
                assert forall|i: int| 0 <= i < s.len() implies #[trigger] s[i] == expr_view(items@[i]) by {}
                if !b {
                    let i = choose|i: int| 0 <= i < items@.len() && !fits(expr_view(#[trigger] items@[i]), *compare);
                    assert(!fits(s[i], *compare));
                }
            }
            b
        },
        Expression::MapLiteral(entries) => {
            let ghost s = expr@->MapLiteral_0;
            let mut i: usize = 0;
            while i < entries.len()
                invariant
                    decides(*compare),
                    i <= entries@.len(),
                    expr matches Expression::MapLiteral(e) && e == entries,
                    s == expr@->MapLiteral_0,
                    forall|j: int| 0 <= j < i ==> fits((#[trigger] s[j]).1, *compare),
                decreases entries@.len() - i,
            {
                assert(s[i as int].1 == expr_view(entries@[i as int].1));
                if !check_fits(&entries[i].1, compare) {
                    return false;
                }
                i += 1;
            }
            true
        },
        Expression::Property { object, .. } => check_fits(object, compare),
        Expression::Label { object, .. } => check_fits(object, compare),
        Expression::Function { arguments, .. } => {
            let b = check_all_fit(arguments, compare);
            proof {
                let s = expr@->Function_1;
                assert forall|i: int| 0 <= i < s.len() implies #[trigger] s[i] == expr_view(arguments@[i]) by {}
                if !b {
                    let i = choose|i: int| 0 <= i < arguments@.len() && !fits(expr_view(#[trigger] arguments@[i]), *compare);
                    assert(!fits(s[i], *compare));
                }
            }
            b
        },
        Expression::Case { expression, whens, else_branch } => {
            if let Some(x) = expression {
                if !check_fits(x, compare) {
                    return false;
                }
            }
            if let Some(x) = else_branch {
                if !check_fits(x, compare) {
                    return false;
                }
            }
            let ghost s = expr@->Case_1;
            let mut i: usize = 0;
            while i < whens.len()
                invariant
                    decides(*compare),
                    i <= whens@.len(),
                    expr matches Expression::Case { whens: w, .. } && w == whens,
                    s == expr@->Case_1,
                    forall|j: int| 0 <= j < i ==> fits((#[trigger] s[j]).0, *compare) && fits(s[j].1, *compare),
                decreases whens@.len() - i,
            {
                assert(s[i as int].0 == expr_view(whens@[i as int].0));
                assert(s[i as int].1 == expr_view(whens@[i as int].1));
                if !check_fits(&whens[i].0, compare) || !check_fits(&whens[i].1, compare) {
                    return false;
                }
                i += 1;
            }
            true
        },
        _ => true,
    }
}

fn check_all_fit<F: Fn(&Quantity, &Quantity) -> Compared>(v: &Vec<Expression>, compare: &F) -> (b: bool)
    requires
        decides(*compare),
    ensures
        b == (forall|i: int| 0 <= i < v@.len() ==> fits(expr_view(#[trigger] v@[i]), *compare)),
    decreases v@,
{
    let mut i: usize = 0;
    while i < v.len()
        invariant
            decides(*compare),
            i <= v@.len(),
            forall|j: int| 0 <= j < i ==> fits(expr_view(#[trigger] v@[j]), *compare),
        decreases v@.len() - i,
    {
        if !check_fits(&v[i], compare) {
            return false;
        }
        i += 1;
    }
    true
}

/// Folding twice is folding once: what is folded is already in its simplest form.
pub proof fn fold_is_idempotent<F: Fn(&Quantity, &Quantity) -> Compared>(e: Expr, compare: F)
    ensures
        folded(folded(e, compare), compare) == folded(e, compare),
    decreases e,
{
    let f = folded(e, compare);
    match e {
        Expr::Binary(op, l, r) => {
            fold_is_idempotent(*l, compare);
            fold_is_idempotent(*r, compare);
        },
        Expr::Unary(op, x) => {
            fold_is_idempotent(*x, compare);
        },
        Expr::List(items) => {
            let g = f->List_0;
            assert forall|i: int| 0 <= i < items.len() implies folded(#[trigger] g[i], compare) == g[i] by {
                assert(g[i] == folded(items[i], compare));
                fold_is_idempotent(items[i], compare);
            }
            assert(folded(f, compare)->List_0 =~= f->List_0);
        },
        Expr::MapLiteral(entries) => {
            let g = f->MapLiteral_0;
            assert forall|i: int| 0 <= i < entries.len() implies folded((#[trigger] g[i]).1, compare) == g[i].1 by {
                assert(g[i].1 == folded(entries[i].1, compare));
                fold_is_idempotent(entries[i].1, compare);
            }
            assert(folded(f, compare)->MapLiteral_0 =~= f->MapLiteral_0);
        },
        Expr::Property(object, _) => {
            fold_is_idempotent(*object, compare);
        },
        Expr::Label(object, _) => {
            fold_is_idempotent(*object, compare);
        },
        Expr::Function(_, arguments, _) => {
            let g = f->Function_1;
            assert forall|i: int| 0 <= i < arguments.len() implies folded(#[trigger] g[i], compare) == g[i] by {
                assert(g[i] == folded(arguments[i], compare));
                fold_is_idempotent(arguments[i], compare);
            }
            assert(folded(f, compare)->Function_1 =~= f->Function_1);
        },
        Expr::Case(expression, whens, else_branch) => {
            if let Some(x) = expression {
                fold_is_idempotent(*x, compare);
            }
            if let Some(x) = else_branch {
                fold_is_idempotent(*x, compare);
            }
            let g = f->Case_1;
            assert forall|i: int| 0 <= i < whens.len() implies folded((#[trigger] g[i]).0, compare) == g[i].0 && folded(
                g[i].1,
                compare,
            ) == g[i].1 by {
                assert(g[i].0 == folded(whens[i].0, compare));
                assert(g[i].1 == folded(whens[i].1, compare));
                fold_is_idempotent(whens[i].0, compare);
                fold_is_idempotent(whens[i].1, compare);
            }
            assert(folded(f, compare)->Case_1 =~= f->Case_1);
        },
        _ => {},
    }
}

} // verus!
