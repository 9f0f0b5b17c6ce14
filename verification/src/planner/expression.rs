//! Query expressions and their mathematical model.
use vstd::prelude::*;

use crate::planner::ids::{LabelId, PropertyId};
use crate::quantity::Quantity;

verus! {

/// The operators that take two operands.
#[derive(Clone, Copy, Debug, PartialEq, Eq, Structural)]
pub enum BinaryOp {
    Eq,
    Neq,
    Lt,
    Gt,
    Lte,
    Gte,
    And,
    Or,
    Add,
    Sub,
    Mul,
    Div,
    Mod,
    In,
    StartsWith,
    EndsWith,
    Contains,
    RegexMatch,
}

/// The operators that take one operand.
#[derive(Clone, Copy, Debug, PartialEq, Eq, Structural)]
pub enum UnaryOp {
    Not,
    Neg,
    IsNull,
    IsNotNull,
}

/// An expression of a query.
#[derive(Debug)]
pub enum Expression {
    Null,
    Bool(bool),
    Int(i64),
    Double(Quantity),
    String(String),
    Identifier(String),
    Property { object: Box<Expression>, key: PropertyId },
    Label { object: Box<Expression>, label: LabelId },
    Function { name: String, arguments: Vec<Expression>, distinct: bool },
    CountStar,
    List(Vec<Expression>),
    MapLiteral(Vec<(String, Expression)>),
    Case {
        expression: Option<Box<Expression>>,
        whens: Vec<(Expression, Expression)>,
        else_branch: Option<Box<Expression>>,
    },
    Binary(BinaryOp, Box<Expression>, Box<Expression>),
    Unary(UnaryOp, Box<Expression>),
    /// Any other kind of expression, carried by its text: the planner does not look inside.
    Other(String),
}

/// The mathematical model of an expression.
pub enum Expr {
    Null,
    Bool(bool),
    Int(i64),
    Double(Quantity),
    Text(Seq<char>),
    Identifier(Seq<char>),
    Property(Box<Expr>, PropertyId),
    Label(Box<Expr>, LabelId),
    Function(Seq<char>, Seq<Expr>, bool),
    CountStar,
    List(Seq<Expr>),
    MapLiteral(Seq<(Seq<char>, Expr)>),
    Case(Option<Box<Expr>>, Seq<(Expr, Expr)>, Option<Box<Expr>>),
    Binary(BinaryOp, Box<Expr>, Box<Expr>),
    Unary(UnaryOp, Box<Expr>),
    Other(Seq<char>),
}

/// The model of an expression.
pub open spec fn expr_view(e: Expression) -> Expr
    decreases e,
{
    match e {
        Expression::Null => Expr::Null,
        Expression::Bool(b) => Expr::Bool(b),
        Expression::Int(n) => Expr::Int(n),
        Expression::Double(q) => Expr::Double(q),
        Expression::String(s) => Expr::Text(s@),
        Expression::Identifier(s) => Expr::Identifier(s@),
        Expression::Property { object, key } => Expr::Property(Box::new(expr_view(*object)), key),
        Expression::Label { object, label } => Expr::Label(Box::new(expr_view(*object)), label),
        Expression::Function { name, arguments, distinct } => Expr::Function(
            name@,
            Seq::new(arguments@.len(), |i: int| if 0 <= i < arguments@.len() { expr_view(arguments@[i]) } else { Expr::Null }),
            distinct,
        ),
        Expression::CountStar => Expr::CountStar,
        Expression::List(items) => Expr::List(
            Seq::new(items@.len(), |i: int| if 0 <= i < items@.len() { expr_view(items@[i]) } else { Expr::Null }),
        ),
        Expression::MapLiteral(entries) => Expr::MapLiteral(
            Seq::new(
                entries@.len(),
                |i: int| if 0 <= i < entries@.len() { (entries@[i].0@, expr_view(entries@[i].1)) } else { (seq![], Expr::Null) },
            ),
        ),
        Expression::Case { expression, whens, else_branch } => Expr::Case(
            match expression {
                Some(x) => Some(Box::new(expr_view(*x))),
                None => None,
            },
            Seq::new(
                whens@.len(),
                |i: int|
                    if 0 <= i < whens@.len() {
                        (expr_view(whens@[i].0), expr_view(whens@[i].1))
                    } else {
                        (Expr::Null, Expr::Null)
                    },
            ),
            match else_branch {
                Some(x) => Some(Box::new(expr_view(*x))),
                None => None,
            },
        ),
        Expression::Binary(op, l, r) => Expr::Binary(op, Box::new(expr_view(*l)), Box::new(expr_view(*r))),
        Expression::Unary(op, x) => Expr::Unary(op, Box::new(expr_view(*x))),
        Expression::Other(s) => Expr::Other(s@),
    }
}

impl View for Expression {
    type V = Expr;

    open spec fn view(&self) -> Expr {
        expr_view(*self)
    }
}

/// A copy of a vector of expressions.
fn clone_expressions(v: &Vec<Expression>) -> (r: Vec<Expression>)
    ensures
        r@.len() == v@.len(),
        forall|i: int| 0 <= i < v@.len() ==> expr_view(#[trigger] r@[i]) == expr_view(v@[i]),
    decreases v@,
{
    let mut r: Vec<Expression> = Vec::new();
    let mut i: usize = 0;
    while i < v.len()
        invariant
            i <= v@.len(),
            r@.len() == i,
            forall|j: int| 0 <= j < i ==> expr_view(#[trigger] r@[j]) == expr_view(v@[j]),
        decreases v@.len() - i,
    {
        r.push(v[i].clone());
        i += 1;
    }
    r
}

impl Clone for Expression {
    fn clone(&self) -> (r: Self)
        ensures
            r@ == self@,
        decreases self,
    {
        match self {
            Expression::Null => Expression::Null,
            Expression::Bool(b) => Expression::Bool(*b),
            Expression::Int(n) => Expression::Int(*n),
            Expression::Double(q) => Expression::Double(q.clone()),
            Expression::String(s) => Expression::String(s.clone()),
            Expression::Identifier(s) => Expression::Identifier(s.clone()),
            Expression::Property { object, key } => Expression::Property { object: Box::new((**object).clone()), key: *key },
            Expression::Label { object, label } => Expression::Label { object: Box::new((**object).clone()), label: *label },
            Expression::Function { name, arguments, distinct } => {
                let args = clone_expressions(arguments);
                let r = Expression::Function { name: name.clone(), arguments: args, distinct: *distinct };
                assert(r@->Function_1 =~= self@->Function_1);
                r
            },
            Expression::CountStar => Expression::CountStar,
            Expression::List(items) => {
                let r = Expression::List(clone_expressions(items));
                assert(r@->List_0 =~= self@->List_0);
                r
            },
            Expression::MapLiteral(entries) => {
                let mut out: Vec<(String, Expression)> = Vec::new();
                let mut i: usize = 0;
                while i < entries.len()
                    invariant
                        i <= entries@.len(),
                        out@.len() == i,
                        self matches Expression::MapLiteral(e) && e == entries,
                        forall|j: int| 0 <= j < i ==> out@[j].0@ == entries@[j].0@ && expr_view(#[trigger] out@[j].1) == expr_view(entries@[j].1),
                    decreases entries@.len() - i,
                {
                    let k = entries[i].0.clone();
                    let x = entries[i].1.clone();
                    out.push((k, x));
                    i += 1;
                }
                let r = Expression::MapLiteral(out);
                assert(r@->MapLiteral_0 =~= self@->MapLiteral_0);
                r
            },
            Expression::Case { expression, whens, else_branch } => {
                let head = match expression {
                    Some(x) => Some(Box::new((**x).clone())),
                    None => None,
                };
                let tail = match else_branch {
                    Some(x) => Some(Box::new((**x).clone())),
                    None => None,
                };
                let mut out: Vec<(Expression, Expression)> = Vec::new();
                let mut i: usize = 0;
                while i < whens.len()
                    invariant
                        i <= whens@.len(),
                        out@.len() == i,
                        self matches Expression::Case { whens: w, .. } && w == whens,
                        forall|j: int|
                            0 <= j < i ==> expr_view((#[trigger] out@[j]).0) == expr_view(whens@[j].0) && expr_view(out@[j].1) == expr_view(
                                whens@[j].1,
                            ),
                    decreases whens@.len() - i,
                {
                    let w = whens[i].0.clone();
                    let t = whens[i].1.clone();
                    out.push((w, t));
                    i += 1;
                }
                let r = Expression::Case { expression: head, whens: out, else_branch: tail };
                assert(r@->Case_1 =~= self@->Case_1);
                r
            },
            Expression::Binary(op, l, r) => Expression::Binary(*op, Box::new((**l).clone()), Box::new((**r).clone())),
            Expression::Unary(op, x) => Expression::Unary(*op, Box::new((**x).clone())),
            Expression::Other(s) => Expression::Other(s.clone()),
        }
    }
}

} // verus!
