//! Parsed queries: clauses, patterns and the items that they hold.
use vstd::prelude::*;

use crate::planner::expression::{Expr, Expression};
use crate::planner::ids::{EdgeTypeId, LabelId, PropertyId};

verus! {

/// The characters of an optional text.
pub open spec fn opt_text(o: Option<String>) -> Option<Seq<char>> {
    match o {
        Some(s) => Some(s@),
        None => None,
    }
}

/// The models of a sequence of values.
pub open spec fn views<T: View>(s: Seq<T>) -> Seq<T::V> {
    Seq::new(s.len(), |i: int| s[i]@)
}

/// The direction in which an edge is followed.
#[derive(Clone, Copy, Debug, PartialEq, Eq, Structural)]
pub enum Direction {
    Left,
    Right,
    Either,
}

/// A sort key.
#[derive(Debug)]
pub struct OrderByItem {
    pub expression: Expression,
    pub ascending: bool,
}

/// The model of a sort key.
pub struct OrderKey {
    pub expression: Expr,
    pub ascending: bool,
}

impl View for OrderByItem {
    type V = OrderKey;

    open spec fn view(&self) -> OrderKey {
        OrderKey { expression: self.expression@, ascending: self.ascending }
    }
}

impl Clone for OrderByItem {
    fn clone(&self) -> (r: Self)
        ensures
            r@ == self@,
    {
        OrderByItem { expression: self.expression.clone(), ascending: self.ascending }
    }
}

/// An expression with the name that its value is given.
#[derive(Debug)]
pub struct ReturnItem {
    pub expression: Expression,
    pub alias: Option<String>,
}

/// The model of an expression with a name.
pub struct NamedExpr {
    pub expression: Expr,
    pub alias: Option<Seq<char>>,
}

impl View for ReturnItem {
    type V = NamedExpr;

    open spec fn view(&self) -> NamedExpr {
        NamedExpr { expression: self.expression@, alias: opt_text(self.alias) }
    }
}

impl Clone for ReturnItem {
    fn clone(&self) -> (r: Self)
        ensures
            r@ == self@,
    {
        ReturnItem { expression: self.expression.clone(), alias: self.alias.clone() }
    }
}

/// A property with the expression that gives its value.
#[derive(Debug)]
pub struct PropertyEntry {
    pub key: PropertyId,
    pub value: Expression,
}

/// The model of a property entry.
pub struct PropertyExpr {
    pub key: PropertyId,
    pub value: Expr,
}

impl View for PropertyEntry {
    type V = PropertyExpr;

    open spec fn view(&self) -> PropertyExpr {
        PropertyExpr { key: self.key, value: self.value@ }
    }
}

impl Clone for PropertyEntry {
    fn clone(&self) -> (r: Self)
        ensures
            r@ == self@,
    {
        PropertyEntry { key: self.key, value: self.value.clone() }
    }
}

/// A vertex of a pattern.
#[derive(Debug)]
pub struct NodePattern {
    pub alias: Option<String>,
    pub labels: Vec<LabelId>,
    pub properties: Vec<PropertyEntry>,
}

/// An edge of a pattern.
#[derive(Debug)]
pub struct EdgePattern {
    pub alias: Option<String>,
    pub direction: Direction,
    pub edge_types: Vec<EdgeTypeId>,
    pub properties: Vec<PropertyEntry>,
}

/// An edge together with the vertex that it leads to.
#[derive(Debug)]
pub struct PatternStep {
    pub edge: EdgePattern,
    pub node: NodePattern,
}

/// A path of a pattern: a vertex and the steps taken from it.
#[derive(Debug)]
pub struct PatternElement {
    pub node: NodePattern,
    pub edges: Vec<PatternStep>,
}

/// The paths that a clause matches or creates.
#[derive(Debug)]
pub struct MatchPattern {
    pub elements: Vec<PatternElement>,
}

/// A `USING INDEX` hint.
#[derive(Clone, Copy, Debug, PartialEq, Eq, Structural)]
pub struct IndexHint {
    pub label: LabelId,
    pub property: Option<PropertyId>,
}

/// An assignment of a `SET` clause.
#[derive(Debug)]
pub enum SetItem {
    Property { key: PropertyId, value: Expression },
    /// Any other assignment; it contributes nothing to a plan.
    Other,
}

/// A clause of a query.
#[derive(Debug)]
#[allow(inconsistent_fields)]
pub enum Clause {
    Match { pattern: MatchPattern, where_clause: Option<Expression> },
    Create { pattern: MatchPattern },
    Return { items: Vec<ReturnItem>, distinct: bool, all: bool },
    With { items: Vec<ReturnItem>, where_clause: Option<Expression> },
    SetProperties { items: Vec<SetItem> },
    Delete { expressions: Vec<Expression>, detach: bool },
    OrderBy { items: Vec<OrderByItem> },
    Skip { count: Expression },
    Limit { count: Expression },
    Unwind { expression: Expression, alias: String },
    /// Any other clause; it contributes nothing to a plan.
    Other,
}

/// A parsed query.
#[derive(Debug)]
pub struct Query {
    pub clauses: Vec<Clause>,
    pub index_hints: Vec<IndexHint>,
}

} // verus!
