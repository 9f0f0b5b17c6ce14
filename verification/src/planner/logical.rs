//! Logical plans and their mathematical model.
use vstd::prelude::*;

use crate::planner::expression::{Expr, Expression};
use crate::planner::ids::{EdgeTypeId, LabelId, PropertyId};
use crate::planner::query::{opt_text, views, Direction, NamedExpr, OrderByItem, OrderKey, PropertyEntry, PropertyExpr, ReturnItem};
use crate::planner::value::{PropertyValue, Value};
use crate::quantity::Quantity;

verus! {

/// The cost that a plan is estimated at.
#[derive(Debug)]
pub struct PlanCost {
    pub cpu: Quantity,
    pub io: Quantity,
}

impl PlanCost {
    /// The cost of doing nothing.
    pub open spec fn zero() -> PlanCost {
        PlanCost { cpu: Quantity::Count(0), io: Quantity::Count(0) }
    }

    /// A cost that is all computation.
    pub open spec fn of_cpu(cpu: Quantity) -> PlanCost {
        PlanCost { cpu, io: Quantity::Count(0) }
    }

    pub fn default() -> (r: Self)
        ensures
            r == Self::zero(),
    {
        PlanCost { cpu: Quantity::Count(0), io: Quantity::Count(0) }
    }

    pub fn cpu_only(cpu: Quantity) -> (r: Self)
        ensures
            r == Self::of_cpu(cpu),
    {
        PlanCost { cpu, io: Quantity::Count(0) }
    }

    /// The sum of both parts.
    pub fn total(&self) -> (r: Quantity)
        ensures
            r == Quantity::Sum(Box::new(self.cpu), Box::new(self.io)),
    {
        Quantity::Sum(Box::new(self.cpu.clone()), Box::new(self.io.clone()))
    }
}

impl Clone for PlanCost {
    fn clone(&self) -> (r: Self)
        ensures
            r == *self,
    {
        PlanCost { cpu: self.cpu.clone(), io: self.io.clone() }
    }
}

/// How two inputs are joined.
#[derive(Debug)]
pub enum JoinType {
    NestedLoop,
    HashJoin { left_key: String, right_key: String },
}

/// The model of a join type.
pub enum JoinKind {
    NestedLoop,
    HashJoin(Seq<char>, Seq<char>),
}

impl View for JoinType {
    type V = JoinKind;

    open spec fn view(&self) -> JoinKind {
        match *self {
            JoinType::NestedLoop => JoinKind::NestedLoop,
            JoinType::HashJoin { left_key, right_key } => JoinKind::HashJoin(left_key@, right_key@),
        }
    }
}

impl Clone for JoinType {
    fn clone(&self) -> (r: Self)
        ensures
            r@ == self@,
    {
        match self {
            JoinType::NestedLoop => JoinType::NestedLoop,
            JoinType::HashJoin { left_key, right_key } => JoinType::HashJoin {
                left_key: left_key.clone(),
                right_key: right_key.clone(),
            },
        }
    }
}

/// An operator of a logical plan. Operators with one input do not hold it: clauses are chained by
/// joins, whose left side is what the right side works on.
#[derive(Debug)]
#[allow(inconsistent_fields)]
pub enum LogicalOp {
    AllScan { alias: Option<String> },
    LabelScan { alias: Option<String>, label: LabelId },
    LabelPropertyScan { alias: Option<String>, label: LabelId, property: PropertyId, value: PropertyValue },
    EdgeTypeScan { alias: Option<String>, edge_type: EdgeTypeId },
    EdgeTypePropertyScan { alias: Option<String>, edge_type: EdgeTypeId, property: PropertyId, value: PropertyValue },
    EdgeExpand {
        from_alias: String,
        edge_alias: Option<String>,
        to_alias: Option<String>,
        direction: Direction,
        edge_type: Option<EdgeTypeId>,
    },
    Filter { condition: Expression },
    Project { expressions: Vec<Expression> },
    Join { left: Box<LogicalPlan>, right: Box<LogicalPlan>, join_type: JoinType },
    Sort { key: Vec<OrderByItem> },
    Limit { count: usize },
    Skip { count: usize },
    Unwind { expr: Expression, alias: String },
    Produce { items: Vec<ReturnItem> },
    CreateVertex { labels: Vec<LabelId>, properties: Vec<PropertyEntry> },
    SetProperty { key: PropertyId, value: Expression },
    Delete { expressions: Vec<Expression>, detach: bool },
    /// Groups rows and evaluates aggregates over each group.
    Aggregate { group_by: Vec<ReturnItem>, aggregates: Vec<ReturnItem> },
    /// Drops repeated rows.
    Distinct,
    /// The rows of two plans, with or without repeated rows.
    Union { left: Box<LogicalPlan>, right: Box<LogicalPlan>, all: bool },
    /// A sort of which only the first rows are kept.
    TopN { key: Vec<OrderByItem>, count: usize },
    /// No rows.
    EmptyResult,
}

/// A logical plan: an operator with its estimated cost and number of rows.
#[derive(Debug)]
pub struct LogicalPlan {
    pub op: LogicalOp,
    pub cost: PlanCost,
    pub cardinality: Quantity,
}

/// The model of a logical operator.
pub enum Op {
    AllScan(Option<Seq<char>>),
    LabelScan(Option<Seq<char>>, LabelId),
    LabelPropertyScan(Option<Seq<char>>, LabelId, PropertyId, Value),
    EdgeTypeScan(Option<Seq<char>>, EdgeTypeId),
    EdgeTypePropertyScan(Option<Seq<char>>, EdgeTypeId, PropertyId, Value),
    EdgeExpand {
        from_alias: Seq<char>,
        edge_alias: Option<Seq<char>>,
        to_alias: Option<Seq<char>>,
        direction: Direction,
        edge_type: Option<EdgeTypeId>,
    },
    Filter(Expr),
    Project(Seq<Expr>),
    Join(Box<Plan>, Box<Plan>, JoinKind),
    Sort(Seq<OrderKey>),
    Limit(usize),
    Skip(usize),
    Unwind(Expr, Seq<char>),
    Produce(Seq<NamedExpr>),
    CreateVertex(Seq<LabelId>, Seq<PropertyExpr>),
    SetProperty(PropertyId, Expr),
    Delete(Seq<Expr>, bool),
    Aggregate(Seq<NamedExpr>, Seq<NamedExpr>),
    Distinct,
    Union(Box<Plan>, Box<Plan>, bool),
    TopN(Seq<OrderKey>, usize),
    EmptyResult,
}

/// The model of a logical plan.
pub struct Plan {
    pub op: Op,
    pub cost: PlanCost,
    pub cardinality: Quantity,
}

/// The model of a logical operator.
pub open spec fn op_view(op: LogicalOp) -> Op
    decreases op,
{
    match op {
        LogicalOp::AllScan { alias } => Op::AllScan(opt_text(alias)),
        LogicalOp::LabelScan { alias, label } => Op::LabelScan(opt_text(alias), label),
        LogicalOp::LabelPropertyScan { alias, label, property, value } => Op::LabelPropertyScan(
            opt_text(alias),
            label,
            property,
            value@,
        ),
        LogicalOp::EdgeTypeScan { alias, edge_type } => Op::EdgeTypeScan(opt_text(alias), edge_type),
        LogicalOp::EdgeTypePropertyScan { alias, edge_type, property, value } => Op::EdgeTypePropertyScan(
            opt_text(alias),
            edge_type,
            property,
            value@,
        ),
        LogicalOp::EdgeExpand { from_alias, edge_alias, to_alias, direction, edge_type } => Op::EdgeExpand {
            from_alias: from_alias@,
            edge_alias: opt_text(edge_alias),
            to_alias: opt_text(to_alias),
            direction,
            edge_type,
        },
        LogicalOp::Filter { condition } => Op::Filter(condition@),
        LogicalOp::Project { expressions } => Op::Project(views(expressions@)),
        LogicalOp::Join { left, right, join_type } => Op::Join(
            Box::new(plan_view(*left)),
            Box::new(plan_view(*right)),
            join_type@,
        ),
        LogicalOp::Sort { key } => Op::Sort(views(key@)),
        LogicalOp::Limit { count } => Op::Limit(count),
        LogicalOp::Skip { count } => Op::Skip(count),
        LogicalOp::Unwind { expr, alias } => Op::Unwind(expr@, alias@),
        LogicalOp::Produce { items } => Op::Produce(views(items@)),
        LogicalOp::CreateVertex { labels, properties } => Op::CreateVertex(labels@, views(properties@)),
        LogicalOp::SetProperty { key, value } => Op::SetProperty(key, value@),
        LogicalOp::Delete { expressions, detach } => Op::Delete(views(expressions@), detach),
        LogicalOp::Aggregate { group_by, aggregates } => Op::Aggregate(views(group_by@), views(aggregates@)),
        LogicalOp::Distinct => Op::Distinct,
        LogicalOp::Union { left, right, all } => Op::Union(Box::new(plan_view(*left)), Box::new(plan_view(*right)), all),
        LogicalOp::TopN { key, count } => Op::TopN(views(key@), count),
        LogicalOp::EmptyResult => Op::EmptyResult,
    }
}

/// The model of a logical plan.
pub open spec fn plan_view(p: LogicalPlan) -> Plan
    decreases p,
{
    Plan { op: op_view(p.op), cost: p.cost, cardinality: p.cardinality }
}

impl View for LogicalOp {
    type V = Op;

    open spec fn view(&self) -> Op {
        op_view(*self)
    }
}

impl View for LogicalPlan {
    type V = Plan;

    open spec fn view(&self) -> Plan {
        plan_view(*self)
    }
}

/// Cloning a vector keeps the models of its items, where cloning an item keeps its model.
proof fn lemma_views_cloned<T: View + Clone>(a: Seq<T>, b: Seq<T>)
    requires
        a.len() == b.len(),
        forall|i: int| 0 <= i < a.len() ==> (#[trigger] a[i])@ == b[i]@,
    ensures
        views(a) == views(b),
{
    assert(views(a) =~= views(b));
}

pub(crate) fn clone_exprs(v: &Vec<Expression>) -> (r: Vec<Expression>)
    ensures
        views(r@) == views(v@),
{
    let r = v.clone();
    proof {
        lemma_views_cloned(v@, r@);
    }
    r
}

pub(crate) fn clone_keys(v: &Vec<OrderByItem>) -> (r: Vec<OrderByItem>)
    ensures
        views(r@) == views(v@),
{
    let r = v.clone();
    proof {
        lemma_views_cloned(v@, r@);
    }
    r
}

pub(crate) fn clone_items(v: &Vec<ReturnItem>) -> (r: Vec<ReturnItem>)
    ensures
        views(r@) == views(v@),
{
    let r = v.clone();
    proof {
        lemma_views_cloned(v@, r@);
    }
    r
}

pub(crate) fn clone_entries(v: &Vec<PropertyEntry>) -> (r: Vec<PropertyEntry>)
    ensures
        views(r@) == views(v@),
{
    let r = v.clone();
    proof {
        lemma_views_cloned(v@, r@);
    }
    r
}

pub(crate) fn clone_labels(v: &Vec<LabelId>) -> (r: Vec<LabelId>)
    ensures
        r@ == v@,
{
    let r = v.clone();
    assert(r@ =~= v@);
    r
}

impl Clone for LogicalOp {
    fn clone(&self) -> (r: Self)
        ensures
            r@ == self@,
        decreases self,
    {
        match self {
            LogicalOp::AllScan { alias } => LogicalOp::AllScan { alias: alias.clone() },
            LogicalOp::LabelScan { alias, label } => LogicalOp::LabelScan { alias: alias.clone(), label: *label },
            LogicalOp::LabelPropertyScan { alias, label, property, value } => LogicalOp::LabelPropertyScan {
                alias: alias.clone(),
                label: *label,
                property: *property,
                value: value.clone(),
            },
            LogicalOp::EdgeTypeScan { alias, edge_type } => LogicalOp::EdgeTypeScan {
                alias: alias.clone(),
                edge_type: *edge_type,
            },
            LogicalOp::EdgeTypePropertyScan { alias, edge_type, property, value } => LogicalOp::EdgeTypePropertyScan {
                alias: alias.clone(),
                edge_type: *edge_type,
                property: *property,
                value: value.clone(),
            },
            LogicalOp::EdgeExpand { from_alias, edge_alias, to_alias, direction, edge_type } => LogicalOp::EdgeExpand {
                from_alias: from_alias.clone(),
                edge_alias: edge_alias.clone(),
                to_alias: to_alias.clone(),
                direction: *direction,
                edge_type: *edge_type,
            },
            LogicalOp::Filter { condition } => LogicalOp::Filter { condition: condition.clone() },
            LogicalOp::Project { expressions } => LogicalOp::Project { expressions: clone_exprs(expressions) },
            LogicalOp::Join { left, right, join_type } => LogicalOp::Join {
                left: Box::new((**left).clone()),
                right: Box::new((**right).clone()),
                join_type: join_type.clone(),
            },
            LogicalOp::Sort { key } => LogicalOp::Sort { key: clone_keys(key) },
            LogicalOp::Limit { count } => LogicalOp::Limit { count: *count },
            LogicalOp::Skip { count } => LogicalOp::Skip { count: *count },
            LogicalOp::Unwind { expr, alias } => LogicalOp::Unwind { expr: expr.clone(), alias: alias.clone() },
            LogicalOp::Produce { items } => LogicalOp::Produce { items: clone_items(items) },
            LogicalOp::CreateVertex { labels, properties } => LogicalOp::CreateVertex {
                labels: clone_labels(labels),
                properties: clone_entries(properties),
            },
            LogicalOp::SetProperty { key, value } => LogicalOp::SetProperty { key: *key, value: value.clone() },
            LogicalOp::Delete { expressions, detach } => LogicalOp::Delete {
                expressions: clone_exprs(expressions),
                detach: *detach,
            },
            LogicalOp::Aggregate { group_by, aggregates } => LogicalOp::Aggregate {
                group_by: clone_items(group_by),
                aggregates: clone_items(aggregates),
            },
            LogicalOp::Distinct => LogicalOp::Distinct,
            LogicalOp::Union { left, right, all } => LogicalOp::Union {
                left: Box::new((**left).clone()),
                right: Box::new((**right).clone()),
                all: *all,
            },
            LogicalOp::TopN { key, count } => LogicalOp::TopN { key: clone_keys(key), count: *count },
            LogicalOp::EmptyResult => LogicalOp::EmptyResult,
        }
    }
}

impl Clone for LogicalPlan {
    fn clone(&self) -> (r: Self)
        ensures
            r@ == self@,
        decreases self,
    {
        LogicalPlan { op: self.op.clone(), cost: self.cost.clone(), cardinality: self.cardinality.clone() }
    }
}

} // verus!
