//! Physical plans, and the choice of one for a logical plan.
use vstd::prelude::*;

use crate::planner::cost::CostModel;
use crate::planner::expression::{Expr, Expression};
use crate::planner::ids::{EdgeTypeId, LabelId, PropertyId};
use crate::planner::logical::{clone_exprs, clone_items, clone_keys, plan_view, JoinKind, JoinType, LogicalOp, LogicalPlan, Op, Plan, PlanCost};
use crate::planner::query::{opt_text, views, Direction, NamedExpr, OrderByItem, OrderKey, ReturnItem};
use crate::planner::stats::{at_least_one, count_at_least_one, estimate_selectivity, grouped_row_count, grouped_rows, selectivity, CatalogStats};
use crate::planner::value::{PropertyValue, Value};
use crate::quantity::{compared, decides, Compared, Quantity};

verus! {

/// An operator of a physical plan.
#[derive(Debug)]
#[allow(inconsistent_fields)]
pub enum PhysicalOp {
    SeqScan { alias: Option<String>, label: Option<LabelId> },
    IndexScan { alias: Option<String>, label: LabelId, property: PropertyId, value: PropertyValue },
    IndexSeek { alias: Option<String>, label: LabelId, property: PropertyId, value: PropertyValue },
    EdgeTypeScan { alias: Option<String>, edge_type: EdgeTypeId },
    EdgeTypePropertyScan { alias: Option<String>, edge_type: EdgeTypeId, property: PropertyId, value: PropertyValue },
    HashJoin { left: Box<PhysicalPlan>, right: Box<PhysicalPlan>, left_key: String, right_key: String },
    NestedLoopJoin { left: Box<PhysicalPlan>, right: Box<PhysicalPlan> },
    IndexNestedLoopJoin { outer: Box<PhysicalPlan>, inner: Box<PhysicalPlan>, inner_key: String },
    SortMergeJoin { left: Box<PhysicalPlan>, right: Box<PhysicalPlan>, left_key: String, right_key: String },
    Filter { condition: Expression, child: Box<PhysicalPlan> },
    Project { expressions: Vec<Expression>, child: Box<PhysicalPlan> },
    Produce { items: Vec<ReturnItem>, child: Box<PhysicalPlan> },
    Sort { key: Vec<OrderByItem>, child: Box<PhysicalPlan> },
    Limit { count: usize, child: Box<PhysicalPlan> },
    Skip { count: usize, child: Box<PhysicalPlan> },
    Aggregate { group_by: Vec<ReturnItem>, aggregates: Vec<ReturnItem>, child: Box<PhysicalPlan> },
    HashAggregate { group_by: Vec<ReturnItem>, aggregates: Vec<ReturnItem>, child: Box<PhysicalPlan> },
    StreamingAggregate { group_by: Vec<ReturnItem>, aggregates: Vec<ReturnItem>, child: Box<PhysicalPlan> },
    /// A sort that keeps only the first rows.
    TopN { key: Vec<OrderByItem>, count: usize, child: Box<PhysicalPlan> },
    /// Follows the edges of a vertex of each row; the edge and the vertex that it leads to are bound.
    EdgeExpand {
        from_alias: String,
        edge_alias: Option<String>,
        to_alias: Option<String>,
        direction: Direction,
        edge_type: Option<EdgeTypeId>,
        child: Box<PhysicalPlan>,
    },
    /// Drops repeated rows.
    Distinct { child: Box<PhysicalPlan> },
}

/// A physical plan: an operator with its estimated cost and number of rows.
#[derive(Debug)]
pub struct PhysicalPlan {
    pub op: PhysicalOp,
    pub cost: PlanCost,
    pub cardinality: Quantity,
}

/// The model of a physical operator.
pub enum Step {
    SeqScan(Option<Seq<char>>, Option<LabelId>),
    IndexScan(Option<Seq<char>>, LabelId, PropertyId, Value),
    IndexSeek(Option<Seq<char>>, LabelId, PropertyId, Value),
    EdgeTypeScan(Option<Seq<char>>, EdgeTypeId),
    EdgeTypePropertyScan(Option<Seq<char>>, EdgeTypeId, PropertyId, Value),
    HashJoin(Box<Physical>, Box<Physical>, Seq<char>, Seq<char>),
    NestedLoopJoin(Box<Physical>, Box<Physical>),
    IndexNestedLoopJoin(Box<Physical>, Box<Physical>, Seq<char>),
    SortMergeJoin(Box<Physical>, Box<Physical>, Seq<char>, Seq<char>),
    Filter(Expr, Box<Physical>),
    Project(Seq<Expr>, Box<Physical>),
    Produce(Seq<NamedExpr>, Box<Physical>),
    Sort(Seq<OrderKey>, Box<Physical>),
    Limit(usize, Box<Physical>),
    Skip(usize, Box<Physical>),
    Aggregate(Seq<NamedExpr>, Seq<NamedExpr>, Box<Physical>),
    HashAggregate(Seq<NamedExpr>, Seq<NamedExpr>, Box<Physical>),
    StreamingAggregate(Seq<NamedExpr>, Seq<NamedExpr>, Box<Physical>),
    TopN(Seq<OrderKey>, usize, Box<Physical>),
    EdgeExpand {
        from_alias: Seq<char>,
        edge_alias: Option<Seq<char>>,
        to_alias: Option<Seq<char>>,
        direction: Direction,
        edge_type: Option<EdgeTypeId>,
        child: Box<Physical>,
    },
    Distinct(Box<Physical>),
}

/// The model of a physical plan.
pub struct Physical {
    pub op: Step,
    pub cost: PlanCost,
    pub cardinality: Quantity,
}

/// The model of a physical operator.
pub open spec fn step_view(op: PhysicalOp) -> Step
    decreases op,
{
    match op {
        PhysicalOp::SeqScan { alias, label } => Step::SeqScan(opt_text(alias), label),
        PhysicalOp::IndexScan { alias, label, property, value } => Step::IndexScan(
            opt_text(alias),
            label,
            property,
            value@,
        ),
        PhysicalOp::IndexSeek { alias, label, property, value } => Step::IndexSeek(
            opt_text(alias),
            label,
            property,
            value@,
        ),
        PhysicalOp::EdgeTypeScan { alias, edge_type } => Step::EdgeTypeScan(opt_text(alias), edge_type),
        PhysicalOp::EdgeTypePropertyScan { alias, edge_type, property, value } => Step::EdgeTypePropertyScan(
            opt_text(alias),
            edge_type,
            property,
            value@,
        ),
        PhysicalOp::HashJoin { left, right, left_key, right_key } => Step::HashJoin(
            Box::new(physical_view(*left)),
            Box::new(physical_view(*right)),
            left_key@,
            right_key@,
        ),
        PhysicalOp::NestedLoopJoin { left, right } => Step::NestedLoopJoin(
            Box::new(physical_view(*left)),
            Box::new(physical_view(*right)),
        ),
        PhysicalOp::IndexNestedLoopJoin { outer, inner, inner_key } => Step::IndexNestedLoopJoin(
            Box::new(physical_view(*outer)),
            Box::new(physical_view(*inner)),
            inner_key@,
        ),
        PhysicalOp::SortMergeJoin { left, right, left_key, right_key } => Step::SortMergeJoin(
            Box::new(physical_view(*left)),
            Box::new(physical_view(*right)),
            left_key@,
            right_key@,
        ),
        PhysicalOp::Filter { condition, child } => Step::Filter(condition@, Box::new(physical_view(*child))),
        PhysicalOp::Project { expressions, child } => Step::Project(
            views(expressions@),
            Box::new(physical_view(*child)),
        ),
        PhysicalOp::Produce { items, child } => Step::Produce(views(items@), Box::new(physical_view(*child))),
        PhysicalOp::Sort { key, child } => Step::Sort(views(key@), Box::new(physical_view(*child))),
        PhysicalOp::Limit { count, child } => Step::Limit(count, Box::new(physical_view(*child))),
        PhysicalOp::Skip { count, child } => Step::Skip(count, Box::new(physical_view(*child))),
        PhysicalOp::Aggregate { group_by, aggregates, child } => Step::Aggregate(
            views(group_by@),
            views(aggregates@),
            Box::new(physical_view(*child)),
        ),
        PhysicalOp::HashAggregate { group_by, aggregates, child } => Step::HashAggregate(
            views(group_by@),
            views(aggregates@),
            Box::new(physical_view(*child)),
        ),
        PhysicalOp::StreamingAggregate { group_by, aggregates, child } => Step::StreamingAggregate(
            views(group_by@),
            views(aggregates@),
            Box::new(physical_view(*child)),
        ),
        PhysicalOp::TopN { key, count, child } => Step::TopN(views(key@), count, Box::new(physical_view(*child))),
        PhysicalOp::EdgeExpand { from_alias, edge_alias, to_alias, direction, edge_type, child } => Step::EdgeExpand {
            from_alias: from_alias@,
            edge_alias: opt_text(edge_alias),
            to_alias: opt_text(to_alias),
            direction,
            edge_type,
            child: Box::new(physical_view(*child)),
        },
        PhysicalOp::Distinct { child } => Step::Distinct(Box::new(physical_view(*child))),
    }
}

/// The model of a physical plan.
pub open spec fn physical_view(p: PhysicalPlan) -> Physical
    decreases p,
{
    Physical { op: step_view(p.op), cost: p.cost, cardinality: p.cardinality }
}

impl View for PhysicalPlan {
    type V = Physical;

    open spec fn view(&self) -> Physical {
        physical_view(*self)
    }
}

/// The operators that take what stands to their left in a join as their input.
pub open spec fn absorbs(op: Op) -> bool {
    op is Produce || op is Project || op is Sort || op is Limit || op is Skip || op is TopN || op is Filter || op is Distinct
        || op is EdgeExpand || op is Aggregate
}

/// Whether a plan has a physical form: operators that write, that unwind a list, or that follow
/// edges with nothing to their left have none.
pub open spec fn convertible(p: Plan) -> bool
    decreases p,
{
    match p.op {
        Op::EdgeExpand { .. } | Op::Unwind(_, _) | Op::CreateVertex(_, _) | Op::SetProperty(_, _) | Op::Delete(_, _) => false,
        Op::Join(left, right, _) => convertible(*left) && (absorbs(right.op) || convertible(*right)),
        Op::Union(left, right, _) => convertible(*left) && convertible(*right),
        _ => true,
    }
}

/// A scan of all vertices.
pub open spec fn scan_of_all(alias: Option<Seq<char>>, cm: CostModel, catalog: CatalogStats) -> Physical {
    Physical {
        op: Step::SeqScan(alias, None),
        cost: PlanCost::of_cpu(cm.scan_all_cost),
        cardinality: Quantity::Count(at_least_one(catalog.total_vertices)),
    }
}

/// The rows that a lookup in an index of `rows` entries gives.
pub open spec fn seek_rows(rows: u64, cm: CostModel) -> Quantity {
    Quantity::product(Quantity::Count(rows), cm.equality_selectivity)
}

/// A lookup in an index of `rows` entries.
pub open spec fn seek(op: Step, rows: u64, cm: CostModel) -> Physical {
    Physical {
        op,
        cost: PlanCost::of_cpu(Quantity::product(cm.index_seek_cost_per_row, seek_rows(rows, cm))),
        cardinality: Quantity::larger(seek_rows(rows, cm), Quantity::Count(1)),
    }
}

/// A filter of what a plan gives.
pub open spec fn filter_over(condition: Expr, child: Physical, cm: CostModel, catalog: CatalogStats) -> Physical {
    let rows = Quantity::product(child.cardinality, selectivity(condition, catalog));
    Physical {
        op: Step::Filter(condition, Box::new(child)),
        cost: PlanCost::of_cpu(Quantity::product(rows, cm.filter_cost_per_row)),
        cardinality: Quantity::larger(rows, Quantity::Count(0)),
    }
}

/// A sort of what a plan gives.
pub open spec fn sort_over(key: Seq<OrderKey>, child: Physical, cm: CostModel) -> Physical {
    Physical {
        op: Step::Sort(key, Box::new(child)),
        cost: PlanCost::of_cpu(cm.sort(child.cardinality)),
        cardinality: child.cardinality,
    }
}

/// The number of rows that a limit leaves.
pub open spec fn limited_rows(count: usize, rows: Quantity) -> Quantity {
    Quantity::smaller(Quantity::Count(count as u64), rows)
}

/// The first rows of what a plan gives.
pub open spec fn limit_over(count: usize, child: Physical) -> Physical {
    Physical {
        op: Step::Limit(count, Box::new(child)),
        cost: PlanCost::of_cpu(Quantity::Count(1)),
        cardinality: limited_rows(count, child.cardinality),
    }
}

/// The first rows of what a plan gives; a sort below is merged into the limit.
pub open spec fn limit_or_top_n(count: usize, child: Physical, cm: CostModel) -> Physical {
    match child.op {
        Step::Sort(key, below) => Physical {
            op: Step::TopN(key, count, below),
            cost: PlanCost::of_cpu(cm.top_n(child.cardinality, count)),
            cardinality: limited_rows(count, child.cardinality),
        },
        _ => limit_over(count, child),
    }
}

/// What a plan gives but for its first rows.
pub open spec fn skip_over(count: usize, child: Physical) -> Physical {
    Physical {
        op: Step::Skip(count, Box::new(child)),
        cost: PlanCost::of_cpu(Quantity::Count(1)),
        cardinality: child.cardinality,
    }
}

/// The first rows of a sort of what a plan gives.
pub open spec fn top_n_over(key: Seq<OrderKey>, count: usize, child: Physical, cm: CostModel) -> Physical {
    Physical {
        op: Step::TopN(key, count, Box::new(child)),
        cost: PlanCost::of_cpu(cm.top_n(child.cardinality, count)),
        cardinality: limited_rows(count, child.cardinality),
    }
}

/// An aggregation of what a plan gives, by hashing its groups.
pub open spec fn hash_aggregate_over(
    group_by: Seq<NamedExpr>,
    aggregates: Seq<NamedExpr>,
    child: Physical,
    cm: CostModel,
) -> Physical {
    Physical {
        op: Step::HashAggregate(group_by, aggregates, Box::new(child)),
        cost: PlanCost::of_cpu(cm.hash_aggregate(child.cardinality)),
        cardinality: grouped_rows(group_by.len() == 0, child.cardinality),
    }
}

/// An aggregation of what a plan gives; sorted input is aggregated as it streams by.
pub open spec fn aggregate_over(
    group_by: Seq<NamedExpr>,
    aggregates: Seq<NamedExpr>,
    child: Physical,
    cm: CostModel,
) -> Physical {
    if child.op is Sort {
        Physical {
            op: Step::StreamingAggregate(group_by, aggregates, Box::new(child)),
            cost: PlanCost::of_cpu(cm.streaming_aggregate(child.cardinality)),
            cardinality: grouped_rows(group_by.len() == 0, child.cardinality),
        }
    } else {
        hash_aggregate_over(group_by, aggregates, child, cm)
    }
}

/// An operator that drops repeated rows of what a plan gives.
pub open spec fn distinct_over(op: Step, rows: Quantity, cm: CostModel) -> Physical {
    Physical {
        op,
        cost: PlanCost::of_cpu(Quantity::product(rows, cm.distinct_cost_per_row)),
        cardinality: Quantity::product(rows, Quantity::decimal(5, 1)),
    }
}

/// The physical form of an operator that takes a plan as its input.
pub open spec fn absorbed(op: Op, child: Physical, cm: CostModel, catalog: CatalogStats) -> Physical {
    match op {
        Op::Produce(items) => Physical {
            op: Step::Produce(items, Box::new(child)),
            cost: child.cost,
            cardinality: child.cardinality,
        },
        Op::Project(expressions) => Physical {
            op: Step::Project(expressions, Box::new(child)),
            cost: child.cost,
            cardinality: child.cardinality,
        },
        Op::Sort(key) => sort_over(key, child, cm),
        Op::Limit(count) => limit_over(count, child),
        Op::Skip(count) => skip_over(count, child),
        Op::TopN(key, count) => top_n_over(key, count, child, cm),
        Op::Filter(condition) => filter_over(condition, child, cm, catalog),
        Op::Distinct => distinct_over(
            Step::HashAggregate(Seq::empty(), Seq::empty(), Box::new(child)),
            child.cardinality,
            cm,
        ),
        Op::EdgeExpand { from_alias, edge_alias, to_alias, direction, edge_type } => Physical {
            op: Step::EdgeExpand { from_alias, edge_alias, to_alias, direction, edge_type, child: Box::new(child) },
            cost: PlanCost::of_cpu(Quantity::product(child.cardinality, Quantity::Count(5))),
            cardinality: Quantity::product(child.cardinality, Quantity::Count(5)),
        },
        Op::Aggregate(group_by, aggregates) => hash_aggregate_over(group_by, aggregates, child, cm),
        _ => child,
    }
}

/// Whether one quantity is no larger than another.
pub open spec fn no_larger<F: Fn(&Quantity, &Quantity) -> Compared>(a: Quantity, b: Quantity, compare: F) -> bool {
    compared(compare, a, b) == Compared::Less || compared(compare, a, b) == Compared::Equal
}

/// The physical join of two plans: the cheapest. A hash join takes keys to hash by, so it is out of
/// the question where the join names none.
pub open spec fn join_of<F: Fn(&Quantity, &Quantity) -> Compared>(
    left: Physical,
    right: Physical,
    kind: JoinKind,
    cm: CostModel,
    compare: F,
) -> Physical {
    let nested = cm.nested_loop_join(left.cardinality, right.cardinality);
    let hash = cm.hash_join(left.cardinality, right.cardinality);
    let merge = cm.sort_merge_join(left.cardinality, right.cardinality);
    let hash_cheapest = kind is HashJoin && no_larger(hash, nested, compare) && no_larger(hash, merge, compare);
    let keys = match kind {
        JoinKind::HashJoin(l, r) => (l, r),
        JoinKind::NestedLoop => (Seq::empty(), Seq::empty()),
    };
    let (op, cost) = if hash_cheapest {
        (Step::HashJoin(Box::new(left), Box::new(right), keys.0, keys.1), hash)
    } else if no_larger(merge, nested, compare) {
        (Step::SortMergeJoin(Box::new(left), Box::new(right), keys.0, keys.1), merge)
    } else {
        (Step::NestedLoopJoin(Box::new(left), Box::new(right)), nested)
    };
    Physical {
        op,
        cost: PlanCost::of_cpu(cost),
        cardinality: Quantity::larger(left.cardinality, right.cardinality),
    }
}

/// Whether a comparison orders some quantities: of any two, one is no larger than the other, and what is
/// no larger stays so over several steps.
pub open spec fn orders<F: Fn(&Quantity, &Quantity) -> Compared>(compare: F, among: Set<Quantity>) -> bool {
    &&& forall|a: Quantity, b: Quantity|
        among.contains(a) && among.contains(b) ==> #[trigger] no_larger(a, b, compare) || no_larger(b, a, compare)
    &&& forall|a: Quantity, b: Quantity, c: Quantity|
        among.contains(a) && among.contains(b) && among.contains(c) && #[trigger] no_larger(a, b, compare)
            && #[trigger] no_larger(b, c, compare) ==> no_larger(a, c, compare)
}

/// No join that takes the keys at hand is cheaper than the one that is chosen, where the costs of the three
/// joins can be ordered.
pub proof fn chosen_join_is_cheapest<F: Fn(&Quantity, &Quantity) -> Compared>(
    left: Physical,
    right: Physical,
    kind: JoinKind,
    cm: CostModel,
    compare: F,
)
    requires
        orders(
            compare,
            set![
                cm.nested_loop_join(left.cardinality, right.cardinality),
                cm.hash_join(left.cardinality, right.cardinality),
                cm.sort_merge_join(left.cardinality, right.cardinality),
            ],
        ),
    ensures
        ({
            let cost = join_of(left, right, kind, cm, compare).cost.cpu;
            &&& no_larger(cost, cm.nested_loop_join(left.cardinality, right.cardinality), compare)
            &&& no_larger(cost, cm.sort_merge_join(left.cardinality, right.cardinality), compare)
            &&& kind is HashJoin ==> no_larger(cost, cm.hash_join(left.cardinality, right.cardinality), compare)
        }),
{
    let nested = cm.nested_loop_join(left.cardinality, right.cardinality);
    let hash = cm.hash_join(left.cardinality, right.cardinality);
    let merge = cm.sort_merge_join(left.cardinality, right.cardinality);
    assert(no_larger(nested, nested, compare));
    assert(no_larger(merge, merge, compare));
    assert(no_larger(hash, hash, compare));
    assert(no_larger(merge, nested, compare) || no_larger(nested, merge, compare));
    assert(no_larger(hash, nested, compare) || no_larger(nested, hash, compare));
    assert(no_larger(hash, merge, compare) || no_larger(merge, hash, compare));
}

/// The physical form of a plan. An operator with one input that stands by itself works on a scan of
/// all vertices.
pub open spec fn physical_form<F: Fn(&Quantity, &Quantity) -> Compared>(
    p: Plan,
    cm: CostModel,
    catalog: CatalogStats,
    compare: F,
) -> Physical
    decreases p,
{
    let all = scan_of_all(None, cm, catalog);
    match p.op {
        Op::AllScan(alias) => scan_of_all(alias, cm, catalog),
        Op::LabelScan(alias, label) => Physical {
            op: Step::SeqScan(alias, Some(label)),
            cost: PlanCost::of_cpu(cm.scan_label_cost),
            cardinality: Quantity::Count(catalog.label_rows(label)),
        },
        Op::LabelPropertyScan(alias, label, property, value) => seek(
            Step::IndexSeek(alias, label, property, value),
            catalog.label_rows(label),
            cm,
        ),
        Op::EdgeTypeScan(alias, edge_type) => Physical {
            op: Step::EdgeTypeScan(alias, edge_type),
            cost: PlanCost::of_cpu(cm.scan_label_cost),
            cardinality: Quantity::Count(catalog.edge_type_rows(edge_type)),
        },
        Op::EdgeTypePropertyScan(alias, edge_type, property, value) => seek(
            Step::EdgeTypePropertyScan(alias, edge_type, property, value),
            catalog.edge_type_rows(edge_type),
            cm,
        ),
        Op::Filter(condition) => filter_over(condition, all, cm, catalog),
        Op::Project(expressions) => Physical {
            op: Step::Project(expressions, Box::new(all)),
            cost: PlanCost::of_cpu(all.cardinality),
            cardinality: all.cardinality,
        },
        Op::Join(l, r, kind) => {
            let left = physical_form(*l, cm, catalog, compare);
            if absorbs(r.op) {
                absorbed(r.op, left, cm, catalog)
            } else {
                join_of(left, physical_form(*r, cm, catalog, compare), kind, cm, compare)
            }
        },
        Op::Sort(key) => sort_over(key, all, cm),
        Op::Limit(count) => limit_or_top_n(count, all, cm),
        Op::TopN(key, count) => top_n_over(key, count, all, cm),
        Op::Aggregate(group_by, aggregates) => aggregate_over(group_by, aggregates, all, cm),
        Op::Distinct => distinct_over(Step::Distinct(Box::new(all)), all.cardinality, cm),
        Op::Union(l, r, both) => {
            let left = physical_form(*l, cm, catalog, compare);
            let right = physical_form(*r, cm, catalog, compare);
            let rows = Quantity::sum(left.cardinality, right.cardinality);
            Physical {
                op: Step::NestedLoopJoin(Box::new(left), Box::new(right)),
                cost: PlanCost::of_cpu(cm.union_overhead),
                cardinality: if both {
                    rows
                } else {
                    Quantity::product(rows, Quantity::decimal(5, 1))
                },
            }
        },
        Op::Produce(items) => Physical {
            op: Step::Produce(items, Box::new(all)),
            cost: PlanCost::of_cpu(Quantity::Count(1)),
            cardinality: Quantity::larger(p.cardinality, Quantity::Count(1)),
        },
        Op::Skip(count) => skip_over(count, all),
        _ => Physical { op: Step::SeqScan(None, None), cost: PlanCost::zero(), cardinality: Quantity::Count(0) },
    }
}

fn scan_all(alias: Option<String>, cm: &CostModel, catalog_stats: &CatalogStats) -> (r: PhysicalPlan)
    ensures
        r@ == scan_of_all(opt_text(alias), *cm, *catalog_stats),
{
    PhysicalPlan {
        op: PhysicalOp::SeqScan { alias, label: None },
        cost: PlanCost::cpu_only(cm.scan_all_cost.clone()),
        cardinality: Quantity::Count(count_at_least_one(catalog_stats.total_vertices)),
    }
}

fn index_seek(op: PhysicalOp, rows: Quantity, cm: &CostModel) -> (r: PhysicalPlan)
    requires
        rows is Count,
    ensures
        r@ == seek(step_view(op), rows->Count_0, *cm),
{
    let card = rows.times(cm.equality_selectivity.clone());
    PhysicalPlan {
        op,
        cost: PlanCost::cpu_only(cm.index_seek_cost_per_row.clone().times(card.clone())),
        cardinality: card.at_least(Quantity::Count(1)),
    }
}

fn build_filter(condition: &Expression, child: PhysicalPlan, cm: &CostModel, catalog_stats: &CatalogStats) -> (r:
    PhysicalPlan)
    ensures
        r@ == filter_over(condition@, child@, *cm, *catalog_stats),
{
    let sel = estimate_selectivity(condition, catalog_stats);
    let card = child.cardinality.clone().times(sel);
    PhysicalPlan {
        op: PhysicalOp::Filter { condition: condition.clone(), child: Box::new(child) },
        cost: PlanCost::cpu_only(card.clone().times(cm.filter_cost_per_row.clone())),
        cardinality: card.at_least(Quantity::Count(0)),
    }
}

fn build_sort(key: &Vec<OrderByItem>, child: PhysicalPlan, cm: &CostModel) -> (r: PhysicalPlan)
    ensures
        r@ == sort_over(views(key@), child@, *cm),
{
    let card = child.cardinality.clone();
    PhysicalPlan {
        op: PhysicalOp::Sort { key: clone_keys(key), child: Box::new(child) },
        cost: PlanCost::cpu_only(cm.sort_cost(&card)),
        cardinality: card,
    }
}

fn build_limit(count: usize, child: PhysicalPlan) -> (r: PhysicalPlan)
    ensures
        r@ == limit_over(count, child@),
{
    let card = Quantity::Count(count as u64).at_most(child.cardinality.clone());
    PhysicalPlan {
        op: PhysicalOp::Limit { count, child: Box::new(child) },
        cost: PlanCost::cpu_only(Quantity::Count(1)),
        cardinality: card,
    }
}

/// Limits a plan; a sort below is merged into the limit.
fn build_limit_or_top_n(count: usize, child: PhysicalPlan, cm: &CostModel) -> (r: PhysicalPlan)
    ensures
        r@ == limit_or_top_n(count, child@, *cm),
{
    let PhysicalPlan { op, cost, cardinality } = child;
    match op {
        PhysicalOp::Sort { key, child: below } => {
            let topn_cost = cm.top_n_cost(&cardinality, count);
            PhysicalPlan {
                op: PhysicalOp::TopN { key, count, child: below },
                cost: PlanCost::cpu_only(topn_cost),
                cardinality: Quantity::Count(count as u64).at_most(cardinality),
            }
        },
        op => build_limit(count, PhysicalPlan { op, cost, cardinality }),
    }
}

fn build_skip(count: usize, child: PhysicalPlan) -> (r: PhysicalPlan)
    ensures
        r@ == skip_over(count, child@),
{
    let card = child.cardinality.clone();
    PhysicalPlan {
        op: PhysicalOp::Skip { count, child: Box::new(child) },
        cost: PlanCost::cpu_only(Quantity::Count(1)),
        cardinality: card,
    }
}

fn build_top_n(key: &Vec<OrderByItem>, count: usize, child: PhysicalPlan, cm: &CostModel) -> (r: PhysicalPlan)
    ensures
        r@ == top_n_over(views(key@), count, child@, *cm),
{
    let cost = cm.top_n_cost(&child.cardinality, count);
    let card = Quantity::Count(count as u64).at_most(child.cardinality.clone());
    PhysicalPlan {
        op: PhysicalOp::TopN { key: clone_keys(key), count, child: Box::new(child) },
        cost: PlanCost::cpu_only(cost),
        cardinality: card,
    }
}

fn build_hash_aggregate(group_by: &Vec<ReturnItem>, aggregates: &Vec<ReturnItem>, child: PhysicalPlan, cm: &CostModel) -> (r:
    PhysicalPlan)
    ensures
        r@ == hash_aggregate_over(views(group_by@), views(aggregates@), child@, *cm),
{
    let cost = cm.hash_aggregate_cost(&child.cardinality);
    let card = grouped_row_count(group_by.len() == 0, &child.cardinality);
    PhysicalPlan {
        op: PhysicalOp::HashAggregate {
            group_by: clone_items(group_by),
            aggregates: clone_items(aggregates),
            child: Box::new(child),
        },
        cost: PlanCost::cpu_only(cost),
        cardinality: card,
    }
}

/// Heuristic: check if child plan is already sorted.
pub fn child_is_sorted(plan: &PhysicalPlan) -> (r: bool)
    ensures
        r == (plan@.op is Sort),
{
    match plan.op {
        PhysicalOp::Sort { .. } => true,
        _ => false,
    }
}

/// Aggregates what a plan gives: as it streams by where it is sorted, by hashing otherwise.
fn build_aggregate(group_by: &Vec<ReturnItem>, aggregates: &Vec<ReturnItem>, child: PhysicalPlan, cm: &CostModel) -> (r:
    PhysicalPlan)
    ensures
        r@ == aggregate_over(views(group_by@), views(aggregates@), child@, *cm),
{
    if !child_is_sorted(&child) {
        return build_hash_aggregate(group_by, aggregates, child, cm);
    }
    let cost = cm.streaming_aggregate_cost(&child.cardinality);
    let card = grouped_row_count(group_by.len() == 0, &child.cardinality);
    PhysicalPlan {
        op: PhysicalOp::StreamingAggregate {
            group_by: clone_items(group_by),
            aggregates: clone_items(aggregates),
            child: Box::new(child),
        },
        cost: PlanCost::cpu_only(cost),
        cardinality: card,
    }
}

fn build_distinct(op: PhysicalOp, rows: Quantity, cm: &CostModel) -> (r: PhysicalPlan)
    ensures
        r@ == distinct_over(step_view(op), rows, *cm),
{
    PhysicalPlan {
        op,
        cost: PlanCost::cpu_only(rows.clone().times(cm.distinct_cost_per_row.clone())),
        cardinality: rows.times(Quantity::from_decimal(5, 1)),
    }
}

fn is_absorbing(op: &LogicalOp) -> (r: bool)
    ensures
        r == absorbs(op@),
{
    match op {
        LogicalOp::Produce { .. } | LogicalOp::Project { .. } | LogicalOp::Sort { .. } | LogicalOp::Limit { .. } => true,
        LogicalOp::Skip { .. } | LogicalOp::TopN { .. } | LogicalOp::Filter { .. } | LogicalOp::Distinct => true,
        LogicalOp::EdgeExpand { .. } | LogicalOp::Aggregate { .. } => true,
        _ => false,
    }
}

/// Decides whether a plan has a physical form.
pub fn is_convertible(plan: &LogicalPlan) -> (r: bool)
    ensures
        r == convertible(plan@),
    decreases plan,
{
    proof {
        reveal_with_fuel(plan_view, 2);
    }
    match &plan.op {
        LogicalOp::EdgeExpand { .. } | LogicalOp::Unwind { .. } | LogicalOp::CreateVertex { .. } => false,
        LogicalOp::SetProperty { .. } | LogicalOp::Delete { .. } => false,
        LogicalOp::Join { left, right, .. } => is_convertible(left) && (is_absorbing(&right.op) || is_convertible(right)),
        LogicalOp::Union { left, right, .. } => is_convertible(left) && is_convertible(right),
        _ => true,
    }
}

/// Puts an operator that takes what stands to its left over a plan, rather than joining the two.
fn absorb(op: &LogicalOp, child: PhysicalPlan, cm: &CostModel, catalog_stats: &CatalogStats) -> (r: PhysicalPlan)
    requires
        absorbs(op@),
    ensures
        r@ == absorbed(op@, child@, *cm, *catalog_stats),
{
    match op {
        LogicalOp::Produce { items } => {
            let cost = child.cost.clone();
            let cardinality = child.cardinality.clone();
            PhysicalPlan {
                op: PhysicalOp::Produce { items: clone_items(items), child: Box::new(child) },
                cost,
                cardinality,
            }
        },
        LogicalOp::Project { expressions } => {
            let cost = child.cost.clone();
            let cardinality = child.cardinality.clone();
            PhysicalPlan {
                op: PhysicalOp::Project { expressions: clone_exprs(expressions), child: Box::new(child) },
                cost,
                cardinality,
            }
        },
        LogicalOp::Sort { key } => build_sort(key, child, cm),
        LogicalOp::Limit { count } => build_limit(*count, child),
        LogicalOp::Skip { count } => build_skip(*count, child),
        LogicalOp::TopN { key, count } => build_top_n(key, *count, child, cm),
        LogicalOp::Filter { condition } => build_filter(condition, child, cm, catalog_stats),
        LogicalOp::Distinct => {
            let rows = child.cardinality.clone();
            let group_by: Vec<ReturnItem> = Vec::new();
            let aggregates: Vec<ReturnItem> = Vec::new();
            assert(views(group_by@) =~= Seq::empty());
            assert(views(aggregates@) =~= Seq::empty());
            build_distinct(PhysicalOp::HashAggregate { group_by, aggregates, child: Box::new(child) }, rows, cm)
        },
        LogicalOp::EdgeExpand { from_alias, edge_alias, to_alias, direction, edge_type } => {
            let rows = child.cardinality.clone().times(Quantity::Count(5));
            PhysicalPlan {
                op: PhysicalOp::EdgeExpand {
                    from_alias: from_alias.clone(),
                    edge_alias: edge_alias.clone(),
                    to_alias: to_alias.clone(),
                    direction: *direction,
                    edge_type: *edge_type,
                    child: Box::new(child),
                },
                cost: PlanCost::cpu_only(rows.clone()),
                cardinality: rows,
            }
        },
        LogicalOp::Aggregate { group_by, aggregates } => build_hash_aggregate(group_by, aggregates, child, cm),
        _ => child,
    }
}

fn costs_no_more<F: Fn(&Quantity, &Quantity) -> Compared>(a: &Quantity, b: &Quantity, compare: &F) -> (r: bool)
    requires
        decides(*compare),
    ensures
        r == no_larger(*a, *b, *compare),
{
    let c = compare(a, b);
    c == Compared::Less || c == Compared::Equal
}

/// Choose the cheapest physical join implementation.
pub fn choose_join_physical<F: Fn(&Quantity, &Quantity) -> Compared>(
    left: PhysicalPlan,
    right: PhysicalPlan,
    join_type: &JoinType,
    cm: &CostModel,
    compare: &F,
) -> (r: PhysicalPlan)
    requires
        decides(*compare),
    ensures
        r@ == join_of(left@, right@, join_type@, *cm, *compare),
{
    let nl_cost = cm.nested_loop_join_cost(&left.cardinality, &right.cardinality);
    let hash_cost = cm.hash_join_cost(&left.cardinality, &right.cardinality);
    let sm_cost = cm.sort_merge_join_cost(&left.cardinality, &right.cardinality);
    let card = left.cardinality.clone().at_least(right.cardinality.clone());
    let left = Box::new(left);
    let right = Box::new(right);
    let (op, cost) = match join_type {
        JoinType::HashJoin { left_key, right_key } => {
            let left_key = left_key.clone();
            let right_key = right_key.clone();
            if costs_no_more(&hash_cost, &nl_cost, compare) && costs_no_more(&hash_cost, &sm_cost, compare) {
                (PhysicalOp::HashJoin { left, right, left_key, right_key }, hash_cost)
            } else if costs_no_more(&sm_cost, &nl_cost, compare) {
                (PhysicalOp::SortMergeJoin { left, right, left_key, right_key }, sm_cost)
            } else {
                (PhysicalOp::NestedLoopJoin { left, right }, nl_cost)
            }
        },
        JoinType::NestedLoop => {
            if costs_no_more(&sm_cost, &nl_cost, compare) {
                (
                    PhysicalOp::SortMergeJoin { left, right, left_key: String::new(), right_key: String::new() },
                    sm_cost,
                )
            } else {
                (PhysicalOp::NestedLoopJoin { left, right }, nl_cost)
            }
        },
    };
    PhysicalPlan { op, cost: PlanCost::cpu_only(cost), cardinality: card }
}

/// Converts a logical plan into a physical plan.
///
/// This is a heuristic-based conversion that picks physical operators
/// based on operator type and estimated cost.
pub fn physical_plan_from_logical<F: Fn(&Quantity, &Quantity) -> Compared>(
    logical: &LogicalPlan,
    cm: &CostModel,
    catalog_stats: &CatalogStats,
    compare: &F,
) -> (r: PhysicalPlan)
    requires
        decides(*compare),
        convertible(logical@),
    ensures
        r@ == physical_form(logical@, *cm, *catalog_stats, *compare),
    decreases logical,
{
    proof {
        reveal_with_fuel(plan_view, 2);
    }
    match &logical.op {
        LogicalOp::AllScan { alias } => scan_all(alias.clone(), cm, catalog_stats),
        LogicalOp::LabelScan { alias, label } => PhysicalPlan {
            op: PhysicalOp::SeqScan { alias: alias.clone(), label: Some(*label) },
            cost: PlanCost::cpu_only(cm.scan_label_cost.clone()),
            cardinality: catalog_stats.label_cardinality(*label),
        },
        LogicalOp::LabelPropertyScan { alias, label, property, value } => index_seek(
            PhysicalOp::IndexSeek { alias: alias.clone(), label: *label, property: *property, value: value.clone() },
            catalog_stats.label_cardinality(*label),
            cm,
        ),
        LogicalOp::EdgeTypeScan { alias, edge_type } => PhysicalPlan {
            op: PhysicalOp::EdgeTypeScan { alias: alias.clone(), edge_type: *edge_type },
            cost: PlanCost::cpu_only(cm.scan_label_cost.clone()),
            cardinality: catalog_stats.edge_type_cardinality(*edge_type),
        },
        LogicalOp::EdgeTypePropertyScan { alias, edge_type, property, value } => index_seek(
            PhysicalOp::EdgeTypePropertyScan {
                alias: alias.clone(),
                edge_type: *edge_type,
                property: *property,
                value: value.clone(),
            },
            catalog_stats.edge_type_cardinality(*edge_type),
            cm,
        ),
        LogicalOp::Filter { condition } => {
            let child = scan_all(None, cm, catalog_stats);
            build_filter(condition, child, cm, catalog_stats)
        },
        LogicalOp::Project { expressions } => {
            let child = scan_all(None, cm, catalog_stats);
            let card = child.cardinality.clone();
            PhysicalPlan {
                op: PhysicalOp::Project { expressions: clone_exprs(expressions), child: Box::new(child) },
                cost: PlanCost::cpu_only(card.clone()),
                cardinality: card,
            }
        },
        LogicalOp::Join { left, right, join_type } => {
            let left_phys = physical_plan_from_logical(left, cm, catalog_stats, compare);
            if is_absorbing(&right.op) {
                absorb(&right.op, left_phys, cm, catalog_stats)
            } else {
                let right_phys = physical_plan_from_logical(right, cm, catalog_stats, compare);
                choose_join_physical(left_phys, right_phys, join_type, cm, compare)
            }
        },
        LogicalOp::Sort { key } => {
            let child = scan_all(None, cm, catalog_stats);
            build_sort(key, child, cm)
        },
        LogicalOp::Limit { count } => {
            let child = scan_all(None, cm, catalog_stats);
            build_limit_or_top_n(*count, child, cm)
        },
        LogicalOp::TopN { key, count } => {
            let child = scan_all(None, cm, catalog_stats);
            build_top_n(key, *count, child, cm)
        },
        LogicalOp::Aggregate { group_by, aggregates } => {
            let child = scan_all(None, cm, catalog_stats);
            build_aggregate(group_by, aggregates, child, cm)
        },
        LogicalOp::Distinct => {
            let child = scan_all(None, cm, catalog_stats);
            let rows = child.cardinality.clone();
            build_distinct(PhysicalOp::Distinct { child: Box::new(child) }, rows, cm)
        },
        LogicalOp::Union { left, right, all } => {
            let left_phys = physical_plan_from_logical(left, cm, catalog_stats, compare);
            let right_phys = physical_plan_from_logical(right, cm, catalog_stats, compare);
            let rows = left_phys.cardinality.clone().plus(right_phys.cardinality.clone());
            PhysicalPlan {
                op: PhysicalOp::NestedLoopJoin { left: Box::new(left_phys), right: Box::new(right_phys) },
                cost: PlanCost::cpu_only(cm.union_overhead.clone()),
                cardinality: if *all {
                    rows
                } else {
                    rows.times(Quantity::from_decimal(5, 1))
                },
            }
        },
        LogicalOp::Produce { items } => {
            let child = scan_all(None, cm, catalog_stats);
            PhysicalPlan {
                op: PhysicalOp::Produce { items: clone_items(items), child: Box::new(child) },
                cost: PlanCost::cpu_only(Quantity::Count(1)),
                cardinality: logical.cardinality.clone().at_least(Quantity::Count(1)),
            }
        },
        LogicalOp::Skip { count } => {
            let child = scan_all(None, cm, catalog_stats);
            build_skip(*count, child)
        },
        _ => PhysicalPlan {
            op: PhysicalOp::SeqScan { alias: None, label: None },
            cost: PlanCost::default(),
            cardinality: Quantity::Count(0),
        },
    }
}

} // verus!
