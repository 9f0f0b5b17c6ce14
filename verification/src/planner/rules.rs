//! The rule-based optimizer: each rule rewrites a plan, and `optimize` applies them in turn.
use vstd::prelude::*;

use crate::planner::cost::CostModel;
use crate::planner::expression::{BinaryOp, Expr, Expression};
use crate::planner::fold::{check_fits, fits, fold_expression, folded};
use crate::planner::logical::{op_view, plan_view, JoinKind, JoinType, LogicalOp, LogicalPlan, Op, Plan, PlanCost};
use crate::planner::query::{opt_text, views};
use crate::planner::stats::{at_least_one, count_at_least_one, PlanStats};
use crate::quantity::{compared, decides, Compared, Quantity};

verus! {

/// A join in place of another: the same cost and rows, new inputs.
pub open spec fn rejoined(p: Plan, left: Plan, right: Plan, kind: JoinKind) -> Plan {
    Plan { op: Op::Join(Box::new(left), Box::new(right), kind), cost: p.cost, cardinality: p.cardinality }
}

/// A union in place of another: the same cost and rows, new inputs.
pub open spec fn reunited(p: Plan, left: Plan, right: Plan, all: bool) -> Plan {
    Plan { op: Op::Union(Box::new(left), Box::new(right), all), cost: p.cost, cardinality: p.cardinality }
}

/// The operators that a limit or an offset is pushed through.
pub open spec fn lets_rows_through(op: Op) -> bool {
    op is Sort || op is Filter || op is Project
}

/// A plan with limits pushed down: where a limit stands to the left of a sort, a filter or a
/// projection, the estimates take it into account.
pub open spec fn limit_pushed(p: Plan) -> Plan
    decreases p,
{
    match p.op {
        Op::Join(left, right, kind) => if left.op is Limit && lets_rows_through(right.op) {
            let rows = Quantity::smaller(left.cardinality, Quantity::Count(left.op->Limit_0 as u64));
            Plan {
                op: Op::Join(
                    Box::new(Plan { op: left.op, cost: left.cost, cardinality: rows }),
                    right,
                    kind,
                ),
                cost: p.cost,
                cardinality: Quantity::smaller(rows, right.cardinality),
            }
        } else {
            rejoined(p, limit_pushed(*left), limit_pushed(*right), kind)
        },
        Op::Union(left, right, all) => reunited(p, limit_pushed(*left), limit_pushed(*right), all),
        _ => p,
    }
}

/// A plan with offsets pushed down: where an offset stands to the left of a sort, a filter or a
/// projection, the estimates take it into account.
pub open spec fn skip_pushed(p: Plan) -> Plan
    decreases p,
{
    match p.op {
        Op::Join(left, right, kind) => if left.op is Skip && lets_rows_through(right.op) {
            let rows = Quantity::larger(
                Quantity::difference(left.cardinality, Quantity::Count(left.op->Skip_0 as u64)),
                Quantity::Count(0),
            );
            Plan {
                op: Op::Join(
                    Box::new(Plan { op: left.op, cost: left.cost, cardinality: rows }),
                    right,
                    kind,
                ),
                cost: p.cost,
                cardinality: Quantity::smaller(rows, right.cardinality),
            }
        } else {
            rejoined(p, skip_pushed(*left), skip_pushed(*right), kind)
        },
        Op::Union(left, right, all) => reunited(p, skip_pushed(*left), skip_pushed(*right), all),
        _ => p,
    }
}

/// The identifiers that an expression mentions, from left to right, as far as it is built from
/// operators and property reads.
pub open spec fn identifiers(e: Expr) -> Seq<Seq<char>>
    decreases e,
{
    match e {
        Expr::Identifier(id) => seq![id],
        Expr::Property(object, _) => identifiers(*object),
        Expr::Binary(_, lhs, rhs) => identifiers(*lhs) + identifiers(*rhs),
        Expr::Unary(_, inner) => identifiers(*inner),
        _ => Seq::empty(),
    }
}

/// Whether every identifier that a condition mentions is projected as it is.
pub open spec fn references_preserved(condition: Expr, expressions: Seq<Expr>) -> bool {
    forall|i: int|
        0 <= i < identifiers(condition).len() ==> expressions.contains(Expr::Identifier(#[trigger] identifiers(condition)[i]))
}

/// A plan with filters pushed down: where a filter stands to the left of a projection that keeps
/// what it reads, the estimates take it into account.
pub open spec fn filter_pushed(p: Plan) -> Plan
    decreases p,
{
    match p.op {
        Op::Join(left, right, kind) => if left.op is Filter && right.op is Project && references_preserved(
            left.op->Filter_0,
            right.op->Project_0,
        ) {
            let rows = Quantity::product(right.cardinality, Quantity::decimal(3, 1));
            Plan {
                op: Op::Join(
                    Box::new(Plan { op: left.op, cost: left.cost, cardinality: rows }),
                    right,
                    kind,
                ),
                cost: p.cost,
                cardinality: Quantity::smaller(rows, right.cardinality),
            }
        } else {
            rejoined(p, filter_pushed(*left), filter_pushed(*right), kind)
        },
        Op::Union(left, right, all) => reunited(p, filter_pushed(*left), filter_pushed(*right), all),
        _ => p,
    }
}

/// Whether an operator is a filter that lets every row through.
pub open spec fn is_true_filter(op: Op) -> bool {
    op == Op::Filter(Expr::Bool(true))
}

/// A plan without the filters that let every row through, where they filter the left side of a join.
/// One that stands to the left filters a scan of its own, and stays.
pub open spec fn redundant_filters_removed(p: Plan) -> Plan
    decreases p,
{
    match p.op {
        Op::Join(l, r, kind) => {
            let left = redundant_filters_removed(*l);
            let right = redundant_filters_removed(*r);
            if is_true_filter(right.op) {
                left
            } else {
                rejoined(p, left, right, kind)
            }
        },
        Op::Union(left, right, all) => reunited(
            p,
            redundant_filters_removed(*left),
            redundant_filters_removed(*right),
            all,
        ),
        _ => p,
    }
}

/// Two filters in one: both conditions, the sum of the costs, the smaller number of rows. `first`
/// is the condition of the plan `left` or of its last filter.
pub open spec fn merged_filter(first: Expr, second: Expr, left: Plan, right: Plan) -> Plan {
    Plan {
        op: Op::Filter(Expr::Binary(BinaryOp::And, Box::new(first), Box::new(second))),
        cost: PlanCost::of_cpu(Quantity::sum(left.cost.cpu, right.cost.cpu)),
        cardinality: Quantity::smaller(left.cardinality, right.cardinality),
    }
}

/// A plan with adjacent filters merged, from the leaves up.
pub open spec fn filters_merged(p: Plan) -> Plan
    decreases p,
{
    match p.op {
        Op::Join(l, r, kind) => {
            let left = filters_merged(*l);
            let right = filters_merged(*r);
            match (left.op, right.op) {
                (Op::Filter(first), Op::Filter(second)) => merged_filter(first, second, left, right),
                (Op::Join(base, inner, inner_kind), Op::Filter(second)) => match inner.op {
                    Op::Filter(first) => rejoined(p, *base, merged_filter(first, second, left, right), inner_kind),
                    _ => rejoined(p, left, right, kind),
                },
                _ => rejoined(p, left, right, kind),
            }
        },
        Op::Union(l, r, all) => reunited(p, filters_merged(*l), filters_merged(*r), all),
        _ => p,
    }
}

/// A plan with the constants in its conditions folded.
pub open spec fn constants_folded<F: Fn(&Quantity, &Quantity) -> Compared>(p: Plan, compare: F) -> Plan
    decreases p,
{
    match p.op {
        Op::Filter(condition) => Plan {
            op: Op::Filter(folded(condition, compare)),
            cost: p.cost,
            cardinality: p.cardinality,
        },
        Op::Join(left, right, kind) => rejoined(
            p,
            constants_folded(*left, compare),
            constants_folded(*right, compare),
            kind,
        ),
        Op::Union(left, right, all) => reunited(
            p,
            constants_folded(*left, compare),
            constants_folded(*right, compare),
            all,
        ),
        _ => p,
    }
}

/// A plan without the filters of its joins that let every row through.
pub open spec fn true_filters_removed(p: Plan) -> Plan
    decreases p,
{
    match p.op {
        Op::Join(l, r, kind) => {
            let left = true_filters_removed(*l);
            let right = true_filters_removed(*r);
            if is_true_filter(right.op) {
                left
            } else if is_true_filter(left.op) {
                right
            } else {
                rejoined(p, left, right, kind)
            }
        },
        Op::Union(left, right, all) => reunited(p, true_filters_removed(*left), true_filters_removed(*right), all),
        _ => p,
    }
}

/// Whether an operator is a filter that lets no row through.
pub open spec fn is_false_filter(op: Op) -> bool {
    op == Op::Filter(Expr::Bool(false)) || op == Op::Filter(Expr::Null)
}

/// The plan that gives no rows and costs nothing.
pub open spec fn empty_plan() -> Plan {
    Plan { op: Op::EmptyResult, cost: PlanCost::zero(), cardinality: Quantity::Count(0) }
}

/// A plan in which a filter that lets nothing through is replaced by the empty plan, which takes
/// the place of every join that it is part of.
pub open spec fn trivial_filters_simplified(p: Plan) -> Plan
    decreases p,
{
    match p.op {
        Op::Join(l, r, kind) => {
            let left = trivial_filters_simplified(*l);
            let right = trivial_filters_simplified(*r);
            if is_false_filter(r.op) {
                empty_plan()
            } else if left.op is EmptyResult {
                left
            } else if right.op is EmptyResult {
                right
            } else {
                rejoined(p, left, right, kind)
            }
        },
        Op::Union(left, right, all) => reunited(
            p,
            trivial_filters_simplified(*left),
            trivial_filters_simplified(*right),
            all,
        ),
        _ => if is_false_filter(p.op) {
            empty_plan()
        } else {
            p
        },
    }
}

/// The text of an optional name, empty where there is none.
pub open spec fn text_or_empty(o: Option<Seq<char>>) -> Seq<char> {
    match o {
        Some(s) => s,
        None => Seq::empty(),
    }
}

/// The rows that two index scans of one label have in common, taken as independent.
pub open spec fn intersection_rows(l: u64, r: u64, vertices: u64) -> Quantity {
    Quantity::larger(
        Quantity::quotient(
            Quantity::product(Quantity::Count(l), Quantity::Count(r)),
            Quantity::Count(at_least_one(vertices)),
        ),
        Quantity::Count(1),
    )
}

/// The number that is known for a label and a property, or one.
pub open spec fn indexed_rows(stats: PlanStats, op: Op) -> u64 {
    match stats.label_property_count(op->LabelPropertyScan_1, op->LabelPropertyScan_2) {
        Some(n) => n,
        None => 1,
    }
}

/// Whether two operators scan an index for the same name and label.
pub open spec fn intersects(left: Op, right: Op) -> bool {
    &&& left is LabelPropertyScan
    &&& right is LabelPropertyScan
    &&& left->LabelPropertyScan_0 == right->LabelPropertyScan_0
    &&& left->LabelPropertyScan_1 == right->LabelPropertyScan_1
}

/// A plan in which joins of two index scans for one name and label are hash joins on that name.
pub open spec fn indices_intersected(p: Plan, stats: PlanStats) -> Plan
    decreases p,
{
    match p.op {
        Op::Join(l, r, kind) => {
            let left = indices_intersected(*l, stats);
            let right = indices_intersected(*r, stats);
            if intersects(left.op, right.op) {
                let rows = intersection_rows(
                    indexed_rows(stats, left.op),
                    indexed_rows(stats, right.op),
                    stats.vertex_count,
                );
                let name = text_or_empty(left.op->LabelPropertyScan_0);
                Plan {
                    op: Op::Join(Box::new(left), Box::new(right), JoinKind::HashJoin(name, name)),
                    cost: PlanCost::of_cpu(Quantity::sum(rows, Quantity::Count(50))),
                    cardinality: rows,
                }
            } else {
                rejoined(p, left, right, kind)
            }
        },
        Op::Union(left, right, all) => reunited(
            p,
            indices_intersected(*left, stats),
            indices_intersected(*right, stats),
            all,
        ),
        _ => p,
    }
}

/// The operators that work on what stands to their left, and so must stay where they are.
pub open spec fn is_pipeline(op: Op) -> bool {
    op is Produce || op is Project || op is Sort || op is Limit || op is Skip || op is Filter || op is Distinct
        || op is EdgeExpand || op is Aggregate
}

/// A plan with the smaller input of each join to the left, as far as the inputs may be swapped.
pub open spec fn joins_reordered<F: Fn(&Quantity, &Quantity) -> Compared>(p: Plan, cm: CostModel, compare: F) -> Plan
    decreases p,
{
    match p.op {
        Op::Join(l, r, kind) => {
            let left = joins_reordered(*l, cm, compare);
            let right = joins_reordered(*r, cm, compare);
            let rows = Quantity::larger(left.cardinality, right.cardinality);
            let swaps = !is_pipeline(left.op) && !is_pipeline(right.op) && compared(
                compare,
                right.cardinality,
                left.cardinality,
            ) == Compared::Less;
            Plan {
                op: if swaps {
                    Op::Join(Box::new(right), Box::new(left), kind)
                } else {
                    Op::Join(Box::new(left), Box::new(right), kind)
                },
                cost: PlanCost::of_cpu(Quantity::sum(rows, cm.nested_loop_join_cost)),
                cardinality: rows,
            }
        },
        Op::Union(l, r, all) => {
            let left = joins_reordered(*l, cm, compare);
            let right = joins_reordered(*r, cm, compare);
            let rows = Quantity::sum(left.cardinality, right.cardinality);
            Plan {
                op: Op::Union(Box::new(left), Box::new(right), all),
                cost: PlanCost::of_cpu(Quantity::sum(p.cost.cpu, cm.union_overhead)),
                cardinality: if all {
                    rows
                } else {
                    Quantity::product(rows, Quantity::decimal(5, 1))
                },
            }
        },
        _ => p,
    }
}

/// A plan before its constants are folded: limits, offsets and filters pushed down, filters merged.
pub open spec fn pushed_down(p: Plan) -> Plan {
    filters_merged(redundant_filters_removed(filter_pushed(skip_pushed(limit_pushed(p)))))
}

/// What `optimize` makes of a plan.
pub open spec fn optimized<F: Fn(&Quantity, &Quantity) -> Compared>(
    p: Plan,
    stats: PlanStats,
    cm: CostModel,
    compare: F,
) -> Plan {
    let folded_plan = constants_folded(pushed_down(p), compare);
    let simplified = true_filters_removed(trivial_filters_simplified(folded_plan));
    joins_reordered(indices_intersected(simplified, stats), cm, compare)
}

/// Whether folding the conditions of a plan stays within the machine's integers.
pub open spec fn conditions_fit<F: Fn(&Quantity, &Quantity) -> Compared>(p: Plan, compare: F) -> bool
    decreases p,
{
    match p.op {
        Op::Filter(condition) => fits(condition, compare),
        Op::Join(left, right, _) => conditions_fit(*left, compare) && conditions_fit(*right, compare),
        Op::Union(left, right, _) => conditions_fit(*left, compare) && conditions_fit(*right, compare),
        _ => true,
    }
}

fn passes_rows(op: &LogicalOp) -> (r: bool)
    ensures
        r == lets_rows_through(op@),
{
    match op {
        LogicalOp::Sort { .. } | LogicalOp::Filter { .. } | LogicalOp::Project { .. } => true,
        _ => false,
    }
}

/// Pushes limits down. Unary operators are chained by joins, so only joins and unions are entered.
pub fn pushdown_limit(plan: LogicalPlan) -> (r: LogicalPlan)
    ensures
        r@ == limit_pushed(plan@),
    decreases plan,
{
    proof {
        reveal_with_fuel(plan_view, 3);
        reveal_with_fuel(op_view, 3);
    }
    let LogicalPlan { op, cost, cardinality } = plan;
    match op {
        LogicalOp::Join { left, right, join_type } => {
            if let LogicalOp::Limit { count } = left.op {
                if passes_rows(&right.op) {
                    let rows = left.cardinality.clone().at_most(Quantity::Count(count as u64));
                    let joined = rows.clone().at_most(right.cardinality.clone());
                    let new_left = LogicalPlan { op: LogicalOp::Limit { count }, cost: left.cost.clone(), cardinality: rows };
                    return LogicalPlan {
                        op: LogicalOp::Join { left: Box::new(new_left), right, join_type },
                        cost,
                        cardinality: joined,
                    };
                }
            }
            let left = pushdown_limit(*left);
            let right = pushdown_limit(*right);
            LogicalPlan { op: LogicalOp::Join { left: Box::new(left), right: Box::new(right), join_type }, cost, cardinality }
        },
        LogicalOp::Union { left, right, all } => {
            let left = pushdown_limit(*left);
            let right = pushdown_limit(*right);
            LogicalPlan { op: LogicalOp::Union { left: Box::new(left), right: Box::new(right), all }, cost, cardinality }
        },
        op => LogicalPlan { op, cost, cardinality },
    }
}

/// Pushes offsets down, as `pushdown_limit` does limits.
pub fn pushdown_skip(plan: LogicalPlan) -> (r: LogicalPlan)
    ensures
        r@ == skip_pushed(plan@),
    decreases plan,
{
    proof {
        reveal_with_fuel(plan_view, 3);
        reveal_with_fuel(op_view, 3);
    }
    let LogicalPlan { op, cost, cardinality } = plan;
    match op {
        LogicalOp::Join { left, right, join_type } => {
            if let LogicalOp::Skip { count } = left.op {
                if passes_rows(&right.op) {
                    let rows = left.cardinality.clone().minus(Quantity::Count(count as u64)).at_least(Quantity::Count(0));
                    let joined = rows.clone().at_most(right.cardinality.clone());
                    let new_left = LogicalPlan { op: LogicalOp::Skip { count }, cost: left.cost.clone(), cardinality: rows };
                    return LogicalPlan {
                        op: LogicalOp::Join { left: Box::new(new_left), right, join_type },
                        cost,
                        cardinality: joined,
                    };
                }
            }
            let left = pushdown_skip(*left);
            let right = pushdown_skip(*right);
            LogicalPlan { op: LogicalOp::Join { left: Box::new(left), right: Box::new(right), join_type }, cost, cardinality }
        },
        LogicalOp::Union { left, right, all } => {
            let left = pushdown_skip(*left);
            let right = pushdown_skip(*right);
            LogicalPlan { op: LogicalOp::Union { left: Box::new(left), right: Box::new(right), all }, cost, cardinality }
        },
        op => LogicalPlan { op, cost, cardinality },
    }
}

/// Appends the identifiers that an expression mentions.
pub fn collect_identifiers(expr: &Expression, out: &mut Vec<String>)
    ensures
        views(final(out)@) == views(old(out)@) + identifiers(expr@),
    decreases expr,
{
    match expr {
        Expression::Identifier(id) => {
            out.push(id.clone());
            assert(views(out@) =~= views(old(out)@) + identifiers(expr@));
        },
        Expression::Property { object, .. } => collect_identifiers(object, out),
        Expression::Binary(_, lhs, rhs) => {
            collect_identifiers(lhs, out);
            collect_identifiers(rhs, out);
            assert(views(out@) =~= views(old(out)@) + identifiers(expr@));
        },
        Expression::Unary(_, inner) => collect_identifiers(inner, out),
        _ => {
            assert(views(out@) =~= views(old(out)@) + identifiers(expr@));
        },
    }
}

fn projects(expressions: &Vec<Expression>, id: &String) -> (r: bool)
    ensures
        r == views(expressions@).contains(Expr::Identifier(id@)),
{
    let mut i: usize = 0;
    while i < expressions.len()
        invariant
            i <= expressions@.len(),
            forall|j: int| 0 <= j < i ==> (#[trigger] expressions@[j])@ != Expr::Identifier(id@),
        decreases expressions@.len() - i,
    {
        if let Expression::Identifier(alias) = &expressions[i] {
            if *alias == *id {
                assert(views(expressions@)[i as int] == Expr::Identifier(id@));
                return true;
            }
        }
        i += 1;
    }
    assert forall|j: int| 0 <= j < views(expressions@).len() implies views(expressions@)[j] != Expr::Identifier(id@) by {
        assert(expressions@[j]@ != Expr::Identifier(id@));
    }
    false
}

/// Check whether a filter condition only references identifiers that are
/// preserved (not transformed) by the projection.
pub fn filter_references_preserved(condition: &Expression, expressions: &Vec<Expression>) -> (r: bool)
    ensures
        r == references_preserved(condition@, views(expressions@)),
{
    let mut referenced: Vec<String> = Vec::new();
    collect_identifiers(condition, &mut referenced);
    assert(views(referenced@) =~= identifiers(condition@));
    let mut i: usize = 0;
    while i < referenced.len()
        invariant
            i <= referenced@.len(),
            views(referenced@) == identifiers(condition@),
            forall|j: int|
                0 <= j < i ==> views(expressions@).contains(Expr::Identifier(#[trigger] identifiers(condition@)[j])),
        decreases referenced@.len() - i,
    {
        assert(identifiers(condition@)[i as int] == referenced@[i as int]@);
        if !projects(expressions, &referenced[i]) {
            return false;
        }
        i += 1;
    }
    true
}

fn filter_passes(left: &LogicalOp, right: &LogicalOp) -> (r: bool)
    ensures
        r == (left@ is Filter && right@ is Project && references_preserved(left@->Filter_0, right@->Project_0)),
{
    match (left, right) {
        (LogicalOp::Filter { condition }, LogicalOp::Project { expressions }) => {
            filter_references_preserved(condition, expressions)
        },
        _ => false,
    }
}

/// Push Filter down through Project when the filter only references
/// expressions already present before the projection.
pub fn pushdown_filter(plan: LogicalPlan) -> (r: LogicalPlan)
    ensures
        r@ == filter_pushed(plan@),
    decreases plan,
{
    proof {
        reveal_with_fuel(plan_view, 2);
        reveal_with_fuel(op_view, 2);
    }
    let LogicalPlan { op, cost, cardinality } = plan;
    match op {
        LogicalOp::Join { left, right, join_type } => {
            if filter_passes(&left.op, &right.op) {
                let rows = right.cardinality.clone().times(Quantity::from_decimal(3, 1));
                let joined = rows.clone().at_most(right.cardinality.clone());
                let left = *left;
                let new_left = LogicalPlan { op: left.op, cost: left.cost, cardinality: rows };
                return LogicalPlan {
                    op: LogicalOp::Join { left: Box::new(new_left), right, join_type },
                    cost,
                    cardinality: joined,
                };
            }
            let left = pushdown_filter(*left);
            let right = pushdown_filter(*right);
            LogicalPlan { op: LogicalOp::Join { left: Box::new(left), right: Box::new(right), join_type }, cost, cardinality }
        },
        LogicalOp::Union { left, right, all } => {
            let left = pushdown_filter(*left);
            let right = pushdown_filter(*right);
            LogicalPlan { op: LogicalOp::Union { left: Box::new(left), right: Box::new(right), all }, cost, cardinality }
        },
        op => LogicalPlan { op, cost, cardinality },
    }
}

fn true_filter(op: &LogicalOp) -> (r: bool)
    ensures
        r == is_true_filter(op@),
{
    match op {
        LogicalOp::Filter { condition } => match condition {
            Expression::Bool(b) => *b,
            _ => false,
        },
        _ => false,
    }
}

fn false_filter(op: &LogicalOp) -> (r: bool)
    ensures
        r == is_false_filter(op@),
{
    match op {
        LogicalOp::Filter { condition } => match condition {
            Expression::Bool(b) => !*b,
            Expression::Null => true,
            _ => false,
        },
        _ => false,
    }
}

/// Removes redundant filters that are always true.
pub fn remove_redundant_filters(plan: LogicalPlan) -> (r: LogicalPlan)
    ensures
        r@ == redundant_filters_removed(plan@),
    decreases plan,
{
    let LogicalPlan { op, cost, cardinality } = plan;
    match op {
        LogicalOp::Join { left, right, join_type } => {
            let left = remove_redundant_filters(*left);
            let right = remove_redundant_filters(*right);
            if true_filter(&right.op) {
                return left;
            }
            LogicalPlan { op: LogicalOp::Join { left: Box::new(left), right: Box::new(right), join_type }, cost, cardinality }
        },
        LogicalOp::Union { left, right, all } => {
            let left = remove_redundant_filters(*left);
            let right = remove_redundant_filters(*right);
            LogicalPlan { op: LogicalOp::Union { left: Box::new(left), right: Box::new(right), all }, cost, cardinality }
        },
        op => LogicalPlan { op, cost, cardinality },
    }
}

fn merge_two(first: &Expression, second: &Expression, left: &LogicalPlan, right: &LogicalPlan) -> (r: LogicalPlan)
    ensures
        r@ == merged_filter(first@, second@, left@, right@),
{
    LogicalPlan {
        op: LogicalOp::Filter {
            condition: Expression::Binary(BinaryOp::And, Box::new(first.clone()), Box::new(second.clone())),
        },
        cost: PlanCost::cpu_only(left.cost.cpu.clone().plus(right.cost.cpu.clone())),
        cardinality: left.cardinality.clone().at_most(right.cardinality.clone()),
    }
}

/// Merges adjacent filters into one filter with both conditions.
///
/// Unary operators are chained by joins, so two consecutive filters look like
/// `Join(Join(.., Filter(A)), Filter(B))`; they become `Join(.., Filter(And(A, B)))`.
pub fn merge_filters(plan: LogicalPlan) -> (r: LogicalPlan)
    ensures
        r@ == filters_merged(plan@),
    decreases plan,
{
    proof {
        reveal_with_fuel(plan_view, 3);
        reveal_with_fuel(op_view, 3);
    }
    let LogicalPlan { op, cost, cardinality } = plan;
    match op {
        LogicalOp::Join { left, right, join_type } => {
            let right = merge_filters(*right);
            let left = merge_filters(*left);
            if let LogicalOp::Filter { condition: second } = &right.op {
                if let LogicalOp::Join { left: base, right: inner, join_type: inner_join_type } = &left.op {
                    if let LogicalOp::Filter { condition: first } = &inner.op {
                        let merged = merge_two(first, second, &left, &right);
                        return LogicalPlan {
                            op: LogicalOp::Join {
                                left: Box::new((**base).clone()),
                                right: Box::new(merged),
                                join_type: inner_join_type.clone(),
                            },
                            cost,
                            cardinality,
                        };
                    }
                }
                if let LogicalOp::Filter { condition: first } = &left.op {
                    return merge_two(first, second, &left, &right);
                }
            }
            LogicalPlan { op: LogicalOp::Join { left: Box::new(left), right: Box::new(right), join_type }, cost, cardinality }
        },
        LogicalOp::Union { left, right, all } => {
            let left = merge_filters(*left);
            let right = merge_filters(*right);
            LogicalPlan { op: LogicalOp::Union { left: Box::new(left), right: Box::new(right), all }, cost, cardinality }
        },
        op => LogicalPlan { op, cost, cardinality },
    }
}

/// Folds the constants in the conditions of a plan.
pub fn constant_fold<F: Fn(&Quantity, &Quantity) -> Compared>(plan: LogicalPlan, compare: &F) -> (r: LogicalPlan)
    requires
        decides(*compare),
        conditions_fit(plan@, *compare),
    ensures
        r@ == constants_folded(plan@, *compare),
    decreases plan,
{
    let LogicalPlan { op, cost, cardinality } = plan;
    match op {
        LogicalOp::Filter { condition } => {
            let condition = fold_expression(&condition, compare);
            LogicalPlan { op: LogicalOp::Filter { condition }, cost, cardinality }
        },
        LogicalOp::Join { left, right, join_type } => {
            let left = constant_fold(*left, compare);
            let right = constant_fold(*right, compare);
            LogicalPlan { op: LogicalOp::Join { left: Box::new(left), right: Box::new(right), join_type }, cost, cardinality }
        },
        LogicalOp::Union { left, right, all } => {
            let left = constant_fold(*left, compare);
            let right = constant_fold(*right, compare);
            LogicalPlan { op: LogicalOp::Union { left: Box::new(left), right: Box::new(right), all }, cost, cardinality }
        },
        op => LogicalPlan { op, cost, cardinality },
    }
}

/// Removes the filters of joins that let every row through: the join gives way to its other input.
pub fn remove_true_filters(plan: LogicalPlan) -> (r: LogicalPlan)
    ensures
        r@ == true_filters_removed(plan@),
    decreases plan,
{
    let LogicalPlan { op, cost, cardinality } = plan;
    match op {
        LogicalOp::Join { left, right, join_type } => {
            let left = remove_true_filters(*left);
            let right = remove_true_filters(*right);
            if true_filter(&right.op) {
                return left;
            }
            if true_filter(&left.op) {
                return right;
            }
            LogicalPlan { op: LogicalOp::Join { left: Box::new(left), right: Box::new(right), join_type }, cost, cardinality }
        },
        LogicalOp::Union { left, right, all } => {
            let left = remove_true_filters(*left);
            let right = remove_true_filters(*right);
            LogicalPlan { op: LogicalOp::Union { left: Box::new(left), right: Box::new(right), all }, cost, cardinality }
        },
        op => LogicalPlan { op, cost, cardinality },
    }
}

fn is_empty_result(op: &LogicalOp) -> (r: bool)
    ensures
        r == (op@ is EmptyResult),
{
    match op {
        LogicalOp::EmptyResult => true,
        _ => false,
    }
}

fn nothing() -> (r: LogicalPlan)
    ensures
        r@ == empty_plan(),
{
    LogicalPlan { op: LogicalOp::EmptyResult, cost: PlanCost::default(), cardinality: Quantity::Count(0) }
}

/// Replaces a filter that lets nothing through by an empty result, and every join that an empty
/// result is part of by that result.
pub fn simplify_trivial_filters(plan: LogicalPlan) -> (r: LogicalPlan)
    ensures
        r@ == trivial_filters_simplified(plan@),
    decreases plan,
{
    proof {
        reveal_with_fuel(plan_view, 2);
        reveal_with_fuel(op_view, 2);
    }
    let LogicalPlan { op, cost, cardinality } = plan;
    match op {
        LogicalOp::Join { left, right, join_type } => {
            let left = simplify_trivial_filters(*left);
            if false_filter(&right.op) {
                return nothing();
            }
            if is_empty_result(&left.op) {
                return left;
            }
            let right = simplify_trivial_filters(*right);
            if is_empty_result(&right.op) {
                return right;
            }
            LogicalPlan { op: LogicalOp::Join { left: Box::new(left), right: Box::new(right), join_type }, cost, cardinality }
        },
        LogicalOp::Union { left, right, all } => {
            let left = simplify_trivial_filters(*left);
            let right = simplify_trivial_filters(*right);
            LogicalPlan { op: LogicalOp::Union { left: Box::new(left), right: Box::new(right), all }, cost, cardinality }
        },
        op => if false_filter(&op) {
            nothing()
        } else {
            LogicalPlan { op, cost, cardinality }
        },
    }
}

fn same_name(a: &Option<String>, b: &Option<String>) -> (r: bool)
    ensures
        r == (opt_text(*a) == opt_text(*b)),
{
    match (a, b) {
        (Some(x), Some(y)) => *x == *y,
        (None, None) => true,
        _ => false,
    }
}

fn name_or_empty(o: &Option<String>) -> (r: String)
    ensures
        r@ == text_or_empty(opt_text(*o)),
{
    match o {
        Some(s) => s.clone(),
        None => String::new(),
    }
}

fn intersect(left: &LogicalPlan, right: &LogicalPlan, stats: &PlanStats) -> (r: Option<(String, Quantity)>)
    ensures
        r is Some == intersects(left@.op, right@.op),
        r matches Some((name, rows)) ==> name@ == text_or_empty(left@.op->LabelPropertyScan_0) && rows == intersection_rows(
            indexed_rows(*stats, left@.op),
            indexed_rows(*stats, right@.op),
            stats.vertex_count,
        ),
{
    match (&left.op, &right.op) {
        (
            LogicalOp::LabelPropertyScan { alias: l_alias, label: l_label, property: l_prop, .. },
            LogicalOp::LabelPropertyScan { alias: r_alias, label: r_label, property: r_prop, .. },
        ) => {
            if !same_name(l_alias, r_alias) || *l_label != *r_label {
                return None;
            }
            let l_count: u64 = match stats.count_of_label_property(*l_label, *l_prop) {
                Some(n) => n,
                None => 1,
            };
            let r_count: u64 = match stats.count_of_label_property(*r_label, *r_prop) {
                Some(n) => n,
                None => 1,
            };
            let vertices = Quantity::Count(count_at_least_one(stats.vertex_count));
            let common = Quantity::Count(l_count).times(Quantity::Count(r_count)).over(vertices);
            Some((name_or_empty(l_alias), common.at_least(Quantity::Count(1))))
        },
        _ => None,
    }
}

/// Turns a join of two index scans for one name and label into a hash join on that name, with a
/// smaller estimate of its rows.
pub fn index_intersection(plan: LogicalPlan, stats: &PlanStats) -> (r: LogicalPlan)
    ensures
        r@ == indices_intersected(plan@, *stats),
    decreases plan,
{
    let LogicalPlan { op, cost, cardinality } = plan;
    match op {
        LogicalOp::Join { left, right, join_type } => {
            let left = index_intersection(*left, stats);
            let right = index_intersection(*right, stats);
            match intersect(&left, &right, stats) {
                Some((name, rows)) => LogicalPlan {
                    op: LogicalOp::Join {
                        left: Box::new(left),
                        right: Box::new(right),
                        join_type: JoinType::HashJoin { left_key: name.clone(), right_key: name },
                    },
                    cost: PlanCost::cpu_only(rows.clone().plus(Quantity::Count(50))),
                    cardinality: rows,
                },
                None => LogicalPlan {
                    op: LogicalOp::Join { left: Box::new(left), right: Box::new(right), join_type },
                    cost,
                    cardinality,
                },
            }
        },
        LogicalOp::Union { left, right, all } => {
            let left = index_intersection(*left, stats);
            let right = index_intersection(*right, stats);
            LogicalPlan { op: LogicalOp::Union { left: Box::new(left), right: Box::new(right), all }, cost, cardinality }
        },
        op => LogicalPlan { op, cost, cardinality },
    }
}

/// Pipeline operators consume what stands to their left and should not be reordered across join
/// boundaries.
pub fn is_pipeline_operator(op: &LogicalOp) -> (r: bool)
    ensures
        r == is_pipeline(op@),
{
    match op {
        LogicalOp::Produce { .. } | LogicalOp::Project { .. } | LogicalOp::Sort { .. } | LogicalOp::Limit { .. } => true,
        LogicalOp::Skip { .. } | LogicalOp::Filter { .. } | LogicalOp::Distinct => true,
        LogicalOp::EdgeExpand { .. } | LogicalOp::Aggregate { .. } => true,
        _ => false,
    }
}

/// Puts the smaller input of each join to the left, as far as the inputs may be swapped.
pub fn reorder_joins<F: Fn(&Quantity, &Quantity) -> Compared>(plan: LogicalPlan, cm: &CostModel, compare: &F) -> (r:
    LogicalPlan)
    requires
        decides(*compare),
    ensures
        r@ == joins_reordered(plan@, *cm, *compare),
    decreases plan,
{
    let LogicalPlan { op, cost, cardinality } = plan;
    match op {
        LogicalOp::Join { left, right, join_type } => {
            let left = reorder_joins(*left, cm, compare);
            let right = reorder_joins(*right, cm, compare);
            let rows = left.cardinality.clone().at_least(right.cardinality.clone());
            let cost = PlanCost::cpu_only(rows.clone().plus(cm.nested_loop_join_cost.clone()));
            let order = compare(&right.cardinality, &left.cardinality);
            let can_swap = !is_pipeline_operator(&left.op) && !is_pipeline_operator(&right.op);
            if can_swap && order == Compared::Less {
                LogicalPlan {
                    op: LogicalOp::Join { left: Box::new(right), right: Box::new(left), join_type },
                    cost,
                    cardinality: rows,
                }
            } else {
                LogicalPlan {
                    op: LogicalOp::Join { left: Box::new(left), right: Box::new(right), join_type },
                    cost,
                    cardinality: rows,
                }
            }
        },
        LogicalOp::Union { left, right, all } => {
            let left = reorder_joins(*left, cm, compare);
            let right = reorder_joins(*right, cm, compare);
            let rows = left.cardinality.clone().plus(right.cardinality.clone());
            LogicalPlan {
                op: LogicalOp::Union { left: Box::new(left), right: Box::new(right), all },
                cost: PlanCost::cpu_only(cost.cpu.plus(cm.union_overhead.clone())),
                cardinality: if all {
                    rows
                } else {
                    rows.times(Quantity::from_decimal(5, 1))
                },
            }
        },
        op => LogicalPlan { op, cost, cardinality },
    }
}

/// Pushing limits, offsets and filters down and merging filters keeps conditions within range.
proof fn lemma_pushdown_fits<F: Fn(&Quantity, &Quantity) -> Compared>(p: Plan, compare: F)
    requires
        conditions_fit(p, compare),
    ensures
        conditions_fit(limit_pushed(p), compare),
        conditions_fit(skip_pushed(p), compare),
        conditions_fit(filter_pushed(p), compare),
        conditions_fit(redundant_filters_removed(p), compare),
    decreases p,
{
    reveal_with_fuel(conditions_fit, 2);
    match p.op {
        Op::Join(left, right, _) => {
            lemma_pushdown_fits(*left, compare);
            lemma_pushdown_fits(*right, compare);
        },
        Op::Union(left, right, _) => {
            lemma_pushdown_fits(*left, compare);
            lemma_pushdown_fits(*right, compare);
        },
        _ => {},
    }
}

/// Merging filters keeps conditions within range.
proof fn lemma_merge_fits<F: Fn(&Quantity, &Quantity) -> Compared>(p: Plan, compare: F)
    requires
        conditions_fit(p, compare),
    ensures
        conditions_fit(filters_merged(p), compare),
    decreases p,
{
    reveal_with_fuel(conditions_fit, 3);
    match p.op {
        Op::Join(left, right, _) => {
            lemma_merge_fits(*left, compare);
            lemma_merge_fits(*right, compare);
        },
        Op::Union(left, right, _) => {
            lemma_merge_fits(*left, compare);
            lemma_merge_fits(*right, compare);
        },
        _ => {},
    }
}

/// Applies the rewrite rules in turn: limits, offsets and filters are pushed down, filters merged
/// and their constants folded, trivial filters removed, index scans intersected, and the smaller
/// input of each join put to the left.
pub fn optimize<F: Fn(&Quantity, &Quantity) -> Compared>(
    plan: LogicalPlan,
    stats: &PlanStats,
    cost_model: &CostModel,
    compare: &F,
) -> (r: LogicalPlan)
    requires
        decides(*compare),
        conditions_fit(plan@, *compare),
    ensures
        r@ == optimized(plan@, *stats, *cost_model, *compare),
{
    proof {
        let p = plan@;
        lemma_pushdown_fits(p, *compare);
        lemma_pushdown_fits(limit_pushed(p), *compare);
        lemma_pushdown_fits(skip_pushed(limit_pushed(p)), *compare);
        lemma_pushdown_fits(filter_pushed(skip_pushed(limit_pushed(p))), *compare);
        lemma_merge_fits(redundant_filters_removed(filter_pushed(skip_pushed(limit_pushed(p)))), *compare);
    }
    let plan = pushdown_limit(plan);
    let plan = pushdown_skip(plan);
    let plan = pushdown_filter(plan);
    let plan = remove_redundant_filters(plan);
    let plan = merge_filters(plan);
    let plan = constant_fold(plan, compare);
    let plan = simplify_trivial_filters(plan);
    let plan = remove_true_filters(plan);
    let plan = index_intersection(plan, stats);
    reorder_joins(plan, cost_model, compare)
}

/// Decides whether folding the conditions of a plan stays within the machine's integers.
pub fn check_conditions<F: Fn(&Quantity, &Quantity) -> Compared>(plan: &LogicalPlan, compare: &F) -> (r: bool)
    requires
        decides(*compare),
    ensures
        r == conditions_fit(plan@, *compare),
    decreases plan,
{
    match &plan.op {
        LogicalOp::Filter { condition } => check_fits(condition, compare),
        LogicalOp::Join { left, right, .. } => check_conditions(left, compare) && check_conditions(right, compare),
        LogicalOp::Union { left, right, .. } => check_conditions(left, compare) && check_conditions(right, compare),
        _ => true,
    }
}

} // verus!
