//! What holds of the planner as a whole.
use vstd::prelude::*;

use crate::planner::cost::CostModel;
use crate::planner::egraph::{condition_nodes, condition_of, decodable, default_scan, inputs_before, is_condition, join_nodes, leaves, ordered, plan_leaves, plan_nodes, plan_of, Node};
use crate::planner::expression::{BinaryOp, Expr};
use crate::planner::generate::{chain_of, clauses_plan, element_plan, elements_joined, match_plan, node_scan, query_plan, stepped, with_labels, with_properties, with_steps};
use crate::planner::ids::LabelId;
use crate::planner::logical::{JoinKind, Op, Plan, PlanCost};
use crate::planner::physical::{absorbs, convertible};
use crate::planner::query::{Clause, IndexHint, PatternElement, PatternStep, PropertyEntry, Query};
use crate::planner::rules::{constants_folded, filter_pushed, filters_merged, indices_intersected, is_false_filter, is_true_filter, joins_reordered, limit_pushed, optimized, pushed_down, redundant_filters_removed, skip_pushed, trivial_filters_simplified, true_filters_removed};
use crate::planner::stats::PlanStats;
use crate::planner::value::Value;
use crate::quantity::{Compared, Quantity};

verus! {

/// The operators of a plan other than joins and unions, from left to right.
pub open spec fn operators(p: Plan) -> Seq<Op>
    decreases p,
{
    match p.op {
        Op::Join(l, r, _) => operators(*l) + operators(*r),
        Op::Union(l, r, _) => operators(*l) + operators(*r),
        _ => seq![p.op],
    }
}

/// Pushing limits, offsets and filters down and intersecting index scans change estimates and join
/// types only: the operators stay, in their order.
pub proof fn pushdown_keeps_operators(p: Plan, stats: PlanStats)
    ensures
        operators(limit_pushed(p)) == operators(p),
        operators(skip_pushed(p)) == operators(p),
        operators(filter_pushed(p)) == operators(p),
        operators(indices_intersected(p, stats)) == operators(p),
    decreases p,
{
    reveal_with_fuel(operators, 2);
    match p.op {
        Op::Join(l, r, _) => {
            pushdown_keeps_operators(*l, stats);
            pushdown_keeps_operators(*r, stats);
        },
        Op::Union(l, r, _) => {
            pushdown_keeps_operators(*l, stats);
            pushdown_keeps_operators(*r, stats);
        },
        _ => {},
    }
}

/// Reordering joins keeps the operators, each as often as before.
pub proof fn reordering_keeps_operators<F: Fn(&Quantity, &Quantity) -> Compared>(p: Plan, cm: CostModel, compare: F)
    ensures
        operators(joins_reordered(p, cm, compare)).to_multiset() == operators(p).to_multiset(),
    decreases p,
{
    let q = joins_reordered(p, cm, compare);
    match p.op {
        Op::Join(l, r, _) => {
            reordering_keeps_operators(*l, cm, compare);
            reordering_keeps_operators(*r, cm, compare);
            let a = operators(joins_reordered(*l, cm, compare));
            let b = operators(joins_reordered(*r, cm, compare));
            vstd::seq_lib::lemma_multiset_commutative(operators(*l), operators(*r));
            vstd::seq_lib::lemma_multiset_commutative(a, b);
            vstd::seq_lib::lemma_multiset_commutative(b, a);
            assert(a.to_multiset().add(b.to_multiset()) =~= b.to_multiset().add(a.to_multiset()));
        },
        Op::Union(l, r, _) => {
            reordering_keeps_operators(*l, cm, compare);
            reordering_keeps_operators(*r, cm, compare);
            let a = operators(joins_reordered(*l, cm, compare));
            let b = operators(joins_reordered(*r, cm, compare));
            vstd::seq_lib::lemma_multiset_commutative(operators(*l), operators(*r));
            vstd::seq_lib::lemma_multiset_commutative(a, b);
        },
        _ => {},
    }
}

/// The conjuncts of a condition, from left to right.
pub open spec fn conjuncts(e: Expr) -> Seq<Expr>
    decreases e,
{
    match e {
        Expr::Binary(BinaryOp::And, l, r) => conjuncts(*l) + conjuncts(*r),
        _ => seq![e],
    }
}

/// The conjuncts of all conditions of a plan, from left to right.
pub open spec fn conditions(p: Plan) -> Seq<Expr>
    decreases p,
{
    match p.op {
        Op::Join(l, r, _) => conditions(*l) + conditions(*r),
        Op::Union(l, r, _) => conditions(*l) + conditions(*r),
        Op::Filter(c) => conjuncts(c),
        _ => Seq::empty(),
    }
}

/// The operators of a plan other than joins, unions and filters, from left to right.
pub open spec fn other_operators(p: Plan) -> Seq<Op>
    decreases p,
{
    match p.op {
        Op::Join(l, r, _) => other_operators(*l) + other_operators(*r),
        Op::Union(l, r, _) => other_operators(*l) + other_operators(*r),
        Op::Filter(_) => Seq::empty(),
        _ => seq![p.op],
    }
}

/// Merging filters loses no condition and no other operator, and keeps their order.
pub proof fn merging_keeps_conditions(p: Plan)
    ensures
        conditions(filters_merged(p)) == conditions(p),
        other_operators(filters_merged(p)) == other_operators(p),
    decreases p,
{
    reveal_with_fuel(conditions, 3);
    reveal_with_fuel(other_operators, 3);
    let q = filters_merged(p);
    match p.op {
        Op::Join(l, r, _) => {
            merging_keeps_conditions(*l);
            merging_keeps_conditions(*r);
            assert(conditions(q) =~= conditions(filters_merged(*l)) + conditions(filters_merged(*r)));
            assert(other_operators(q) =~= other_operators(filters_merged(*l)) + other_operators(filters_merged(*r)));
        },
        Op::Union(l, r, _) => {
            merging_keeps_conditions(*l);
            merging_keeps_conditions(*r);
        },
        _ => {},
    }
}

/// Whether a plan ends with a filter.
pub open spec fn ends_with_filter(p: Plan) -> bool {
    match p.op {
        Op::Filter(_) => true,
        Op::Join(_, r, _) => r.op is Filter,
        _ => false,
    }
}

/// Whether no filter of a plan directly follows another.
pub open spec fn filters_apart(p: Plan) -> bool
    decreases p,
{
    match p.op {
        Op::Join(l, r, _) => filters_apart(*l) && filters_apart(*r) && !(r.op is Filter && ends_with_filter(*l)),
        Op::Union(l, r, _) => filters_apart(*l) && filters_apart(*r),
        _ => true,
    }
}

/// After merging, no filter directly follows another.
pub proof fn merging_leaves_no_adjacent_filters(p: Plan)
    ensures
        filters_apart(filters_merged(p)),
    decreases p,
{
    reveal_with_fuel(filters_apart, 3);
    match p.op {
        Op::Join(l, r, _) => {
            merging_leaves_no_adjacent_filters(*l);
            merging_leaves_no_adjacent_filters(*r);
        },
        Op::Union(l, r, _) => {
            merging_leaves_no_adjacent_filters(*l);
            merging_leaves_no_adjacent_filters(*r);
        },
        _ => {},
    }
}

/// Whether no join of a plan has a filter that lets every row through.
pub open spec fn joins_lack_true_filters(p: Plan) -> bool
    decreases p,
{
    match p.op {
        Op::Join(l, r, _) => {
            &&& !is_true_filter(l.op)
            &&& !is_true_filter(r.op)
            &&& joins_lack_true_filters(*l)
            &&& joins_lack_true_filters(*r)
        },
        Op::Union(l, r, _) => joins_lack_true_filters(*l) && joins_lack_true_filters(*r),
        _ => true,
    }
}

/// The operators of a plan other than joins, unions and filters that let every row through.
pub open spec fn telling_operators(p: Plan) -> Seq<Op>
    decreases p,
{
    match p.op {
        Op::Join(l, r, _) => telling_operators(*l) + telling_operators(*r),
        Op::Union(l, r, _) => telling_operators(*l) + telling_operators(*r),
        _ => if is_true_filter(p.op) {
            Seq::empty()
        } else {
            seq![p.op]
        },
    }
}

/// Removing the filters that let every row through removes all of them from joins, and nothing
/// else.
pub proof fn only_true_filters_are_removed(p: Plan)
    ensures
        joins_lack_true_filters(true_filters_removed(p)),
        telling_operators(true_filters_removed(p)) == telling_operators(p),
    decreases p,
{
    let q = true_filters_removed(p);
    match p.op {
        Op::Join(l, r, _) => {
            only_true_filters_are_removed(*l);
            only_true_filters_are_removed(*r);
            let a = true_filters_removed(*l);
            let b = true_filters_removed(*r);
            assert(telling_operators(q) =~= telling_operators(a) + telling_operators(b));
        },
        Op::Union(l, r, _) => {
            only_true_filters_are_removed(*l);
            only_true_filters_are_removed(*r);
        },
        _ => {},
    }
}

/// Whether no join of a plan filters its left side by a filter that lets every row through.
pub open spec fn joins_filter_something(p: Plan) -> bool
    decreases p,
{
    match p.op {
        Op::Join(l, r, _) => !is_true_filter(r.op) && joins_filter_something(*l) && joins_filter_something(*r),
        Op::Union(l, r, _) => joins_filter_something(*l) && joins_filter_something(*r),
        _ => true,
    }
}

/// Removing redundant filters removes those that filter the left side of a join, and nothing else. A
/// plan that has a physical form keeps one.
pub proof fn only_redundant_filters_are_removed(p: Plan)
    ensures
        joins_filter_something(redundant_filters_removed(p)),
        telling_operators(redundant_filters_removed(p)) == telling_operators(p),
        convertible(p) ==> convertible(redundant_filters_removed(p)),
    decreases p,
{
    let q = redundant_filters_removed(p);
    match p.op {
        Op::Join(l, r, _) => {
            only_redundant_filters_are_removed(*l);
            only_redundant_filters_are_removed(*r);
            let a = redundant_filters_removed(*l);
            let b = redundant_filters_removed(*r);
            assert(telling_operators(q) =~= telling_operators(a) + telling_operators(b));
            assert(absorbs(r.op) ==> b == *r);
        },
        Op::Union(l, r, _) => {
            only_redundant_filters_are_removed(*l);
            only_redundant_filters_are_removed(*r);
        },
        _ => {},
    }
}

/// Whether no join of a plan has an input that gives no rows.
pub open spec fn joins_lack_empty_inputs(p: Plan) -> bool
    decreases p,
{
    match p.op {
        Op::Join(l, r, _) => {
            &&& !(l.op is EmptyResult) && !is_false_filter(l.op)
            &&& !(r.op is EmptyResult) && !is_false_filter(r.op)
            &&& joins_lack_empty_inputs(*l)
            &&& joins_lack_empty_inputs(*r)
        },
        Op::Union(l, r, _) => joins_lack_empty_inputs(*l) && joins_lack_empty_inputs(*r),
        _ => true,
    }
}

/// Once trivial filters are simplified, no filter that lets nothing through is left at the root or
/// in a join, and no join has an empty input: emptiness has moved up.
pub proof fn simplifying_moves_emptiness_up(p: Plan)
    ensures
        joins_lack_empty_inputs(trivial_filters_simplified(p)),
        !is_false_filter(trivial_filters_simplified(p).op),
    decreases p,
{
    match p.op {
        Op::Join(l, r, _) => {
            simplifying_moves_emptiness_up(*l);
            simplifying_moves_emptiness_up(*r);
        },
        Op::Union(l, r, _) => {
            simplifying_moves_emptiness_up(*l);
            simplifying_moves_emptiness_up(*r);
        },
        _ => {},
    }
}

/// Every pass but the removal of true filters keeps a plan convertible to a physical plan.
pub proof fn passes_keep_convertibility<F: Fn(&Quantity, &Quantity) -> Compared>(
    p: Plan,
    stats: PlanStats,
    cm: CostModel,
    compare: F,
)
    requires
        convertible(p),
    ensures
        convertible(limit_pushed(p)),
        convertible(skip_pushed(p)),
        convertible(filter_pushed(p)),
        convertible(filters_merged(p)),
        convertible(constants_folded(p, compare)),
        convertible(trivial_filters_simplified(p)),
        convertible(indices_intersected(p, stats)),
        convertible(joins_reordered(p, cm, compare)),
    decreases p,
{
    reveal_with_fuel(convertible, 3);
    match p.op {
        Op::Join(l, r, _) => {
            passes_keep_convertibility(*l, stats, cm, compare);
            if convertible(*r) {
                passes_keep_convertibility(*r, stats, cm, compare);
            }
        },
        Op::Union(l, r, _) => {
            passes_keep_convertibility(*l, stats, cm, compare);
            passes_keep_convertibility(*r, stats, cm, compare);
        },
        _ => {},
    }
}

/// Whether every expansion of a plan has something other than true filters to its left.
pub open spec fn expansions_start_somewhere(p: Plan) -> bool
    decreases p,
{
    match p.op {
        Op::Join(l, r, _) => {
            &&& expansions_start_somewhere(*l)
            &&& expansions_start_somewhere(*r)
            &&& r.op is EdgeExpand ==> !is_true_filter(true_filters_removed(*l).op)
        },
        Op::Union(l, r, _) => expansions_start_somewhere(*l) && expansions_start_somewhere(*r),
        _ => true,
    }
}

/// Removing true filters keeps a plan convertible, where expansions do not lose their left side.
pub proof fn removing_true_filters_keeps_convertibility(p: Plan)
    requires
        convertible(p),
        expansions_start_somewhere(p),
    ensures
        convertible(true_filters_removed(p)),
    decreases p,
{
    reveal_with_fuel(convertible, 2);
    match p.op {
        Op::Join(l, r, _) => {
            removing_true_filters_keeps_convertibility(*l);
            if convertible(*r) {
                removing_true_filters_keeps_convertibility(*r);
            } else {
                assert(absorbs(r.op));
                assert(true_filters_removed(*r) == *r);
                assert(r.op is EdgeExpand);
            }
            assert(absorbs(r.op) ==> true_filters_removed(*r) == *r);
        },
        Op::Union(l, r, _) => {
            removing_true_filters_keeps_convertibility(*l);
            removing_true_filters_keeps_convertibility(*r);
        },
        _ => {},
    }
}

/// An optimized plan can be converted to a physical plan if the plan could, where expansions do not
/// lose their left side.
pub proof fn optimizing_keeps_convertibility<F: Fn(&Quantity, &Quantity) -> Compared>(
    p: Plan,
    stats: PlanStats,
    cm: CostModel,
    compare: F,
)
    requires
        convertible(p),
        expansions_start_somewhere(trivial_filters_simplified(constants_folded(pushed_down(p), compare))),
    ensures
        convertible(optimized(p, stats, cm, compare)),
{
    passes_keep_convertibility(p, stats, cm, compare);
    let a = limit_pushed(p);
    passes_keep_convertibility(a, stats, cm, compare);
    let b = skip_pushed(a);
    passes_keep_convertibility(b, stats, cm, compare);
    let c = redundant_filters_removed(filter_pushed(b));
    only_redundant_filters_are_removed(filter_pushed(b));
    passes_keep_convertibility(c, stats, cm, compare);
    let d = filters_merged(c);
    passes_keep_convertibility(d, stats, cm, compare);
    let e = constants_folded(d, compare);
    passes_keep_convertibility(e, stats, cm, compare);
    let f = trivial_filters_simplified(e);
    removing_true_filters_keeps_convertibility(f);
    let g = true_filters_removed(f);
    passes_keep_convertibility(g, stats, cm, compare);
    passes_keep_convertibility(indices_intersected(g, stats), stats, cm, compare);
}

/// Whether a clause only reads.
pub open spec fn only_reads(clause: Clause) -> bool {
    match clause {
        Clause::Create { .. } | Clause::SetProperties { .. } | Clause::Delete { .. } | Clause::Unwind { .. } => false,
        _ => true,
    }
}

proof fn lemma_properties_convertible(p: Plan, alias: Seq<char>, entries: Seq<PropertyEntry>, n: nat)
    requires
        convertible(p),
    ensures
        convertible(with_properties(p, alias, entries, n)),
    decreases n,
{
    if n > 0 {
        lemma_properties_convertible(p, alias, entries, (n - 1) as nat);
    }
}

proof fn lemma_labels_convertible(p: Plan, alias: Seq<char>, labels: Seq<LabelId>, n: nat)
    requires
        convertible(p),
    ensures
        convertible(with_labels(p, alias, labels, n)),
    decreases n,
{
    if n > 0 {
        lemma_labels_convertible(p, alias, labels, (n - 1) as nat);
    }
}

proof fn lemma_step_convertible(p: Plan, from: Seq<char>, step: PatternStep, rows: u64)
    requires
        convertible(p),
    ensures
        convertible(stepped(p, from, step, rows)),
{
    let q = crate::planner::generate::chain_of(
        p,
        crate::planner::generate::leaf_of(
            crate::planner::generate::expand_op(from, step),
            Quantity::product(Quantity::Count(rows), Quantity::Count(5)),
        ),
    );
    assert(convertible(q));
    let tested = match step.edge.alias {
        Some(alias) => with_properties(q, alias@, step.edge.properties@, step.edge.properties@.len()),
        None => q,
    };
    if let Some(alias) = step.edge.alias {
        lemma_properties_convertible(q, alias@, step.edge.properties@, step.edge.properties@.len());
    }
    if let Some(alias) = step.node.alias {
        lemma_labels_convertible(tested, alias@, step.node.labels@, step.node.labels@.len());
        lemma_properties_convertible(
            with_labels(tested, alias@, step.node.labels@, step.node.labels@.len()),
            alias@,
            step.node.properties@,
            step.node.properties@.len(),
        );
    }
}

proof fn lemma_steps_convertible(p: Plan, element: PatternElement, rows: u64, n: nat)
    requires
        convertible(p),
    ensures
        convertible(with_steps(p, element, rows, n)),
    decreases n,
{
    if n > 0 {
        lemma_steps_convertible(p, element, rows, (n - 1) as nat);
        lemma_step_convertible(
            with_steps(p, element, rows, (n - 1) as nat),
            crate::planner::generate::reached(element, (n - 1) as nat),
            element.edges@[n - 1],
            rows,
        );
    }
}

proof fn lemma_element_convertible(
    element: PatternElement,
    condition: Option<Expr>,
    stats: PlanStats,
    hints: Seq<IndexHint>,
)
    ensures
        convertible(element_plan(element, condition, stats, hints)),
{
    let scan = node_scan(element.node, condition, stats, hints);
    assert(convertible(scan));
    if let Some(alias) = element.node.alias {
        lemma_properties_convertible(scan, alias@, element.node.properties@, element.node.properties@.len());
        lemma_steps_convertible(
            with_properties(scan, alias@, element.node.properties@, element.node.properties@.len()),
            element,
            crate::planner::generate::node_rows(element.node, stats),
            element.edges@.len(),
        );
    } else {
        lemma_steps_convertible(
            scan,
            element,
            crate::planner::generate::node_rows(element.node, stats),
            element.edges@.len(),
        );
    }
}

proof fn lemma_elements_convertible(
    elements: Seq<PatternElement>,
    condition: Option<Expr>,
    stats: PlanStats,
    hints: Seq<IndexHint>,
    n: nat,
)
    ensures
        convertible(elements_joined(elements, condition, stats, hints, n)),
    decreases n,
{
    lemma_element_convertible(elements[n - 1], condition, stats, hints);
    if n > 1 {
        lemma_elements_convertible(elements, condition, stats, hints, (n - 1) as nat);
    }
}

proof fn lemma_clauses_convertible(query: Query, stats: PlanStats, n: nat)
    requires
        n <= query.clauses@.len(),
        forall|i: int| 0 <= i < query.clauses@.len() ==> only_reads(#[trigger] query.clauses@[i]),
    ensures
        clauses_plan(query, stats, n) matches Some(p) ==> convertible(p),
    decreases n,
{
    reveal_with_fuel(convertible, 3);
    if n > 0 {
        lemma_clauses_convertible(query, stats, (n - 1) as nat);
        let before = clauses_plan(query, stats, (n - 1) as nat);
        let clause = query.clauses@[n - 1];
        assert(only_reads(clause));
        match clause {
            Clause::Match { pattern, where_clause } => {
                let condition = crate::planner::generate::opt_expr(where_clause);
                lemma_elements_convertible(
                    pattern.elements@,
                    condition,
                    stats,
                    query.index_hints@,
                    pattern.elements@.len(),
                );
                assert(convertible(match_plan(pattern, condition, stats, query.index_hints@)));
            },
            _ => {},
        }
    }
}

/// The plan of a query that only reads can be converted to a physical plan.
pub proof fn reading_plans_are_convertible(query: Query, stats: PlanStats)
    requires
        forall|i: int| 0 <= i < query.clauses@.len() ==> only_reads(#[trigger] query.clauses@[i]),
    ensures
        convertible(query_plan(query, stats)),
{
    lemma_clauses_convertible(query, stats, query.clauses@.len());
}

/// What is left of a plan in the form of nodes.
pub open spec fn plan_skeleton(p: Plan) -> Plan
    decreases p,
{
    let all = Quantity::Count(10000);
    match p.op {
        Op::LabelScan(alias, label) => Plan {
            op: Op::LabelScan(alias, label),
            cost: PlanCost::zero(),
            cardinality: Quantity::Count(100),
        },
        Op::LabelPropertyScan(alias, label, property, _) => Plan {
            op: Op::LabelPropertyScan(alias, label, property, Value::Null),
            cost: PlanCost::zero(),
            cardinality: Quantity::Count(10),
        },
        Op::Filter(condition) => Plan {
            op: Op::Filter(condition),
            cost: PlanCost::zero(),
            cardinality: Quantity::product(all, Quantity::decimal(3, 1)),
        },
        Op::Join(l, r, kind) => {
            let left = plan_skeleton(*l);
            let right = plan_skeleton(*r);
            Plan {
                op: Op::Join(Box::new(left), Box::new(right), kind),
                cost: PlanCost::zero(),
                cardinality: Quantity::larger(left.cardinality, right.cardinality),
            }
        },
        Op::Sort(_) => Plan { op: Op::Sort(Seq::empty()), cost: PlanCost::zero(), cardinality: all },
        Op::Limit(count) => Plan {
            op: Op::Limit(count),
            cost: PlanCost::zero(),
            cardinality: Quantity::smaller(all, Quantity::Count(count as u64)),
        },
        Op::Skip(count) => Plan { op: Op::Skip(count), cost: PlanCost::zero(), cardinality: all },
        Op::EdgeExpand { from_alias, edge_alias, to_alias, direction, edge_type } => Plan {
            op: Op::EdgeExpand { from_alias: "anon"@, edge_alias: None, to_alias: None, direction, edge_type },
            cost: PlanCost::zero(),
            cardinality: Quantity::product(all, Quantity::Count(5)),
        },
        Op::Aggregate(_, _) => Plan {
            op: Op::Aggregate(Seq::empty(), Seq::empty()),
            cost: PlanCost::zero(),
            cardinality: Quantity::product(all, Quantity::decimal(1, 1)),
        },
        Op::Distinct => Plan {
            op: Op::Distinct,
            cost: PlanCost::zero(),
            cardinality: Quantity::product(all, Quantity::decimal(5, 1)),
        },
        Op::Union(l, r, both) => {
            let left = plan_skeleton(*l);
            let right = plan_skeleton(*r);
            Plan {
                op: Op::Union(Box::new(left), Box::new(right), both),
                cost: PlanCost::zero(),
                cardinality: Quantity::sum(left.cardinality, right.cardinality),
            }
        },
        _ => default_scan(),
    }
}

/// Whether a list holds a run from a position on.
spec fn holds_at<T>(list: Seq<T>, base: nat, run: Seq<T>) -> bool {
    &&& base + run.len() <= list.len()
    &&& forall|i: int| 0 <= i < run.len() ==> list[base + i] == #[trigger] run[i]
}

/// Whether the nodes of a run, from a position on, stand behind their inputs.
spec fn run_ordered(run: Seq<Node>, base: nat) -> bool {
    forall|i: int| 0 <= i < run.len() ==> inputs_before(#[trigger] run[i], (base + i) as nat)
}

proof fn lemma_run_append(a: Seq<Node>, b: Seq<Node>, base: nat)
    requires
        run_ordered(a, base),
        run_ordered(b, base + a.len()),
    ensures
        run_ordered(a + b, base),
{
    assert forall|i: int| 0 <= i < (a + b).len() implies inputs_before(#[trigger] (a + b)[i], (base + i) as nat) by {
        if i < a.len() {
            assert(inputs_before(a[i], (base + i) as nat));
        } else {
            assert(inputs_before(b[i - a.len()], (base + a.len() + (i - a.len())) as nat));
        }
    }
}

proof fn lemma_run_push(a: Seq<Node>, node: Node, base: nat)
    requires
        run_ordered(a, base),
        inputs_before(node, base + a.len()),
    ensures
        run_ordered(a.push(node), base),
{
    assert forall|i: int| 0 <= i < a.push(node).len() implies inputs_before(
        #[trigger] a.push(node)[i],
        (base + i) as nat,
    ) by {
        if i < a.len() {
            assert(inputs_before(a[i], (base + i) as nat));
        }
    }
}

proof fn lemma_holds_prefix<T>(list: Seq<T>, base: nat, a: Seq<T>, b: Seq<T>)
    requires
        holds_at(list, base, a + b),
    ensures
        holds_at(list, base, a),
        holds_at(list, base + a.len(), b),
{
    assert forall|i: int| 0 <= i < a.len() implies list[base + i] == #[trigger] a[i] by {
        assert((a + b)[i] == a[i]);
    }
    assert forall|i: int| 0 <= i < b.len() implies list[base + a.len() + i] == #[trigger] b[i] by {
        assert((a + b)[a.len() + i] == b[i]);
    }
}

proof fn lemma_condition_nodes_ordered(e: Expr, base: nat, known: nat)
    ensures
        condition_nodes(e, base, known).len() > 0,
        run_ordered(condition_nodes(e, base, known), base),
    decreases e,
{
    if let Expr::Binary(BinaryOp::And, lhs, rhs) = e {
        let l = condition_nodes(*lhs, base, known);
        let r = condition_nodes(*rhs, base + l.len(), known + leaves(*lhs).len());
        lemma_condition_nodes_ordered(*lhs, base, known);
        lemma_condition_nodes_ordered(*rhs, base + l.len(), known + leaves(*lhs).len());
        lemma_run_append(l, r, base);
        lemma_run_push(
            l + r,
            Node::And((base + l.len() - 1) as nat, (base + l.len() + r.len() - 1) as nat),
            base,
        );
    }
}

/// Whether a list of conditions names those of a run from a place on, by numbers of the machine.
spec fn names_at(named: Seq<Expr>, known: nat, run: Seq<Expr>) -> bool {
    holds_at(named, known, run) && named.len() <= i64::MAX
}

proof fn lemma_condition_round_trip(e: Expr, base: nat, known: nat, nodes: Seq<Node>, named: Seq<Expr>)
    requires
        ordered(nodes),
        holds_at(nodes, base, condition_nodes(e, base, known)),
        names_at(named, known, leaves(e)),
    ensures
        is_condition(nodes, (base + condition_nodes(e, base, known).len() - 1) as nat),
        condition_of(nodes, named, (base + condition_nodes(e, base, known).len() - 1) as nat) == e,
    decreases e,
{
    let run = condition_nodes(e, base, known);
    lemma_condition_nodes_ordered(e, base, known);
    assert(nodes[base + (run.len() - 1)] == run[run.len() - 1]);
    if let Expr::Binary(BinaryOp::And, lhs, rhs) = e {
        let l = condition_nodes(*lhs, base, known);
        let r = condition_nodes(*rhs, base + l.len(), known + leaves(*lhs).len());
        let last = Node::And((base + l.len() - 1) as nat, (base + l.len() + r.len() - 1) as nat);
        assert(run =~= (l + r) + seq![last]);
        lemma_condition_nodes_ordered(*lhs, base, known);
        lemma_condition_nodes_ordered(*rhs, base + l.len(), known + leaves(*lhs).len());
        lemma_holds_prefix(nodes, base, l + r, seq![last]);
        lemma_holds_prefix(nodes, base, l, r);
        lemma_holds_prefix(named, known, leaves(*lhs), leaves(*rhs));
        lemma_condition_round_trip(*lhs, base, known, nodes, named);
        lemma_condition_round_trip(*rhs, base + l.len(), known + leaves(*lhs).len(), nodes, named);
    } else if !(e is Bool) {
        assert(leaves(e)[0] == e);
        assert(named[known + 0int] == e);
    }
}

proof fn lemma_plan_nodes_ordered<B: Fn(&Quantity) -> u64>(p: Plan, base: nat, known: nat, bits: B)
    ensures
        plan_nodes(p, base, known, bits).len() > 0,
        run_ordered(plan_nodes(p, base, known, bits), base),
    decreases p,
{
    match p.op {
        Op::Filter(condition) => {
            let c = condition_nodes(condition, base, known);
            lemma_condition_nodes_ordered(condition, base, known);
            lemma_run_push(c, Node::AllScan, base);
            lemma_run_push(
                c.push(Node::AllScan),
                Node::Filter((base + c.len() - 1) as nat, base + c.len()),
                base,
            );
        },
        Op::Join(left, right, kind) => {
            let l = plan_nodes(*left, base, known, bits);
            let r = plan_nodes(*right, base + l.len(), known + plan_leaves(*left).len(), bits);
            let t = join_nodes(kind, base + l.len() + r.len());
            lemma_plan_nodes_ordered(*left, base, known, bits);
            lemma_plan_nodes_ordered(*right, base + l.len(), known + plan_leaves(*left).len(), bits);
            lemma_run_append(l, r, base);
            assert(run_ordered(t, base + l.len() + r.len()));
            lemma_run_append(l + r, t, base);
            lemma_run_push(
                l + r + t,
                Node::Join(
                    (base + l.len() - 1) as nat,
                    (base + l.len() + r.len() - 1) as nat,
                    (base + l.len() + r.len() + t.len() - 1) as nat,
                ),
                base,
            );
        },
        Op::Union(left, right, all) => {
            let l = plan_nodes(*left, base, known, bits);
            let r = plan_nodes(*right, base + l.len(), known + plan_leaves(*left).len(), bits);
            lemma_plan_nodes_ordered(*left, base, known, bits);
            lemma_plan_nodes_ordered(*right, base + l.len(), known + plan_leaves(*left).len(), bits);
            lemma_run_append(l, r, base);
            let flag = Node::Num(
                if all {
                    1
                } else {
                    0
                },
            );
            lemma_run_push(l + r, flag, base);
            lemma_run_push(
                (l + r).push(flag),
                Node::Union(
                    (base + l.len() - 1) as nat,
                    (base + l.len() + r.len() - 1) as nat,
                    base + l.len() + r.len(),
                ),
                base,
            );
        },
        _ => {},
    }
}

/// A count survives being held as a signed number.
proof fn lemma_count_round_trip(count: usize)
    ensures
        ((count as i64) as u64) as usize == count,
{
    assert(((count as i64) as u64) as usize == count) by (bit_vector);
}

/// Whether the nodes of an operator need those of other plans or of a condition.
spec fn is_compound(op: Op) -> bool {
    op is Join || op is Union || op is Filter
}

proof fn lemma_simple_round_trip<B: Fn(&Quantity) -> u64>(p: Plan, base: nat, known: nat, nodes: Seq<Node>, named: Seq<Expr>, bits: B)
    requires
        ordered(nodes),
        holds_at(nodes, base, plan_nodes(p, base, known, bits)),
        names_at(named, known, plan_leaves(p)),
        !is_compound(p.op),
    ensures
        decodable(nodes, (base + plan_nodes(p, base, known, bits).len() - 1) as nat),
        plan_of(nodes, named, (base + plan_nodes(p, base, known, bits).len() - 1) as nat) == plan_skeleton(p),
{
    let run = plan_nodes(p, base, known, bits);
    let root = (base + run.len() - 1) as nat;
    assert(nodes[base + (run.len() - 1)] == run[run.len() - 1]);
    assert(nodes[base + 0int] == run[0]);
    assert(inputs_before(nodes[root as int], root));
    reveal_with_fuel(plan_of, 2);
    reveal_with_fuel(decodable, 2);
    match p.op {
        Op::LabelScan(_, _) => {
            assert(nodes[base + 1int] == run[1]);
        },
        Op::LabelPropertyScan(_, _, _, _) => {
            assert(nodes[base + 1int] == run[1]);
            assert(nodes[base + 2int] == run[2]);
        },
        Op::Limit(count) => {
            assert(nodes[base + 1int] == run[1]);
            lemma_count_round_trip(count);
        },
        Op::Skip(count) => {
            assert(nodes[base + 1int] == run[1]);
            lemma_count_round_trip(count);
        },
        Op::EdgeExpand { from_alias, edge_alias, to_alias, direction, edge_type } => {
            assert(nodes[base + 1int] == run[1]);
            assert(nodes[base + 2int] == run[2]);
        },
        _ => {},
    }
}

proof fn lemma_filter_round_trip<B: Fn(&Quantity) -> u64>(p: Plan, base: nat, known: nat, nodes: Seq<Node>, named: Seq<Expr>, bits: B)
    requires
        ordered(nodes),
        holds_at(nodes, base, plan_nodes(p, base, known, bits)),
        names_at(named, known, plan_leaves(p)),
        p.op is Filter,
    ensures
        decodable(nodes, (base + plan_nodes(p, base, known, bits).len() - 1) as nat),
        plan_of(nodes, named, (base + plan_nodes(p, base, known, bits).len() - 1) as nat) == plan_skeleton(p),
{
    let run = plan_nodes(p, base, known, bits);
    let condition = p.op->Filter_0;
    let c = condition_nodes(condition, base, known);
    let last = Node::Filter((base + c.len() - 1) as nat, base + c.len());
    lemma_condition_nodes_ordered(condition, base, known);
    assert(run =~= c + seq![Node::AllScan, last]);
    lemma_holds_prefix(nodes, base, c, seq![Node::AllScan, last]);
    lemma_condition_round_trip(condition, base, known, nodes, named);
    assert(nodes[base + c.len() + 0int] == seq![Node::AllScan, last][0]);
    assert(nodes[base + c.len() + 1int] == seq![Node::AllScan, last][1]);
    let child = base + c.len();
    assert(plan_of(nodes, named, child) == default_scan());
    assert(decodable(nodes, child));
}

#[verifier::spinoff_prover]
proof fn lemma_join_round_trip<B: Fn(&Quantity) -> u64>(p: Plan, base: nat, known: nat, nodes: Seq<Node>, named: Seq<Expr>, bits: B)
    requires
        ordered(nodes),
        holds_at(nodes, base, plan_nodes(p, base, known, bits)),
        names_at(named, known, plan_leaves(p)),
        p.op is Join,
    ensures
        decodable(nodes, (base + plan_nodes(p, base, known, bits).len() - 1) as nat),
        plan_of(nodes, named, (base + plan_nodes(p, base, known, bits).len() - 1) as nat) == plan_skeleton(p),
    decreases p, 0int,
{
    let run = plan_nodes(p, base, known, bits);
    if let Op::Join(left, right, kind) = p.op {
        let after = known + plan_leaves(*left).len();
        let l = plan_nodes(*left, base, known, bits);
        let r = plan_nodes(*right, base + l.len(), after, bits);
        let t = join_nodes(kind, base + l.len() + r.len());
        let last = run.last();
        lemma_plan_nodes_ordered(*left, base, known, bits);
        lemma_plan_nodes_ordered(*right, base + l.len(), after, bits);
        assert(run =~= (l + r + t) + seq![last]);
        lemma_holds_prefix(nodes, base, l + r + t, seq![last]);
        lemma_holds_prefix(nodes, base, l + r, t);
        lemma_holds_prefix(nodes, base, l, r);
        lemma_holds_prefix(named, known, plan_leaves(*left), plan_leaves(*right));
        lemma_plan_round_trip(*left, base, known, nodes, named, bits);
        lemma_plan_round_trip(*right, base + l.len(), after, nodes, named, bits);
        let tb = base + l.len() + r.len();
        assert(nodes[tb + (t.len() - 1)] == t[t.len() - 1]);
        assert(nodes[base + (l + r + t).len() + 0int] == seq![last][0]);
        if let JoinKind::HashJoin(lk, rk) = kind {
            assert(nodes[tb + 0int] == t[0]);
            assert(nodes[tb + 1int] == t[1]);
        }
    }
}

#[verifier::spinoff_prover]
proof fn lemma_union_round_trip<B: Fn(&Quantity) -> u64>(p: Plan, base: nat, known: nat, nodes: Seq<Node>, named: Seq<Expr>, bits: B)
    requires
        ordered(nodes),
        holds_at(nodes, base, plan_nodes(p, base, known, bits)),
        names_at(named, known, plan_leaves(p)),
        p.op is Union,
    ensures
        decodable(nodes, (base + plan_nodes(p, base, known, bits).len() - 1) as nat),
        plan_of(nodes, named, (base + plan_nodes(p, base, known, bits).len() - 1) as nat) == plan_skeleton(p),
    decreases p, 0int,
{
    let run = plan_nodes(p, base, known, bits);
    if let Op::Union(left, right, all) = p.op {
        let after = known + plan_leaves(*left).len();
        let l = plan_nodes(*left, base, known, bits);
        let r = plan_nodes(*right, base + l.len(), after, bits);
        let flag = Node::Num(
            if all {
                1
            } else {
                0
            },
        );
        let last = run.last();
        lemma_plan_nodes_ordered(*left, base, known, bits);
        lemma_plan_nodes_ordered(*right, base + l.len(), after, bits);
        assert(run =~= (l + r) + seq![flag, last]);
        lemma_holds_prefix(nodes, base, l + r, seq![flag, last]);
        lemma_holds_prefix(nodes, base, l, r);
        lemma_holds_prefix(named, known, plan_leaves(*left), plan_leaves(*right));
        lemma_plan_round_trip(*left, base, known, nodes, named, bits);
        lemma_plan_round_trip(*right, base + l.len(), after, nodes, named, bits);
        assert(nodes[base + (l + r).len() + 0int] == seq![flag, last][0]);
        assert(nodes[base + (l + r).len() + 1int] == seq![flag, last][1]);
    }
}

proof fn lemma_plan_round_trip<B: Fn(&Quantity) -> u64>(p: Plan, base: nat, known: nat, nodes: Seq<Node>, named: Seq<Expr>, bits: B)
    requires
        ordered(nodes),
        holds_at(nodes, base, plan_nodes(p, base, known, bits)),
        names_at(named, known, plan_leaves(p)),
    ensures
        decodable(nodes, (base + plan_nodes(p, base, known, bits).len() - 1) as nat),
        plan_of(nodes, named, (base + plan_nodes(p, base, known, bits).len() - 1) as nat) == plan_skeleton(p),
    decreases p, 1int,
{
    match p.op {
        Op::Filter(_) => lemma_filter_round_trip(p, base, known, nodes, named, bits),
        Op::Join(_, _, _) => lemma_join_round_trip(p, base, known, nodes, named, bits),
        Op::Union(_, _, _) => lemma_union_round_trip(p, base, known, nodes, named, bits),
        _ => lemma_simple_round_trip(p, base, known, nodes, named, bits),
    }
}

/// The nodes of a plan are well ordered, they can be read back, and what is read back is the plan's
/// skeleton: the same operators on the same labels, properties and edge types, the same conditions,
/// the same joins and the same counts.
pub proof fn nodes_read_back_as_skeleton<B: Fn(&Quantity) -> u64>(p: Plan, bits: B)
    requires
        plan_leaves(p).len() <= i64::MAX,
    ensures
        ({
            let nodes = plan_nodes(p, 0, 0, bits);
            let root = (nodes.len() - 1) as nat;
            &&& nodes.len() > 0
            &&& ordered(nodes)
            &&& decodable(nodes, root)
            &&& plan_of(nodes, plan_leaves(p), root) == plan_skeleton(p)
        }),
{
    let nodes = plan_nodes(p, 0, 0, bits);
    lemma_plan_nodes_ordered(p, 0, 0, bits);
    assert(ordered(nodes)) by {
        assert forall|i: int| 0 <= i < nodes.len() implies inputs_before(#[trigger] nodes[i], i as nat) by {
            assert(inputs_before(nodes[i], (0 + i) as nat));
        }
    }
    lemma_plan_round_trip(p, 0, 0, nodes, plan_leaves(p), bits);
}

} // verus!
