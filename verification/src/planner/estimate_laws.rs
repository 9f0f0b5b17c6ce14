//! What the estimates of the planner say, in real numbers.
use vstd::prelude::*;

use crate::planner::cost::CostModel;
use crate::planner::egraph::{inputs, node_cost, node_data, Node, PlanData};
use crate::planner::expression::{BinaryOp, Expr, UnaryOp};
use crate::planner::logical::{JoinKind, Op, Plan};
use crate::planner::physical::{absorbed, Physical};
use crate::planner::rules::{filter_pushed, intersection_rows, is_pipeline, joins_reordered, lets_rows_through, limit_pushed, references_preserved, skip_pushed};
use crate::planner::stats::{equality_share, one_of, op_cardinality, op_cost, property_of, selectivity, selectivity_by_kind, CatalogStats};
use crate::quantity::{compared, ten_to, value, whole, Compared, Numbers, Quantity};

verus! {

/// Whether a quantity is a share: no less than nothing and no more than all.
pub open spec fn is_share(m: Numbers, q: Quantity) -> bool {
    whole(0) <= value(m, q) <= whole(1)
}

proof fn lemma_ten(n: nat)
    ensures
        ten_to(n) > 0,
        n >= 1 ==> ten_to(n) >= 10,
        n >= 2 ==> ten_to(n) >= 100,
    decreases n,
{
    if n > 0 {
        lemma_ten((n - 1) as nat);
    }
}

proof fn lemma_decimal_share(m: Numbers, units: u64, places: u32)
    requires
        units <= ten_to(places as nat),
    ensures
        is_share(m, Quantity::decimal(units, places)),
{
    lemma_ten(places as nat);
    let a = whole(units as int);
    let b = whole(ten_to(places as nat));
    assert(0int as real <= a / b <= 1int as real) by (nonlinear_arith)
        requires
            0int as real <= a,
            a <= b,
            b > 0int as real,
    ;
}

proof fn lemma_decimals(m: Numbers)
    ensures
        is_share(m, Quantity::decimal(1, 2)),
        is_share(m, Quantity::decimal(2, 2)),
        is_share(m, Quantity::decimal(5, 2)),
        is_share(m, Quantity::decimal(15, 2)),
        is_share(m, Quantity::decimal(33, 2)),
        is_share(m, Quantity::decimal(99, 2)),
        is_share(m, Quantity::decimal(1, 1)),
        is_share(m, Quantity::decimal(3, 1)),
        is_share(m, Quantity::decimal(5, 1)),
{
    lemma_ten(1);
    lemma_ten(2);
    lemma_decimal_share(m, 1, 2);
    lemma_decimal_share(m, 2, 2);
    lemma_decimal_share(m, 5, 2);
    lemma_decimal_share(m, 15, 2);
    lemma_decimal_share(m, 33, 2);
    lemma_decimal_share(m, 99, 2);
    lemma_decimal_share(m, 1, 1);
    lemma_decimal_share(m, 3, 1);
    lemma_decimal_share(m, 5, 1);
}

proof fn lemma_shares(a: real, b: real)
    requires
        whole(0) <= a <= whole(1),
        whole(0) <= b <= whole(1),
    ensures
        whole(0) <= a * b <= a,
        a * b <= b,
        a <= a + b - a * b <= whole(1),
        b <= a + b - a * b,
{
    assert(0int as real <= a * b <= a && a * b <= b && a + b - a * b <= 1int as real) by (nonlinear_arith)
        requires
            0int as real <= a <= 1int as real,
            0int as real <= b <= 1int as real,
    ;
}

proof fn lemma_equality_share(m: Numbers, l: Expr, r: Expr, catalog: CatalogStats)
    ensures
        is_share(m, equality_share(l, r, catalog)),
{
    lemma_decimals(m);
    reveal_with_fuel(value, 3);
    assert forall|n: u64| n > 0 implies is_share(m, #[trigger] one_of(n)) by {
        let a = whole(n as int);
        assert(whole(1) / a >= 0int as real) by (nonlinear_arith)
            requires
                a > 0int as real,
                whole(1) == 1int as real,
        ;
    }
}

/// How the share of rows that a condition lets through follows from the shares of its parts: those that
/// meet both conditions are no more than those that meet either, those that meet one of two no fewer, and
/// those that meet a condition and those that do not make up all rows. An equality with a property lets
/// through one of as many shares as the property has values.
pub open spec fn shares_fit(m: Numbers, e: Expr, share: spec_fn(Expr) -> Quantity) -> bool {
    let s = value(m, share(e));
    match e {
        Expr::Bool(b) => s == if b {
            whole(1)
        } else {
            whole(0)
        },
        Expr::Binary(BinaryOp::And, l, r) => s == value(m, share(*l)) * value(m, share(*r)) && s <= value(m, share(*l)) && s <= value(
            m,
            share(*r),
        ),
        Expr::Binary(BinaryOp::Or, l, r) => {
            // those that miss a condition of two miss both
            &&& whole(1) - s == (whole(1) - value(m, share(*l))) * (whole(1) - value(m, share(*r)))
            &&& s >= value(m, share(*l))
            &&& s >= value(m, share(*r))
        },
        Expr::Unary(UnaryOp::Not, x) => s + value(m, share(*x)) == whole(1),
        _ => true,
    }
}

/// The shares that the catalog's statistics give.
pub open spec fn by_catalog(catalog: CatalogStats) -> spec_fn(Expr) -> Quantity {
    |e: Expr| selectivity(e, catalog)
}

/// The shares that the kinds of conditions give.
pub open spec fn by_kind(cm: CostModel) -> spec_fn(Expr) -> Quantity {
    |e: Expr| selectivity_by_kind(e, cm)
}

proof fn lemma_either(a: real, b: real)
    ensures
        whole(1) - (a + b - a * b) == (whole(1) - a) * (whole(1) - b),
{
    assert(1int as real - (a + b - a * b) == (1int as real - a) * (1int as real - b)) by (nonlinear_arith);
}

/// The share that the catalog's statistics give a condition is one, and fits those of its parts.
pub proof fn catalog_shares_fit(m: Numbers, e: Expr, catalog: CatalogStats)
    ensures
        is_share(m, selectivity(e, catalog)),
        shares_fit(m, e, by_catalog(catalog)),
    decreases e,
{
    lemma_decimals(m);
    reveal_with_fuel(value, 3);
    match e {
        Expr::Binary(op, l, r) => {
            catalog_shares_fit(m, *l, catalog);
            catalog_shares_fit(m, *r, catalog);
            lemma_equality_share(m, *l, *r, catalog);
            lemma_shares(value(m, selectivity(*l, catalog)), value(m, selectivity(*r, catalog)));
            lemma_either(value(m, selectivity(*l, catalog)), value(m, selectivity(*r, catalog)));
        },
        Expr::Unary(op, x) => {
            catalog_shares_fit(m, *x, catalog);
        },
        _ => {},
    }
}

/// Whether the shares of a cost model are shares.
pub open spec fn has_shares(m: Numbers, cm: CostModel) -> bool {
    &&& is_share(m, cm.default_selectivity)
    &&& is_share(m, cm.equality_selectivity)
    &&& is_share(m, cm.range_selectivity)
    &&& is_share(m, cm.like_selectivity)
    &&& is_share(m, cm.in_selectivity)
    &&& is_share(m, cm.null_selectivity)
    &&& is_share(m, cm.label_selectivity)
}

/// The shares of the standard cost model are shares.
pub proof fn standard_model_has_shares(m: Numbers)
    ensures
        has_shares(m, CostModel::standard()),
{
    lemma_decimals(m);
}

/// The share that its kind gives a condition is one, and fits those of its parts.
pub proof fn kind_shares_fit(m: Numbers, e: Expr, cm: CostModel)
    requires
        has_shares(m, cm),
    ensures
        is_share(m, selectivity_by_kind(e, cm)),
        shares_fit(m, e, by_kind(cm)),
    decreases e,
{
    reveal_with_fuel(value, 3);
    match e {
        Expr::Binary(op, l, r) => {
            kind_shares_fit(m, *l, cm);
            kind_shares_fit(m, *r, cm);
            lemma_shares(value(m, selectivity_by_kind(*l, cm)), value(m, selectivity_by_kind(*r, cm)));
            lemma_either(value(m, selectivity_by_kind(*l, cm)), value(m, selectivity_by_kind(*r, cm)));
        },
        Expr::Unary(op, x) => {
            kind_shares_fit(m, *x, cm);
        },
        _ => {},
    }
}

/// Where a property is compared for equality, its share times the number of its values is one: each value
/// is taken to be as frequent.
pub proof fn equal_values_share_alike(m: Numbers, l: Expr, r: Expr, catalog: CatalogStats, n: u64)
    requires
        property_of(l) is Some,
        n == catalog.best_distinct(property_of(l)->0),
        n > 0,
    ensures
        value(m, equality_share(l, r, catalog)) * whole(n as int) == whole(1),
{
    reveal_with_fuel(value, 3);
    let a = whole(n as int);
    assert(whole(1) / a * a == whole(1) && whole(1) / a <= whole(1)) by (nonlinear_arith)
        requires
            a >= 1int as real,
            whole(1) == 1int as real,
    ;
}

/// What more rows cost: a hash join costs the building of each more row on the left and a probe for each on
/// the right; a nested-loop join looks at all rows of one side for each row of the other; an index is asked
/// once for each more row; a sort-merge join sorts and merges each more row of either side. Aggregations
/// cost the same for each row.
pub proof fn joins_cost_by_the_row(m: Numbers, cm: CostModel, l: Quantity, r: Quantity, more: Quantity)
    ensures
        ({
            let x = value(m, more);
            let build = value(m, cm.hash_join_build_cost);
            let probe = value(m, cm.hash_join_probe_cost);
            let lookup = value(m, cm.index_nested_loop_join_cost_per_row);
            let sorted = value(m, cm.sort_cost_per_row) + value(m, cm.sort_merge_join_cost_per_row);
            let more_left = Quantity::sum(l, more);
            let more_right = Quantity::sum(r, more);
            &&& value(m, cm.hash_join(more_left, r)) == value(m, cm.hash_join(l, r)) + build * x
            &&& value(m, cm.hash_join(l, more_right)) == value(m, cm.hash_join(l, r)) + probe * x
            &&& value(m, cm.nested_loop_join(more_left, r)) == value(m, cm.nested_loop_join(l, r)) + x * value(m, r)
            &&& value(m, cm.nested_loop_join(l, more_right)) == value(m, cm.nested_loop_join(l, r)) + x * value(m, l)
            &&& value(m, cm.index_nested_loop_join(more_left)) == value(m, cm.index_nested_loop_join(l)) + x * lookup
            &&& value(m, cm.sort_merge_join(more_left, r)) == value(m, cm.sort_merge_join(l, r)) + x * sorted
            &&& value(m, cm.sort_merge_join(l, more_right)) == value(m, cm.sort_merge_join(l, r)) + x * sorted
            &&& value(m, cm.hash_aggregate(more_left)) == value(m, cm.hash_aggregate(l)) + x * (value(
                m,
                cm.hash_aggregate_build_cost_per_row,
            ) + value(m, cm.hash_aggregate_probe_cost_per_row))
            &&& value(m, cm.streaming_aggregate(more_left)) == value(m, cm.streaming_aggregate(l)) + x * value(
                m,
                cm.streaming_aggregate_cost_per_row,
            )
        }),
{
    reveal_with_fuel(value, 5);
    let x = value(m, more);
    let a = value(m, l);
    let b = value(m, r);
    let build = value(m, cm.hash_join_build_cost);
    let probe = value(m, cm.hash_join_probe_cost);
    let lookup = value(m, cm.index_nested_loop_join_cost_per_row);
    let s = value(m, cm.sort_cost_per_row);
    let g = value(m, cm.sort_merge_join_cost_per_row);
    let h = value(m, cm.hash_aggregate_build_cost_per_row) + value(m, cm.hash_aggregate_probe_cost_per_row);
    let t = value(m, cm.streaming_aggregate_cost_per_row);
    assert(build * (a + x) == build * a + build * x) by (nonlinear_arith);
    assert(probe * (b + x) == probe * b + probe * x) by (nonlinear_arith);
    assert((a + x) * b == a * b + x * b) by (nonlinear_arith);
    assert(a * (b + x) == a * b + x * a) by (nonlinear_arith);
    assert((a + x) * lookup == a * lookup + x * lookup) by (nonlinear_arith);
    assert((a + x) * s + (a + x + b) * g == a * s + (a + b) * g + x * (s + g)) by (nonlinear_arith);
    assert((b + x) * s + (a + (b + x)) * g == b * s + (a + b) * g + x * (s + g)) by (nonlinear_arith);
    assert((a + x) * h == a * h + x * h) by (nonlinear_arith);
    assert((a + x) * t == a * t + x * t) by (nonlinear_arith);
}

proof fn lemma_times_nothing(x: real)
    ensures
        whole(0) * x == whole(0),
        x * whole(0) == whole(0),
{
    assert(whole(0) * x == whole(0) && x * whole(0) == whole(0)) by (nonlinear_arith)
        requires
            whole(0) == 0int as real,
    ;
}

/// What a join of nothing costs: a hash join nothing, any other join what it costs to set it up.
pub proof fn joins_of_nothing(m: Numbers, cm: CostModel)
    ensures
        ({
            let none = Quantity::Count(0);
            let setup = value(m, cm.nested_loop_join_cost);
            &&& value(m, cm.hash_join(none, none)) == whole(0)
            &&& value(m, cm.nested_loop_join(none, none)) == setup
            &&& value(m, cm.index_nested_loop_join(none)) == setup
            &&& value(m, cm.sort_merge_join(none, none)) == setup
            &&& value(m, cm.hash_aggregate(none)) == whole(0)
            &&& value(m, cm.streaming_aggregate(none)) == whole(0)
        }),
{
    reveal_with_fuel(value, 5);
    let a = value(m, cm.hash_join_build_cost);
    let b = value(m, cm.hash_join_probe_cost);
    let c = value(m, cm.index_nested_loop_join_cost_per_row);
    let d = value(m, cm.sort_cost_per_row);
    let e = value(m, cm.sort_merge_join_cost_per_row);
    let f = value(m, cm.hash_aggregate_build_cost_per_row) + value(m, cm.hash_aggregate_probe_cost_per_row);
    let g = value(m, cm.streaming_aggregate_cost_per_row);
    lemma_times_nothing(a);
    lemma_times_nothing(b);
    lemma_times_nothing(c);
    lemma_times_nothing(d);
    lemma_times_nothing(f);
    lemma_times_nothing(g);
    lemma_times_nothing(whole(0));
    assert((whole(0) + whole(0)) * e == whole(0)) by (nonlinear_arith)
        requires
            whole(0) == 0int as real,
    ;
}

/// A sort costs the same for each row and for each doubling of the rows, but at least for one doubling; to
/// keep `count` rows takes as many doublings as sorting so many.
pub proof fn sorts_cost_by_the_doubling(m: Numbers, cm: CostModel, rows: Quantity, count: usize)
    requires
        count <= u64::MAX,
    ensures
        ({
            let per_row = value(m, rows) * value(m, cm.sort_cost_factor);
            let doublings = (m.log2)(value(m, rows));
            let kept = (m.log2)(whole(count as int));
            &&& doublings >= whole(1) ==> value(m, cm.sort(rows)) == per_row * doublings
            &&& doublings < whole(1) ==> value(m, cm.sort(rows)) == per_row
            &&& kept >= whole(1) ==> value(m, cm.top_n(rows, count)) == per_row * kept
            &&& kept < whole(1) ==> value(m, cm.top_n(rows, count)) == per_row
            &&& kept <= doublings && per_row >= whole(0) ==> value(m, cm.top_n(rows, count)) <= value(m, cm.sort(rows))
        }),
{
    reveal_with_fuel(value, 4);
    let p = value(m, rows) * value(m, cm.sort_cost_factor);
    let d = (m.log2)(value(m, rows));
    let k = (m.log2)(whole(count as int));
    let x = if d >= whole(1) {
        d
    } else {
        whole(1)
    };
    let y = if k >= whole(1) {
        k
    } else {
        whole(1)
    };
    assert(value(m, cm.sort(rows)) == p * x);
    assert(value(m, cm.top_n(rows, count)) == p * y);
    assert(p * whole(1) == p) by (nonlinear_arith)
        requires
            whole(1) == 1int as real,
    ;
    if k <= d && p >= whole(0) {
        assert(p * y <= p * x) by (nonlinear_arith)
            requires
                p >= 0int as real,
                y <= x,
        ;
    }
}

proof fn lemma_part(a: real, s: real)
    requires
        a >= whole(0),
        whole(0) <= s <= whole(1),
    ensures
        whole(0) <= a * s <= a,
{
    assert(0int as real <= a * s <= a) by (nonlinear_arith)
        requires
            a >= 0int as real,
            0int as real <= s <= 1int as real,
    ;
}

/// An operator gives no more rows than it is given, but for one that follows edges, which gives five for
/// each, and an aggregation, which gives at least one. A limit gives no more than it says, and a filter
/// what its condition lets through.
pub proof fn operators_give_no_more_rows(m: Numbers, op: Op, input: Quantity, cm: CostModel)
    requires
        has_shares(m, cm),
        value(m, input) >= whole(1),
    ensures
        ({
            let rows = value(m, op_cost(op, input, cm).1);
            &&& whole(0) <= rows
            &&& !(op is EdgeExpand) ==> rows <= value(m, input)
            &&& op is EdgeExpand ==> rows == whole(5) * value(m, input)
            &&& op is Aggregate ==> rows >= whole(1)
            &&& op matches Op::Limit(count) ==> rows <= whole(count as u64 as int)
            &&& op matches Op::Filter(condition) ==> rows == value(m, input) * value(m, selectivity_by_kind(condition, cm))
            &&& op is Distinct ==> rows + rows == value(m, input)
            &&& op is Skip || op is Sort || op is Produce || op is Project ==> rows == value(m, input)
        }),
{
    reveal_with_fuel(value, 4);
    lemma_decimals(m);
    let a = value(m, input);
    lemma_part(a, value(m, cm.label_selectivity));
    lemma_part(a, value(m, cm.equality_selectivity));
    lemma_part(a, value(m, Quantity::decimal(5, 1)));
    lemma_part(a, value(m, Quantity::decimal(1, 1)));
    if let Op::Filter(condition) = op {
        kind_shares_fit(m, condition, cm);
        lemma_part(a, value(m, selectivity_by_kind(condition, cm)));
    }
    assert(a * whole(5) == whole(5) * a) by (nonlinear_arith);
    assert(a * (whole(5) / whole(10)) + a * (whole(5) / whole(10)) == a) by (nonlinear_arith)
        requires
            whole(5) == 5int as real,
            whole(10) == 10int as real,
    ;
    assert(ten_to(1) == 10) by {
        reveal_with_fuel(ten_to, 3);
    }
    let half = value(m, Quantity::decimal(5, 1));
    assert(half == whole(5) / whole(10));
    let rows = value(m, op_cost(op, input, cm).1);
    match op {
        Op::Distinct => {
            assert(rows == a * half);
        },
        Op::Aggregate(group_by, _) => {
            assert(rows >= whole(1));
            assert(rows <= a);
        },
        Op::Limit(count) => {
            assert(rows <= whole(count as u64 as int));
        },
        Op::EdgeExpand { .. } => {
            assert(rows == a * whole(5));
        },
        _ => {},
    }
}

/// A physical filter gives what its condition lets through, at so much for each row.
pub proof fn filters_give_what_they_let_through(m: Numbers, condition: Expr, child: Physical, cm: CostModel, catalog: CatalogStats)
    requires
        value(m, child.cardinality) >= whole(0),
    ensures
        ({
            let p = absorbed(Op::Filter(condition), child, cm, catalog);
            &&& value(m, p.cardinality) == value(m, child.cardinality) * value(m, selectivity(condition, catalog))
            &&& value(m, p.cost.cpu) == value(m, p.cardinality) * value(m, cm.filter_cost_per_row)
            &&& whole(0) <= value(m, p.cardinality) <= value(m, child.cardinality)
        }),
{
    let p = absorbed(Op::Filter(condition), child, cm, catalog);
    let share = selectivity(condition, catalog);
    let rows = Quantity::product(child.cardinality, share);
    catalog_shares_fit(m, condition, catalog);
    lemma_part(value(m, child.cardinality), value(m, share));
    assert(value(m, rows) == value(m, child.cardinality) * value(m, share));
    assert(p.cardinality == Quantity::larger(rows, Quantity::Count(0)));
    assert(value(m, Quantity::Count(0)) == whole(0));
    assert(value(m, p.cardinality) == value(m, rows));
    assert(p.cost.cpu == Quantity::product(rows, cm.filter_cost_per_row));
}

/// A physical operator other than a filter gives no more rows than the plan that it works on, but for one that follows edges,
/// which gives five for each, and an aggregation, which gives at least one. A limit gives no more than it
/// says.
pub proof fn physical_operators_give_no_more_rows(m: Numbers, op: Op, child: Physical, cm: CostModel, catalog: CatalogStats)
    requires
        value(m, child.cardinality) >= whole(1),
        op is Sort || op is Limit || op is Skip || op is TopN || op is Distinct || op is EdgeExpand
            || op is Aggregate || op is Produce || op is Project,
    ensures
        ({
            let p = absorbed(op, child, cm, catalog);
            let input = value(m, child.cardinality);
            let rows = value(m, p.cardinality);
            &&& whole(0) <= rows
            &&& !(op is EdgeExpand) && !(op is Distinct) ==> rows <= input
            &&& op is EdgeExpand ==> rows == whole(5) * input
            &&& op is Distinct ==> rows + rows == input
            &&& op is Aggregate ==> rows >= whole(1)
            &&& op matches Op::Limit(count) ==> rows <= whole(count as u64 as int)
            &&& op matches Op::TopN(_, count) ==> rows <= whole(count as u64 as int)
            &&& op is Skip || op is Sort || op is Produce || op is Project ==> rows == input
        }),
{
    reveal_with_fuel(value, 4);
    lemma_decimals(m);
    let a = value(m, child.cardinality);
    let p = absorbed(op, child, cm, catalog);
    lemma_part(a, value(m, Quantity::decimal(1, 1)));
    assert(a * whole(5) == whole(5) * a) by (nonlinear_arith);
    assert(a * (whole(5) / whole(10)) + a * (whole(5) / whole(10)) == a) by (nonlinear_arith)
        requires
            whole(5) == 5int as real,
            whole(10) == 10int as real,
    ;
    assert(ten_to(1) == 10) by {
        reveal_with_fuel(ten_to, 3);
    }
    assert(value(m, Quantity::decimal(5, 1)) == whole(5) / whole(10));
    lemma_part(a, value(m, Quantity::decimal(5, 1)));
    match op {
        Op::Aggregate(group_by, aggregates) => {
            assert(value(m, p.cardinality) >= whole(1));
            assert(value(m, p.cardinality) <= a);
        },
        Op::Distinct => {
            let half = Quantity::decimal(5, 1);
            assert(p.cardinality == Quantity::product(child.cardinality, half));
            let h = value(m, half);
            let x = value(m, p.cardinality);
            assert(x == a * h);
            assert(x + x == a) by (nonlinear_arith)
                requires
                    x == a * h,
                    h == whole(5) / whole(10),
                    whole(5) == 5int as real,
                    whole(10) == 10int as real,
            ;
        },
        Op::EdgeExpand { .. } => {
            assert(p.cardinality == Quantity::product(child.cardinality, Quantity::Count(5)));
            assert(value(m, p.cardinality) == a * whole(5));
            assert(a * whole(5) >= whole(0)) by (nonlinear_arith)
                requires
                    a >= 1int as real,
                    whole(5) == 5int as real,
                    whole(0) == 0int as real,
            ;
        },
        Op::Limit(count) => {
            assert(p.cardinality == Quantity::smaller(Quantity::Count(count as u64), child.cardinality));
            assert(whole(0) <= value(m, p.cardinality) <= whole(count as u64 as int));
        },
        Op::TopN(_, count) => {
            assert(p.cardinality == Quantity::smaller(Quantity::Count(count as u64), child.cardinality));
            assert(whole(0) <= value(m, p.cardinality) <= whole(count as u64 as int));
        },
        Op::Skip(_) | Op::Sort(_) | Op::Produce(_) | Op::Project(_) => {
            assert(p.cardinality == child.cardinality);
        },
        _ => {},
    }
}

/// Two index scans of independent properties have as many rows in common as the share of the one has of the
/// other, but at least one.
pub proof fn independent_indices_intersect_in_proportion(m: Numbers, l: u64, r: u64, vertices: u64)
    requires
        vertices > 0,
    ensures
        whole(l as int) * whole(r as int) >= whole(vertices as int) ==> value(m, intersection_rows(l, r, vertices)) * whole(
            vertices as int,
        ) == whole(l as int) * whole(r as int),
        whole(l as int) * whole(r as int) < whole(vertices as int) ==> value(m, intersection_rows(l, r, vertices)) == whole(1),
{
    reveal_with_fuel(value, 4);
    let a = whole(l as int) * whole(r as int);
    let b = whole(vertices as int);
    assert(a / b * b == a && (a >= b <==> a / b >= 1int as real)) by (nonlinear_arith)
        requires
            b > 0int as real,
    ;
}

/// How the estimates of a node follow from those of its inputs: a filter lets through three of ten rows and
/// costs one for each; a join costs a thousand more than its sides and gives no fewer rows than either, and
/// a union costs one more and gives the rows of both; to follow edges takes five times as much and gives
/// five times the rows, to aggregate takes three times as much for one row of ten, and to drop repeated rows
/// twice as much for half of them. A limit, an offset and a projection cost nothing.
pub open spec fn estimates_fit(m: Numbers, node: Node, data: Seq<PlanData>, d: PlanData) -> bool {
    let cost = value(m, d.estimated_cost);
    let rows = value(m, d.estimated_cardinality);
    let first = value(m, data[0].estimated_cost);
    let second = value(m, data[1].estimated_cost);
    let third = value(m, data[2].estimated_cost);
    let first_rows = value(m, data[0].estimated_cardinality);
    let second_rows = value(m, data[1].estimated_cardinality);
    let third_rows = value(m, data[2].estimated_cardinality);
    match node {
        Node::Filter(_, _) => whole(10) * rows == whole(3) * second_rows && cost - second == rows && d.is_sorted == data[1].is_sorted,
        Node::Join(_, _, _) => {
            &&& cost - first - second == whole(1000)
            &&& rows >= first_rows && rows >= second_rows && (rows == first_rows || rows == second_rows)
            &&& d.has_index <==> data[0].has_index || data[1].has_index
        },
        Node::Union(_, _, _) => cost - first - second == whole(1) && rows == first_rows + second_rows && !d.is_sorted,
        Node::EdgeExpand(_, _, _) => cost == whole(5) * third && rows == whole(5) * third_rows,
        Node::Aggregate(_, _, _) => cost == whole(3) * third && whole(10) * rows == third_rows,
        Node::Distinct(_) => cost == first + first && rows + rows == first_rows,
        Node::Limit(_, _) | Node::SkipOp(_, _) | Node::Project(_, _) => cost == second && rows == second_rows && d.is_sorted
            == data[1].is_sorted,
        Node::Sort(_, _) => {
            let doublings = (m.log2)(second_rows);
            &&& d.is_sorted
            &&& rows == second_rows
            &&& doublings < whole(1) ==> cost - second == whole(10) * second_rows
            &&& doublings >= whole(1) ==> cost - second == whole(10) * second_rows * doublings
        },
        _ => true,
    }
}

proof fn lemma_tenths(x: real)
    ensures
        whole(10) * (x * (whole(3) / whole(10))) == whole(3) * x,
        whole(10) * (x * (whole(1) / whole(10))) == x,
        x * (whole(5) / whole(10)) + x * (whole(5) / whole(10)) == x,
        x * whole(5) == whole(5) * x,
        x * whole(3) == whole(3) * x,
        x * whole(2) == x + x,
        x * whole(10) == whole(10) * x,
        whole(10) * x * whole(1) == whole(10) * x,
{
    assert(whole(10) * (x * (whole(3) / whole(10))) == whole(3) * x && whole(10) * (x * (whole(1) / whole(10))) == x && x * (whole(
        5,
    ) / whole(10)) + x * (whole(5) / whole(10)) == x) by (nonlinear_arith)
        requires
            whole(10) == 10int as real,
            whole(5) == 5int as real,
            whole(3) == 3int as real,
            whole(1) == 1int as real,
    ;
    assert(x * whole(5) == whole(5) * x && x * whole(3) == whole(3) * x && x * whole(10) == whole(10) * x) by (nonlinear_arith);
    assert(x * whole(2) == x + x && whole(10) * x * whole(1) == whole(10) * x) by (nonlinear_arith)
        requires
            whole(2) == 2int as real,
            whole(1) == 1int as real,
    ;
}

/// The estimates of a node of an equality graph fit those of its inputs.
pub proof fn node_estimates_fit(m: Numbers, node: Node, data: Seq<PlanData>)
    requires
        data.len() == inputs(node).len(),
    ensures
        estimates_fit(m, node, data, node_data(node, data)),
{
    reveal_with_fuel(value, 5);
    assert(ten_to(1) == 10) by {
        reveal_with_fuel(ten_to, 3);
    }
    let d = node_data(node, data);
    lemma_tenths(value(m, data[0].estimated_cost));
    lemma_tenths(value(m, data[1].estimated_cost));
    lemma_tenths(value(m, data[2].estimated_cost));
    lemma_tenths(value(m, data[0].estimated_cardinality));
    lemma_tenths(value(m, data[1].estimated_cardinality));
    lemma_tenths(value(m, data[2].estimated_cardinality));
    match node {
        Node::Sort(_, _) => {
            let r = value(m, data[1].estimated_cardinality);
            let doublings = (m.log2)(r);
            let x = if doublings >= whole(1) {
                doublings
            } else {
                whole(1)
            };
            assert(value(m, d.estimated_cost) == value(m, data[1].estimated_cost) + r * whole(10) * x);
        },
        _ => {},
    }
}

/// The costs by which plans are picked fit those of the inputs in the same way, and the more specific of two
/// scans is the cheaper.
pub proof fn node_costs_fit(m: Numbers, node: Node, costs: Seq<Quantity>, all: Node, by_label: Node, by_index: Node)
    requires
        costs.len() == inputs(node).len(),
        all is AllScan,
        by_label is LabelScan,
        by_index is LabelPropScan,
    ensures
        value(m, node_cost(by_index, Seq::empty())) < value(m, node_cost(by_label, Seq::empty())) < value(
            m,
            node_cost(all, Seq::empty()),
        ),
        ({
            let cost = value(m, node_cost(node, costs));
            let first = value(m, costs[0]);
            let second = value(m, costs[1]);
            let third = value(m, costs[2]);
            match node {
                Node::Filter(_, _) => whole(10) * (cost - second) == whole(3) * second,
                Node::Join(_, _, _) => cost - first - second == whole(1000),
                Node::Union(_, _, _) => cost - first - second == whole(1),
                Node::EdgeExpand(_, _, _) => cost == whole(5) * third,
                Node::Aggregate(_, _, _) => cost == whole(3) * third,
                Node::Distinct(_) => cost == first + first,
                Node::Limit(_, _) | Node::SkipOp(_, _) | Node::Project(_, _) => cost == second,
                Node::Sort(_, _) => {
                    let doublings = (m.log2)(second);
                    &&& doublings < whole(1) ==> cost == whole(10) * second
                    &&& doublings >= whole(1) ==> cost == whole(10) * second * doublings
                },
                _ => true,
            }
        }),
{
    reveal_with_fuel(value, 5);
    assert(ten_to(1) == 10) by {
        reveal_with_fuel(ten_to, 3);
    }
    lemma_tenths(value(m, costs[0]));
    lemma_tenths(value(m, costs[1]));
    lemma_tenths(value(m, costs[2]));
    match node {
        Node::Sort(_, _) => {
            let r = value(m, costs[1]);
            let doublings = (m.log2)(r);
            let x = if doublings >= whole(1) {
                doublings
            } else {
                whole(1)
            };
            assert(value(m, node_cost(node, costs)) == r * whole(10) * x);
        },
        _ => {},
    }
}

/// How many rows the catalog's statistics give an operator: a nested-loop join gives each pair of rows, a
/// hash join as many rows as its larger side; a union gives the rows of both sides, or half of them without
/// repeated rows; a limit gives what it says.
pub proof fn cardinalities_follow_from_inputs(m: Numbers, l: Plan, r: Plan, key: Seq<char>, count: usize, catalog: CatalogStats)
    requires
        count <= u64::MAX,
    ensures
        ({
            let a = value(m, op_cardinality(l.op, catalog));
            let b = value(m, op_cardinality(r.op, catalog));
            let nested = op_cardinality(Op::Join(Box::new(l), Box::new(r), JoinKind::NestedLoop), catalog);
            let hashed = op_cardinality(Op::Join(Box::new(l), Box::new(r), JoinKind::HashJoin(key, key)), catalog);
            let all = op_cardinality(Op::Union(Box::new(l), Box::new(r), true), catalog);
            let distinct = op_cardinality(Op::Union(Box::new(l), Box::new(r), false), catalog);
            &&& value(m, nested) == a * b
            &&& value(m, hashed) >= a && value(m, hashed) >= b && (value(m, hashed) == a || value(m, hashed) == b)
            &&& value(m, all) == a + b
            &&& value(m, distinct) + value(m, distinct) == a + b
            &&& value(m, op_cardinality(Op::Limit(count), catalog)) == whole(count as int)
        }),
{
    reveal_with_fuel(value, 3);
    reveal_with_fuel(op_cardinality, 2);
    assert(ten_to(1) == 10) by {
        reveal_with_fuel(ten_to, 3);
    }
    let a = value(m, op_cardinality(l.op, catalog));
    let b = value(m, op_cardinality(r.op, catalog));
    lemma_tenths(a + b);
}

/// A scan by a label and the value of a property gives one row for every hundred of the label.
pub proof fn values_are_one_in_a_hundred(m: Numbers, scan: Op, catalog: CatalogStats)
    requires
        scan is LabelPropertyScan,
    ensures
        value(m, op_cardinality(scan, catalog)) * whole(100) == value(
            m,
            op_cardinality(Op::LabelScan(scan->LabelPropertyScan_0, scan->LabelPropertyScan_1), catalog),
        ),
{
    reveal_with_fuel(value, 3);
    assert(ten_to(2) == 100) by {
        reveal_with_fuel(ten_to, 4);
    }
    let x = whole(catalog.label_rows(scan->LabelPropertyScan_1) as int);
    assert(x * (whole(1) / whole(100)) * whole(100) == x) by (nonlinear_arith)
        requires
            whole(1) == 1int as real,
            whole(100) == 100int as real,
    ;
}

/// Where a limit, an offset or a filter stands to the left of an operator that lets its rows through, the
/// estimates after it is pushed down: a limit leaves no more rows than it says, an offset leaves what is
/// beyond it, and a filter three of ten of what the projection gives; the whole gives no more than either
/// side.
pub proof fn pushing_down_lowers_estimates(m: Numbers, p: Plan, left: Plan, right: Plan, kind: JoinKind)
    requires
        p.op == Op::Join(Box::new(left), Box::new(right), kind),
        lets_rows_through(right.op),
    ensures
        left.op matches Op::Limit(count) ==> {
            let q = limit_pushed(p);
            let rows = value(m, (q.op->Join_0).cardinality);
            &&& rows <= whole(count as u64 as int) && rows <= value(m, left.cardinality)
            &&& rows == whole(count as u64 as int) || rows == value(m, left.cardinality)
            &&& value(m, q.cardinality) <= rows && value(m, q.cardinality) <= value(m, right.cardinality)
        },
        left.op matches Op::Skip(count) ==> {
            let q = skip_pushed(p);
            let rows = value(m, (q.op->Join_0).cardinality);
            let beyond = value(m, left.cardinality) - whole(count as u64 as int);
            &&& beyond >= whole(0) ==> rows == beyond
            &&& beyond < whole(0) ==> rows == whole(0)
            &&& value(m, q.cardinality) <= rows && value(m, q.cardinality) <= value(m, right.cardinality)
        },
        left.op is Filter && right.op is Project && references_preserved(left.op->Filter_0, right.op->Project_0) ==> {
            let q = filter_pushed(p);
            let rows = value(m, (q.op->Join_0).cardinality);
            &&& whole(10) * rows == whole(3) * value(m, right.cardinality)
            &&& value(m, q.cardinality) <= rows && value(m, q.cardinality) <= value(m, right.cardinality)
        },
{
    reveal_with_fuel(value, 4);
    assert(ten_to(1) == 10) by {
        reveal_with_fuel(ten_to, 3);
    }
    lemma_tenths(value(m, right.cardinality));
}

/// After reordering, a join whose sides may be swapped has no larger side to its left, where of two numbers
/// of rows only one can be the smaller; it is estimated at the rows of its larger side.
pub proof fn reordering_puts_the_smaller_side_left<F: Fn(&Quantity, &Quantity) -> Compared>(
    m: Numbers,
    p: Plan,
    cm: CostModel,
    compare: F,
)
    requires
        p.op is Join,
        forall|a: Quantity, b: Quantity|
            #![trigger compared(compare, a, b), compared(compare, b, a)]
            compared(compare, a, b) is Less ==> !(compared(compare, b, a) is Less),
    ensures
        ({
            let q = joins_reordered(p, cm, compare);
            let left = *(q.op->Join_0);
            let right = *(q.op->Join_1);
            &&& q.op is Join
            &&& !is_pipeline(left.op) && !is_pipeline(right.op) ==> !(compared(compare, right.cardinality, left.cardinality) is Less)
            &&& value(m, q.cardinality) >= value(m, left.cardinality) && value(m, q.cardinality) >= value(m, right.cardinality)
            &&& value(m, q.cardinality) == value(m, left.cardinality) || value(m, q.cardinality) == value(m, right.cardinality)
            &&& value(m, q.cost.cpu) == value(m, q.cardinality) + value(m, cm.nested_loop_join_cost)
        }),
{
    reveal_with_fuel(value, 3);
    let l = joins_reordered(*(p.op->Join_0), cm, compare);
    let r = joins_reordered(*(p.op->Join_1), cm, compare);
    let a = compared(compare, r.cardinality, l.cardinality);
    let b = compared(compare, l.cardinality, r.cardinality);
    assert(a is Less ==> !(b is Less));
}

} // verus!
