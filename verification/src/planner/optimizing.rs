//! Each rule of the optimizer keeps the rows of a plan.
use vstd::prelude::*;

use crate::planner::cost::CostModel;
use crate::planner::expression::{BinaryOp, Expr};
use crate::planner::fold::{fits, folded};
use crate::planner::logical::{JoinKind, Op, Plan};
use crate::planner::matching::{comes_along, lemma_expanded_contains, lemma_filter_contains, lemma_joined_contains, lemma_sum_contains};
use crate::planner::meaning::{agree, applied, bare_rows, compares_by, expanded, grouped, holds, joined, produced, rows_of, takes_input, unnamed, value_of, without_repeats, EdgeRecord, Expansion, Row, World};
use crate::planner::preservation::{folding_keeps_values, lemma_joined_by_shared_keys};
use crate::planner::query::OrderKey;
use crate::planner::rules::{conditions_fit, constants_folded, filter_pushed, filters_merged, indices_intersected, is_false_filter, is_pipeline, is_true_filter, joins_reordered, limit_pushed, redundant_filters_removed, skip_pushed, trivial_filters_simplified, true_filters_removed};
use crate::planner::stats::PlanStats;
use crate::quantity::{Compared, Quantity};

verus! {

/// Whether every chain of operators of a plan starts with one that finds its rows itself.
pub open spec fn rooted(p: Plan) -> bool
    decreases p,
{
    match p.op {
        Op::Join(l, r, _) => rooted(*l) && (takes_input(r.op) || rooted(*r)),
        Op::Union(l, r, _) => rooted(*l) && rooted(*r),
        _ => !takes_input(p.op),
    }
}

/// The rows of a plan do not depend on its estimates.
proof fn lemma_rows_by_operator(w: World, a: Plan, b: Plan)
    ensures
        a.op == b.op ==> rows_of(w, a) == rows_of(w, b),
{
}

/// Pushing limits, offsets and filters down changes the estimates of a plan, not its rows.
pub proof fn pushing_down_keeps_rows(w: World, p: Plan)
    ensures
        rows_of(w, limit_pushed(p)) == rows_of(w, p),
        rows_of(w, skip_pushed(p)) == rows_of(w, p),
        rows_of(w, filter_pushed(p)) == rows_of(w, p),
        takes_input(limit_pushed(p).op) == takes_input(p.op),
        takes_input(skip_pushed(p).op) == takes_input(p.op),
        takes_input(filter_pushed(p).op) == takes_input(p.op),
        takes_input(p.op) ==> limit_pushed(p) == p && skip_pushed(p) == p && filter_pushed(p) == p,
    decreases p,
{
    match p.op {
        Op::Join(l, r, kind) => {
            pushing_down_keeps_rows(w, *l);
            pushing_down_keeps_rows(w, *r);
            lemma_rows_by_operator(w, *((limit_pushed(p).op)->Join_0), *l);
            lemma_rows_by_operator(w, *((skip_pushed(p).op)->Join_0), *l);
            lemma_rows_by_operator(w, *((filter_pushed(p).op)->Join_0), *l);
            assert(rows_of(w, limit_pushed(p)) == rows_of(w, p));
            assert(rows_of(w, skip_pushed(p)) == rows_of(w, p));
            assert(rows_of(w, filter_pushed(p)) == rows_of(w, p));
        },
        Op::Union(l, r, all) => {
            pushing_down_keeps_rows(w, *l);
            pushing_down_keeps_rows(w, *r);
        },
        _ => {},
    }
}

proof fn lemma_true_filter(w: World, rows: Seq<Row>)
    ensures
        applied(w, Op::Filter(Expr::Bool(true)), rows) == rows,
{
    let keep = |row: Row| holds(w, Expr::Bool(true), row);
    lemma_filter_all(rows, keep);
}

proof fn lemma_filter_all(rows: Seq<Row>, keep: spec_fn(Row) -> bool)
    requires
        forall|i: int| 0 <= i < rows.len() ==> keep(#[trigger] rows[i]),
    ensures
        rows.filter(keep) == rows,
    decreases rows.len(),
{
    reveal(Seq::filter);
    if rows.len() > 0 {
        assert(keep(rows[rows.len() - 1]));
        assert forall|i: int| 0 <= i < rows.drop_last().len() implies keep(#[trigger] rows.drop_last()[i]) by {
            assert(keep(rows[i]));
        }
        lemma_filter_all(rows.drop_last(), keep);
        assert(rows.filter(keep) =~= rows);
    } else {
        assert(rows.filter(keep) =~= rows);
    }
}

proof fn lemma_filter_none(rows: Seq<Row>, keep: spec_fn(Row) -> bool)
    requires
        forall|i: int| 0 <= i < rows.len() ==> !keep(#[trigger] rows[i]),
    ensures
        rows.filter(keep) == Seq::<Row>::empty(),
    decreases rows.len(),
{
    reveal(Seq::filter);
    if rows.len() > 0 {
        assert(!keep(rows[rows.len() - 1]));
        assert forall|i: int| 0 <= i < rows.drop_last().len() implies !keep(#[trigger] rows.drop_last()[i]) by {
            assert(!keep(rows[i]));
        }
        lemma_filter_none(rows.drop_last(), keep);
    }
    assert(rows.filter(keep) =~= Seq::<Row>::empty());
}

proof fn lemma_filter_twice(rows: Seq<Row>, a: spec_fn(Row) -> bool, b: spec_fn(Row) -> bool, c: spec_fn(Row) -> bool)
    requires
        forall|row: Row| #[trigger] c(row) == (a(row) && b(row)),
    ensures
        rows.filter(a).filter(b) == rows.filter(c),
    decreases rows.len(),
{
    reveal(Seq::filter);
    if rows.len() > 0 {
        lemma_filter_twice(rows.drop_last(), a, b, c);
        let before = rows.drop_last().filter(a);
        if a(rows.last()) {
            assert(before.push(rows.last()).drop_last() =~= before);
            assert(before.push(rows.last()).last() == rows.last());
        }
        assert(c(rows.last()) == (a(rows.last()) && b(rows.last())));
    }
}

proof fn lemma_filter_same(rows: Seq<Row>, a: spec_fn(Row) -> bool, b: spec_fn(Row) -> bool)
    requires
        forall|row: Row| rows.contains(row) ==> #[trigger] a(row) == b(row),
    ensures
        rows.filter(a) == rows.filter(b),
    decreases rows.len(),
{
    reveal(Seq::filter);
    if rows.len() > 0 {
        let before = rows.drop_last();
        assert forall|row: Row| before.contains(row) implies #[trigger] a(row) == b(row) by {
            let i = choose|i: int| 0 <= i < before.len() && before[i] == row;
            assert(rows[i] == row);
        }
        lemma_filter_same(before, a, b);
        assert(rows.contains(rows.last())) by {
            assert(rows[rows.len() - 1] == rows.last());
        }
        assert(a(rows.last()) == b(rows.last()));
    }
}

/// Removing filters that let every row through keeps the rows of a plan.
pub proof fn removing_true_filters_keeps_rows(w: World, p: Plan)
    requires
        rooted(p),
    ensures
        rows_of(w, redundant_filters_removed(p)) == rows_of(w, p),
        rooted(redundant_filters_removed(p)),
        !takes_input(redundant_filters_removed(p).op),
        rows_of(w, true_filters_removed(p)) == rows_of(w, p),
        rooted(true_filters_removed(p)),
        !takes_input(true_filters_removed(p).op),
    decreases p,
{
    match p.op {
        Op::Join(l, r, kind) => {
            removing_true_filters_keeps_rows(w, *l);
            if takes_input(r.op) {
                assert(redundant_filters_removed(*r) == *r);
                assert(true_filters_removed(*r) == *r);
                if is_true_filter(r.op) {
                    lemma_true_filter(w, rows_of(w, *l));
                }
            } else {
                removing_true_filters_keeps_rows(w, *r);
            }
        },
        Op::Union(l, r, all) => {
            removing_true_filters_keeps_rows(w, *l);
            removing_true_filters_keeps_rows(w, *r);
        },
        _ => {},
    }
}

/// Merging adjacent filters keeps the rows of a plan: a row passes both if and only if it meets both
/// conditions.
pub proof fn merging_filters_keeps_rows(w: World, p: Plan)
    requires
        rooted(p),
    ensures
        rows_of(w, filters_merged(p)) == rows_of(w, p),
        rooted(filters_merged(p)),
        !takes_input(filters_merged(p).op),
    decreases p,
{
    match p.op {
        Op::Join(l, r, kind) => {
            merging_filters_keeps_rows(w, *l);
            let left = filters_merged(*l);
            if takes_input(r.op) {
                assert(filters_merged(*r) == *r);
                if let (Op::Join(base, inner, inner_kind), Op::Filter(second)) = (left.op, r.op) {
                    if let Op::Filter(first) = inner.op {
                        let and = Expr::Binary(BinaryOp::And, Box::new(first), Box::new(second));
                        let a = |row: Row| holds(w, first, row);
                        let b = |row: Row| holds(w, second, row);
                        let c = |row: Row| holds(w, and, row);
                        assert forall|row: Row| #[trigger] c(row) == (a(row) && b(row)) by {
                            reveal_with_fuel(value_of, 2);
                        }
                        lemma_filter_twice(rows_of(w, *base), a, b, c);
                        assert(rows_of(w, left) == rows_of(w, *base).filter(a));
                        assert(rows_of(w, p) == rows_of(w, *base).filter(a).filter(b));
                    }
                }
            } else {
                merging_filters_keeps_rows(w, *r);
            }
        },
        Op::Union(l, r, all) => {
            merging_filters_keeps_rows(w, *l);
            merging_filters_keeps_rows(w, *r);
        },
        _ => {},
    }
}

/// Whether every condition of a plan has a value on every row that it is asked about.
pub open spec fn conditions_have_values(w: World, p: Plan) -> bool
    decreases p,
{
    match p.op {
        Op::Join(l, r, _) => {
            &&& conditions_have_values(w, *l)
            &&& if takes_input(r.op) {
                r.op matches Op::Filter(condition) ==> forall|row: Row|
                    rows_of(w, *l).contains(row) ==> (#[trigger] value_of(w, condition, row)) is Some
            } else {
                conditions_have_values(w, *r)
            }
        },
        Op::Union(l, r, _) => conditions_have_values(w, *l) && conditions_have_values(w, *r),
        Op::Filter(condition) => forall|row: Row|
            bare_rows(w).contains(row) ==> (#[trigger] value_of(w, condition, row)) is Some,
        _ => true,
    }
}

proof fn lemma_folded_filter<F: Fn(&Quantity, &Quantity) -> Compared>(w: World, condition: Expr, rows: Seq<Row>, compare: F)
    requires
        compares_by(w, compare),
        fits(condition, compare),
        forall|row: Row| rows.contains(row) ==> (#[trigger] value_of(w, condition, row)) is Some,
    ensures
        applied(w, Op::Filter(folded(condition, compare)), rows) == applied(w, Op::Filter(condition), rows),
{
    let a = |row: Row| holds(w, folded(condition, compare), row);
    let b = |row: Row| holds(w, condition, row);
    assert forall|row: Row| rows.contains(row) implies #[trigger] a(row) == b(row) by {
        assert(value_of(w, condition, row) is Some);
        folding_keeps_values(w, condition, row, compare);
    }
    lemma_filter_same(rows, a, b);
}

/// Folding the constants of its conditions keeps the rows of a plan, where the conditions have values.
pub proof fn folding_constants_keeps_rows<F: Fn(&Quantity, &Quantity) -> Compared>(w: World, p: Plan, compare: F)
    requires
        compares_by(w, compare),
        conditions_fit(p, compare),
        conditions_have_values(w, p),
    ensures
        rows_of(w, constants_folded(p, compare)) == rows_of(w, p),
        takes_input(constants_folded(p, compare).op) == takes_input(p.op),
    decreases p,
{
    match p.op {
        Op::Filter(condition) => {
            lemma_folded_filter(w, condition, bare_rows(w), compare);
            let new = constants_folded(p, compare);
            assert(new.op == Op::Filter(folded(condition, compare)));
            assert(rows_of(w, new) == applied(w, new.op, bare_rows(w)));
            assert(rows_of(w, p) == applied(w, p.op, bare_rows(w)));
        },
        Op::Join(l, r, kind) => {
            folding_constants_keeps_rows(w, *l, compare);
            if takes_input(r.op) {
                assert(conditions_fit(*r, compare));
                let new = constants_folded(*r, compare);
                if let Op::Filter(condition) = r.op {
                    lemma_folded_filter(w, condition, rows_of(w, *l), compare);
                    assert(new.op == Op::Filter(folded(condition, compare)));
                } else {
                    assert(new == *r);
                }
            } else {
                folding_constants_keeps_rows(w, *r, compare);
            }
        },
        Op::Union(l, r, all) => {
            folding_constants_keeps_rows(w, *l, compare);
            folding_constants_keeps_rows(w, *r, compare);
        },
        _ => {},
    }
}

/// Whether nothing stays nothing: a sort of no rows has none, and no operator of a plan makes rows of none
/// by aggregating.
pub open spec fn keeps_nothing(w: World, p: Plan) -> bool
    decreases p,
{
    match p.op {
        Op::Join(l, r, _) | Op::Union(l, r, _) => keeps_nothing(w, *l) && keeps_nothing(w, *r),
        Op::Sort(key) | Op::TopN(key, _) => (w.sort)(key, Seq::empty()) == Seq::<Row>::empty(),
        Op::Aggregate(group_by, aggregates) => grouped(w, group_by, aggregates, Seq::empty()) == Seq::<Row>::empty(),
        _ => true,
    }
}

proof fn lemma_nothing_stays(w: World, r: Plan)
    requires
        takes_input(r.op),
        keeps_nothing(w, r),
    ensures
        applied(w, r.op, Seq::empty()) == Seq::<Row>::empty(),
{
    let none = Seq::<Row>::empty();
    if let Op::Filter(condition) = r.op {
        lemma_filter_none(none, |row: Row| holds(w, condition, row));
    }
    assert(applied(w, r.op, none) =~= none);
}

proof fn lemma_joined_with_nothing(kind: JoinKind, left: Seq<Row>, n: nat)
    ensures
        joined(kind, left, Seq::empty(), n) == Seq::<Row>::empty(),
    decreases n,
{
    if n > 0 && n <= left.len() {
        lemma_joined_with_nothing(kind, left, (n - 1) as nat);
    }
    assert(joined(kind, left, Seq::empty(), n) =~= Seq::<Row>::empty());
}

/// Replacing filters that let nothing through, and the joins that they empty, keeps the rows of a plan.
pub proof fn simplifying_keeps_rows(w: World, p: Plan)
    requires
        rooted(p),
        keeps_nothing(w, p),
    ensures
        rows_of(w, trivial_filters_simplified(p)) == rows_of(w, p),
        rooted(trivial_filters_simplified(p)),
        !takes_input(trivial_filters_simplified(p).op),
    decreases p,
{
    match p.op {
        Op::Join(l, r, kind) => {
            simplifying_keeps_rows(w, *l);
            if takes_input(r.op) {
                if is_false_filter(r.op) {
                    let condition = r.op->Filter_0;
                    lemma_filter_none(rows_of(w, *l), |row: Row| holds(w, condition, row));
                } else {
                    assert(trivial_filters_simplified(*r) == *r);
                    if trivial_filters_simplified(*l).op is EmptyResult {
                        assert(rows_of(w, *l) == Seq::<Row>::empty());
                        lemma_nothing_stays(w, *r);
                    }
                }
            } else {
                simplifying_keeps_rows(w, *r);
                if trivial_filters_simplified(*l).op is EmptyResult {
                    assert(rows_of(w, *l) == Seq::<Row>::empty());
                } else if trivial_filters_simplified(*r).op is EmptyResult {
                    assert(rows_of(w, *r) == Seq::<Row>::empty());
                    lemma_joined_with_nothing(kind, rows_of(w, *l), rows_of(w, *l).len());
                }
            }
        },
        Op::Union(l, r, all) => {
            simplifying_keeps_rows(w, *l);
            simplifying_keeps_rows(w, *r);
        },
        _ => {},
    }
}

/// Whether every join of a plan is by a key that both sides share, or by none.
pub open spec fn joins_by_shared_keys(p: Plan) -> bool
    decreases p,
{
    match p.op {
        Op::Join(l, r, kind) => {
            &&& joins_by_shared_keys(*l)
            &&& joins_by_shared_keys(*r)
            &&& kind matches JoinKind::HashJoin(a, b) ==> a == b
        },
        Op::Union(l, r, _) => joins_by_shared_keys(*l) && joins_by_shared_keys(*r),
        _ => true,
    }
}

/// Intersecting index scans by hash joins keeps the rows of a plan.
pub proof fn intersecting_indices_keeps_rows(w: World, p: Plan, stats: PlanStats)
    requires
        joins_by_shared_keys(p),
    ensures
        rows_of(w, indices_intersected(p, stats)) == rows_of(w, p),
        joins_by_shared_keys(indices_intersected(p, stats)),
        takes_input(indices_intersected(p, stats).op) == takes_input(p.op),
    decreases p,
{
    match p.op {
        Op::Join(l, r, kind) => {
            intersecting_indices_keeps_rows(w, *l, stats);
            intersecting_indices_keeps_rows(w, *r, stats);
            let a = rows_of(w, *l);
            let b = rows_of(w, *r);
            let new = indices_intersected(p, stats);
            lemma_joined_by_shared_keys(a, b, kind, new.op->Join_2, a.len());
            if takes_input(r.op) {
                assert(indices_intersected(*r, stats) == *r);
            }
        },
        Op::Union(l, r, all) => {
            intersecting_indices_keeps_rows(w, *l, stats);
            intersecting_indices_keeps_rows(w, *r, stats);
        },
        _ => {},
    }
}

/// Whether two sequences hold the same rows, in whatever order and however often.
pub open spec fn same_rows(a: Seq<Row>, b: Seq<Row>) -> bool {
    forall|row: Row| #[trigger] a.contains(row) <==> b.contains(row)
}

/// Whether sorting keeps the rows that it sorts.
pub open spec fn sorting_keeps_rows(w: World) -> bool {
    forall|key: Seq<OrderKey>, rows: Seq<Row>| same_rows(#[trigger] (w.sort)(key, rows), rows)
}

/// Whether the rows of a plan do not depend on the order in which rows come.
pub open spec fn unordered(p: Plan) -> bool
    decreases p,
{
    match p.op {
        Op::Join(l, r, _) => unordered(*l) && unordered(*r),
        Op::Union(l, r, _) => unordered(*l) && unordered(*r),
        Op::Limit(_) | Op::Skip(_) | Op::TopN(_, _) | Op::Aggregate(_, _) => false,
        _ => true,
    }
}

proof fn lemma_repeats(rows: Seq<Row>)
    ensures
        same_rows(without_repeats(rows), rows),
    decreases rows.len(),
{
    if rows.len() > 0 {
        let before = rows.drop_last();
        lemma_repeats(before);
        let kept = without_repeats(before);
        let last = rows.last();
        assert(rows =~= before + seq![last]);
        assert forall|row: Row| #[trigger] without_repeats(rows).contains(row) <==> rows.contains(row) by {
            lemma_sum_contains(before, seq![last], row);
            lemma_sum_contains(kept, seq![last], row);
            assert(kept.push(last) =~= kept + seq![last]);
            assert(seq![last].contains(row) <==> row == last) by {
                assert(seq![last][0] == last);
            }
        }
    }
}

proof fn lemma_map_rows(a: Seq<Row>, b: Seq<Row>, f: spec_fn(Row) -> Row)
    requires
        same_rows(a, b),
    ensures
        same_rows(a.map_values(f), b.map_values(f)),
{
    assert forall|row: Row| #[trigger] a.map_values(f).contains(row) <==> b.map_values(f).contains(row) by {
        if a.map_values(f).contains(row) {
            let i = choose|i: int| 0 <= i < a.len() && a.map_values(f)[i] == row;
            assert(a.contains(a[i]));
            let j = choose|j: int| 0 <= j < b.len() && b[j] == a[i];
            assert(b.map_values(f)[j] == row);
        }
        if b.map_values(f).contains(row) {
            let i = choose|i: int| 0 <= i < b.len() && b.map_values(f)[i] == row;
            assert(a.contains(b[i]));
            let j = choose|j: int| 0 <= j < a.len() && a[j] == b[i];
            assert(a.map_values(f)[j] == row);
        }
    }
}

proof fn lemma_expanded_rows(w: World, x: Expansion, a: Seq<Row>, b: Seq<Row>, row: Row)
    requires
        same_rows(a, b),
        expanded(w, x, a, a.len()).contains(row),
    ensures
        expanded(w, x, b, b.len()).contains(row),
{
    lemma_expanded_contains(w, x, a, row, a.len());
    lemma_expanded_contains(w, x, b, row, b.len());
    let (i, e, to) = choose|i: int, e: EdgeRecord, to: u64| 0 <= i < a.len() && #[trigger] comes_along(w, x, a[i], e, to, row);
    assert(a.contains(a[i]));
    let j = choose|j: int| 0 <= j < b.len() && b[j] == a[i];
    assert(comes_along(w, x, b[j], e, to, row));
}

proof fn lemma_applied_rows(w: World, r: Plan, a: Seq<Row>, b: Seq<Row>)
    requires
        same_rows(a, b),
        sorting_keeps_rows(w),
        takes_input(r.op),
        unordered(r),
    ensures
        same_rows(applied(w, r.op, a), applied(w, r.op, b)),
{
    match r.op {
        Op::Filter(condition) => {
            let keep = |row: Row| holds(w, condition, row);
            assert forall|row: Row| #[trigger] applied(w, r.op, a).contains(row) <==> applied(w, r.op, b).contains(row) by {
                lemma_filter_contains(a, keep, row);
                lemma_filter_contains(b, keep, row);
            }
        },
        Op::Distinct => {
            lemma_repeats(a);
            lemma_repeats(b);
            assert forall|row: Row| #[trigger] applied(w, r.op, a).contains(row) <==> applied(w, r.op, b).contains(row) by {
                assert(without_repeats(a).contains(row) <==> a.contains(row));
                assert(without_repeats(b).contains(row) <==> b.contains(row));
            }
        },
        Op::Sort(key) => {
            assert forall|row: Row| #[trigger] applied(w, r.op, a).contains(row) <==> applied(w, r.op, b).contains(row) by {
                assert(same_rows((w.sort)(key, a), a));
                assert(same_rows((w.sort)(key, b), b));
                assert((w.sort)(key, a).contains(row) <==> a.contains(row));
                assert((w.sort)(key, b).contains(row) <==> b.contains(row));
            }
        },
        Op::Produce(items) => {
            lemma_map_rows(a, b, |row: Row| produced(w, items, row, items.len()));
        },
        Op::Project(expressions) => {
            lemma_map_rows(a, b, |row: Row| produced(w, unnamed(expressions), row, unnamed(expressions).len()));
        },
        Op::EdgeExpand { from_alias, edge_alias, to_alias, direction, edge_type } => {
            let x = Expansion { from: from_alias, edge_alias, to_alias, direction, edge_type };
            assert forall|row: Row| #[trigger] applied(w, r.op, a).contains(row) <==> applied(w, r.op, b).contains(row) by {
                if expanded(w, x, a, a.len()).contains(row) {
                    lemma_expanded_rows(w, x, a, b, row);
                }
                if expanded(w, x, b, b.len()).contains(row) {
                    lemma_expanded_rows(w, x, b, a, row);
                }
            }
        },
        _ => {},
    }
}

/// Joined rows do not depend on the order of rows, nor on which side is the left one.
proof fn lemma_joined_rows(kind: JoinKind, a: Seq<Row>, b: Seq<Row>, c: Seq<Row>, d: Seq<Row>, row: Row)
    requires
        kind matches JoinKind::HashJoin(x, y) ==> x == y,
        same_rows(a, c) && same_rows(b, d) || same_rows(a, d) && same_rows(b, c),
        joined(kind, a, b, a.len()).contains(row),
    ensures
        joined(kind, c, d, c.len()).contains(row),
{
    lemma_joined_by_shared_keys(a, b, kind, JoinKind::NestedLoop, a.len());
    lemma_joined_by_shared_keys(c, d, kind, JoinKind::NestedLoop, c.len());
    lemma_joined_contains(JoinKind::NestedLoop, a, b, row, a.len());
    lemma_joined_contains(JoinKind::NestedLoop, c, d, row, c.len());
    let (i, j) = choose|i: int, j: int|
        0 <= i < a.len() && 0 <= j < b.len() && #[trigger] agree(a[i], b[j]) && row == a[i].union_prefer_right(b[j]);
    assert(a.contains(a[i]) && b.contains(b[j]));
    if same_rows(a, c) && same_rows(b, d) {
        let k = choose|k: int| 0 <= k < c.len() && c[k] == a[i];
        let l = choose|l: int| 0 <= l < d.len() && d[l] == b[j];
        assert(agree(c[k], d[l]));
    } else {
        let k = choose|k: int| 0 <= k < c.len() && c[k] == b[j];
        let l = choose|l: int| 0 <= l < d.len() && d[l] == a[i];
        assert(agree(c[k], d[l])) by {
            assert forall|name: Seq<char>| #[trigger] c[k].contains_key(name) && d[l].contains_key(name) implies c[k][name] == d[l][name] by {
                assert(a[i].contains_key(name));
            }
        }
        assert(row =~= c[k].union_prefer_right(d[l])) by {
            assert forall|name: Seq<char>| #[trigger] row.contains_key(name) implies row[name] == c[k].union_prefer_right(d[l])[name] by {
                if a[i].contains_key(name) && b[j].contains_key(name) {
                    assert(a[i][name] == b[j][name]);
                }
            }
        }
    }
}

/// Swapping the inputs of joins neither loses rows nor adds any, where nothing depends on their order.
pub proof fn reordering_keeps_rows<F: Fn(&Quantity, &Quantity) -> Compared>(w: World, p: Plan, cm: CostModel, compare: F)
    requires
        rooted(p),
        unordered(p),
        joins_by_shared_keys(p),
        sorting_keeps_rows(w),
    ensures
        same_rows(rows_of(w, joins_reordered(p, cm, compare)), rows_of(w, p)),
        !takes_input(joins_reordered(p, cm, compare).op),
    decreases p,
{
    let new = joins_reordered(p, cm, compare);
    match p.op {
        Op::Join(l, r, kind) => {
            reordering_keeps_rows(w, *l, cm, compare);
            let left = joins_reordered(*l, cm, compare);
            let right = joins_reordered(*r, cm, compare);
            if takes_input(r.op) {
                assert(right == *r);
                assert(unordered(*r));
                assert(is_pipeline(r.op));
                lemma_applied_rows(w, *r, rows_of(w, left), rows_of(w, *l));
                assert(rows_of(w, new) == applied(w, r.op, rows_of(w, left)));
            } else {
                reordering_keeps_rows(w, *r, cm, compare);
                let a = rows_of(w, left);
                let b = rows_of(w, right);
                let c = rows_of(w, *l);
                let d = rows_of(w, *r);
                assert forall|row: Row| #[trigger] rows_of(w, new).contains(row) <==> rows_of(w, p).contains(row) by {
                    if joined(kind, c, d, c.len()).contains(row) {
                        lemma_joined_rows(kind, c, d, a, b, row);
                        lemma_joined_rows(kind, c, d, b, a, row);
                    }
                    if joined(kind, a, b, a.len()).contains(row) {
                        lemma_joined_rows(kind, a, b, c, d, row);
                    }
                    if joined(kind, b, a, b.len()).contains(row) {
                        lemma_joined_rows(kind, b, a, c, d, row);
                    }
                }
            }
        },
        Op::Union(l, r, all) => {
            reordering_keeps_rows(w, *l, cm, compare);
            reordering_keeps_rows(w, *r, cm, compare);
            let a = rows_of(w, joins_reordered(*l, cm, compare));
            let b = rows_of(w, joins_reordered(*r, cm, compare));
            let c = rows_of(w, *l);
            let d = rows_of(w, *r);
            lemma_repeats(a + b);
            lemma_repeats(c + d);
            assert forall|row: Row| #[trigger] rows_of(w, new).contains(row) <==> rows_of(w, p).contains(row) by {
                lemma_sum_contains(a, b, row);
                lemma_sum_contains(c, d, row);
                assert(without_repeats(a + b).contains(row) <==> (a + b).contains(row));
                assert(without_repeats(c + d).contains(row) <==> (c + d).contains(row));
            }
        },
        _ => {},
    }
}

} // verus!
