//! What the clauses of a query do to rows.
use vstd::prelude::*;

use crate::planner::expression::{BinaryOp, Expr, Expression, UnaryOp};
use crate::planner::generate::{aggregating, chain_of, chained, clause_plan, clauses_plan, create_leaves, match_plan, opt_expr, return_plan, set_leaves, with_plan};
use crate::planner::logical::{JoinKind, Op, Plan};
use crate::planner::matching::{lemma_element_joins, lemma_joined_contains, match_rows_are_matches, matches_paths, symmetric, well_named};
use crate::planner::meaning::{value_of, agree, holds, joined, produced, rows_of, takes_input, unnamed, Row, World};
use crate::planner::query::{views, Clause, NamedExpr, PatternElement, Query, ReturnItem, SetItem};
use crate::planner::rules::identifiers;
use crate::planner::stats::PlanStats;
use crate::quantity::Quantity;
use crate::text::same_ignoring_case;

verus! {

/// The items of a clause that aggregate, or those that do not.
pub open spec fn items_that(items: Seq<NamedExpr>, aggregate: bool) -> Seq<NamedExpr> {
    items.filter(|item: NamedExpr| aggregating(item.expression) == aggregate)
}

/// What a clause that reads makes of the rows before it: a `RETURN` clause gives a row of its items for
/// each row, or groups the rows by the items that do not aggregate; a `WITH` clause without a condition
/// gives a row of its expressions for each; `ORDER BY` sorts, `SKIP` leaves out the first rows and `LIMIT`
/// all but the first.
pub open spec fn rows_after(w: World, clause: Clause, rows: Seq<Row>, result: Seq<Row>) -> bool {
    match clause {
        Clause::Return { items, distinct, all } => if !all && (exists|i: int|
            0 <= i < items@.len() && aggregating((#[trigger] items@[i]).expression@)) {
            result == (w.aggregate)(items_that(views(items@), false), items_that(views(items@), true), rows)
        } else {
            &&& result.len() == rows.len()
            &&& forall|i: int|
                0 <= i < rows.len() ==> #[trigger] result[i] == produced(w, views(items@), rows[i], items@.len())
        },
        Clause::With { items, where_clause } => {
            &&& result.len() == rows.len()
            &&& forall|i: int|
                0 <= i < rows.len() ==> #[trigger] result[i] == produced(
                    w,
                    Seq::new(items@.len(), |j: int| NamedExpr { expression: items@[j].expression@, alias: None }),
                    rows[i],
                    items@.len(),
                )
        },
        Clause::OrderBy { items } => result == (w.sort)(views(items@), rows),
        Clause::Skip { count } => match count {
            Expression::Int(n) => {
                let left = if n <= rows.len() {
                    n as int
                } else {
                    rows.len() as int
                };
                &&& result.len() == rows.len() - left
                &&& forall|i: int| 0 <= i < result.len() ==> #[trigger] result[i] == rows[left + i]
            },
            _ => result == rows,
        },
        Clause::Limit { count } => match count {
            Expression::Int(n) => {
                &&& result.len() == if n <= rows.len() {
                    n as int
                } else {
                    rows.len() as int
                }
                &&& forall|i: int| 0 <= i < result.len() ==> #[trigger] result[i] == rows[i]
            },
            _ => result == rows,
        },
        Clause::Other => result == rows,
        _ => true,
    }
}

/// Whether a clause reads rows and works on those before it. A count is one that a machine word holds,
/// and a `WITH` clause has no condition.
pub open spec fn works_on_rows(clause: Clause) -> bool {
    match clause {
        Clause::Return { .. } | Clause::OrderBy { .. } | Clause::Other => true,
        Clause::With { where_clause, .. } => where_clause is None,
        Clause::Skip { count } => count matches Expression::Int(n) ==> 0 <= n <= usize::MAX,
        Clause::Limit { count } => count matches Expression::Int(n) ==> 0 <= n <= usize::MAX,
        _ => false,
    }
}

proof fn lemma_filter_none_left(items: Seq<NamedExpr>, keep: spec_fn(NamedExpr) -> bool)
    ensures
        items.filter(keep).len() == 0 <==> forall|i: int| 0 <= i < items.len() ==> !keep(#[trigger] items[i]),
    decreases items.len(),
{
    reveal(Seq::filter);
    if items.len() > 0 {
        let before = items.drop_last();
        lemma_filter_none_left(before, keep);
        if forall|i: int| 0 <= i < items.len() ==> !keep(#[trigger] items[i]) {
            assert forall|i: int| 0 <= i < before.len() implies !keep(#[trigger] before[i]) by {
                assert(!keep(items[i]));
            }
            assert(!keep(items[items.len() - 1]));
        }
        if items.filter(keep).len() == 0 {
            assert(!keep(items.last()));
            assert forall|i: int| 0 <= i < items.len() implies !keep(#[trigger] items[i]) by {
                if i < before.len() {
                    assert(!keep(before[i]));
                }
            }
        }
    }
}

proof fn lemma_return(items: Seq<ReturnItem>, all: bool, next: Plan)
    requires
        next == return_plan(views(items), all),
    ensures
        takes_input(next.op),
        !all && (exists|i: int| 0 <= i < items.len() && aggregating((#[trigger] items[i]).expression@)) ==> next.op == Op::Aggregate(
            items_that(views(items), false),
            items_that(views(items), true),
        ) && items_that(views(items), true).len() > 0,
        !(!all && (exists|i: int| 0 <= i < items.len() && aggregating((#[trigger] items[i]).expression@))) ==> next.op == Op::Produce(
            views(items),
        ),
{
    let model = views(items);
    let yes = |item: NamedExpr| aggregating(item.expression);
    let no = |item: NamedExpr| !aggregating(item.expression);
    let yes2 = |item: NamedExpr| aggregating(item.expression) == true;
    let no2 = |item: NamedExpr| aggregating(item.expression) == false;
    assert(yes =~= yes2);
    assert(no =~= no2);
    lemma_filter_none_left(model, yes);
    if exists|i: int| 0 <= i < items.len() && aggregating((#[trigger] items[i]).expression@) {
        let i = choose|i: int| 0 <= i < items.len() && aggregating((#[trigger] items[i]).expression@);
        assert(yes(model[i]));
    } else {
        assert forall|i: int| 0 <= i < model.len() implies !yes(#[trigger] model[i]) by {
            assert(!aggregating(items[i].expression@));
        }
    }
}

/// A clause that works on rows works on those of the clauses before it.
pub proof fn clauses_work_on_the_rows_before(w: World, query: Query, stats: PlanStats, n: nat)
    requires
        n < query.clauses@.len(),
        works_on_rows(query.clauses@[n as int]),
        clauses_plan(query, stats, n) is Some,
    ensures
        clauses_plan(query, stats, n + 1) is Some,
        rows_after(
            w,
            query.clauses@[n as int],
            rows_of(w, clauses_plan(query, stats, n)->0),
            rows_of(w, clauses_plan(query, stats, n + 1)->0),
        ),
{
    let clause = query.clauses@[n as int];
    let before = clauses_plan(query, stats, n)->0;
    let rows = rows_of(w, before);
    let after = clauses_plan(query, stats, n + 1)->0;
    let next = clause_plan(clause, Some(before), stats, query.index_hints@);
    match clause {
        Clause::Return { items, distinct, all } => {
            lemma_return(items@, all, next->0);
        },
        Clause::With { items, where_clause } => {
            assert(opt_expr(where_clause) is None);
            let expressions = views(items@).map_values(|item: NamedExpr| item.expression);
            let named = Seq::new(items@.len(), |j: int| NamedExpr { expression: items@[j].expression@, alias: None });
            assert(unnamed(expressions) =~= named);
        },
        _ => {},
    }
}

/// The rows after a `MATCH` clause are those before it, each joined with the matches of the clause that
/// agree with it on the names that both bind; where the clause comes first they are its matches.
pub proof fn matching_joins_the_rows_before(w: World, query: Query, stats: PlanStats, n: nat, row: Row)
    requires
        symmetric(w),
        n < query.clauses@.len(),
        query.clauses@[n as int] is Match,
        query.clauses@[n as int]->Match_pattern.elements@.len() > 0,
        forall|i: int|
            0 <= i < query.clauses@[n as int]->Match_pattern.elements@.len() ==> well_named(
                w,
                #[trigger] query.clauses@[n as int]->Match_pattern.elements@[i],
            ),
    ensures
        clauses_plan(query, stats, n + 1) is Some,
        ({
            let found = rows_of(w, clauses_plan(query, stats, n + 1)->0);
            let elements = query.clauses@[n as int]->Match_pattern.elements@;
            let condition = opt_expr(query.clauses@[n as int]->Match_where_clause);
            match clauses_plan(query, stats, n) {
                None => found.contains(row) <==> matches_paths(w, elements, row, elements.len()) && (condition matches Some(e) ==> holds(
                    w,
                    e,
                    row,
                )),
                Some(before) => found.contains(row) <==> exists|a: Row, b: Row| #[trigger]
                    agree(a, b) && rows_of(w, before).contains(a) && matches_paths(w, elements, b, elements.len()) && (condition matches Some(
                        e,
                    ) ==> holds(w, e, b)) && row == a.union_prefer_right(b),
            }
        }),
{
    let clause = query.clauses@[n as int];
    let pattern = clause->Match_pattern;
    let elements = pattern.elements@;
    let condition = opt_expr(clause->Match_where_clause);
    let plan = match_plan(pattern, condition, stats, query.index_hints@);
    assert(clause_plan(clause, clauses_plan(query, stats, n), stats, query.index_hints@) == Some(plan));
    match_rows_are_matches(w, pattern, condition, stats, query.index_hints@, row);
    if let Some(before) = clauses_plan(query, stats, n) {
        let l = rows_of(w, before);
        let r = rows_of(w, plan);
        lemma_element_joins(elements[elements.len() - 1], condition, stats, query.index_hints@);
        assert(!takes_input(plan.op));
        lemma_joined_contains(JoinKind::NestedLoop, l, r, row, l.len());
        let found = rows_of(w, clauses_plan(query, stats, n + 1)->0);
        assert(found == joined(JoinKind::NestedLoop, l, r, l.len()));
        if found.contains(row) {
            let (i, j) = choose|i: int, j: int|
                0 <= i < l.len() && 0 <= j < r.len() && #[trigger] agree(l[i], r[j]) && row == l[i].union_prefer_right(r[j]);
            match_rows_are_matches(w, pattern, condition, stats, query.index_hints@, r[j]);
            assert(l.contains(l[i]) && r.contains(r[j]));
        }
        if exists|a: Row, b: Row| #[trigger]
            agree(a, b) && l.contains(a) && matches_paths(w, elements, b, elements.len()) && (condition matches Some(e) ==> holds(
                w,
                e,
                b,
            )) && row == a.union_prefer_right(b) {
            let (a, b) = choose|a: Row, b: Row| #[trigger]
                agree(a, b) && l.contains(a) && matches_paths(w, elements, b, elements.len()) && (condition matches Some(e) ==> holds(
                    w,
                    e,
                    b,
                )) && row == a.union_prefer_right(b);
            match_rows_are_matches(w, pattern, condition, stats, query.index_hints@, b);
            let i = choose|i: int| 0 <= i < l.len() && l[i] == a;
            let j = choose|j: int| 0 <= j < r.len() && r[j] == b;
            assert(agree(l[i], r[j]));
        }
    }
}

/// The condition of a `WITH` clause keeps those of the projected rows on which it holds.
pub proof fn conditions_filter_what_is_projected(w: World, items: Seq<NamedExpr>, condition: Expr, rows: Quantity)
    ensures
        rows_of(w, with_plan(items, Some(condition), rows)) == rows_of(w, with_plan(items, None, rows)).filter(
            |row: Row| holds(w, condition, row),
        ),
{
}

/// The operators of a plan that are no joins and no unions, from left to right.
pub open spec fn operators(p: Plan) -> Seq<Op>
    decreases p,
{
    match p.op {
        Op::Join(l, r, _) | Op::Union(l, r, _) => operators(*l) + operators(*r),
        _ => seq![p.op],
    }
}

proof fn lemma_operators_of_chain(s: Seq<Plan>)
    requires
        s.len() > 0,
        forall|i: int| 0 <= i < s.len() ==> !((#[trigger] s[i]).op is Join) && !(s[i].op is Union),
    ensures
        operators(chained(s)).len() == s.len(),
        forall|i: int| 0 <= i < s.len() ==> #[trigger] operators(chained(s))[i] == s[i].op,
    decreases s.len(),
{
    reveal_with_fuel(operators, 2);
    if s.len() == 1 {
        assert(chained(s) == s[0]);
    } else {
        let before = s.drop_last();
        assert forall|i: int| 0 <= i < before.len() implies !((#[trigger] before[i]).op is Join) && !(before[i].op is Union) by {
            assert(before[i] == s[i]);
        }
        lemma_operators_of_chain(before);
        assert(chained(s) == chain_of(chained(before), s.last()));
        assert(operators(s.last()) == seq![s.last().op]);
        assert(operators(chained(s)) == operators(chained(before)) + operators(s.last()));
        assert forall|i: int| 0 <= i < s.len() implies #[trigger] operators(chained(s))[i] == s[i].op by {
            if i < before.len() {
                assert(operators(chained(before))[i] == before[i].op);
            }
        }
    }
}

/// A `CREATE` clause creates the first vertex of each of its paths, with its labels and properties, in
/// their order.
pub proof fn creating_creates_first_vertices(elements: Seq<PatternElement>, stats: PlanStats)
    requires
        elements.len() > 0,
    ensures
        operators(chained(create_leaves(elements, stats, elements.len()))).len() == elements.len(),
        forall|i: int|
            0 <= i < elements.len() ==> #[trigger] operators(chained(create_leaves(elements, stats, elements.len())))[i]
                == Op::CreateVertex(elements[i].node.labels@, views(elements[i].node.properties@)),
{
    lemma_operators_of_chain(create_leaves(elements, stats, elements.len()));
}

/// How many of the first `n` assignments assign a property.
pub open spec fn assignments_before(items: Seq<SetItem>, n: nat) -> nat
    decreases n,
{
    if n == 0 {
        0
    } else {
        assignments_before(items, (n - 1) as nat) + if items[n - 1] is Property {
            1nat
        } else {
            0nat
        }
    }
}

proof fn lemma_set_leaves(items: Seq<SetItem>, n: nat)
    requires
        n <= items.len(),
    ensures
        set_leaves(items, n).len() == assignments_before(items, n),
        forall|i: int|
            0 <= i < set_leaves(items, n).len() ==> !((#[trigger] set_leaves(items, n)[i]).op is Join) && !(set_leaves(items, n)[i].op is Union),
        forall|j: int|
            0 <= j < n && (#[trigger] items[j]) is Property ==> assignments_before(items, j as nat) < assignments_before(items, n)
                && set_leaves(items, n)[assignments_before(items, j as nat) as int].op == Op::SetProperty(
                items[j]->Property_key,
                items[j]->Property_value@,
            ),
    decreases n,
{
    if n > 0 {
        lemma_set_leaves(items, (n - 1) as nat);
    }
}

/// A `SET` clause assigns each of its properties once, in their order.
pub proof fn setting_assigns_each_property(items: Seq<SetItem>, j: int)
    requires
        0 <= j < items.len(),
        items[j] is Property,
    ensures
        operators(chained(set_leaves(items, items.len()))).len() == assignments_before(items, items.len()),
        assignments_before(items, j as nat) < assignments_before(items, items.len()),
        operators(chained(set_leaves(items, items.len())))[assignments_before(items, j as nat) as int] == Op::SetProperty(
            items[j]->Property_key,
            items[j]->Property_value@,
        ),
{
    lemma_set_leaves(items, items.len());
    lemma_operators_of_chain(set_leaves(items, items.len()));
}

/// Whether an expression aggregates does not depend on the case of names. Arithmetic aggregates if and only
/// if one of its operands does, and a sign or a negation if its operand does; a comparison never does.
pub proof fn arithmetic_aggregates_with_its_operands(a: Expr, b: Expr, x: Seq<char>, y: Seq<char>, arguments: Seq<Expr>, distinct: bool)
    ensures
        same_ignoring_case(x, y) ==> aggregating(Expr::Function(x, arguments, distinct)) == aggregating(
            Expr::Function(y, arguments, distinct),
        ),
        forall|op: BinaryOp|
            (op is Add || op is Sub || op is Mul || op is Div || op is Mod) ==> #[trigger] aggregating(
                Expr::Binary(op, Box::new(a), Box::new(b)),
            ) == (aggregating(a) || aggregating(b)),
        forall|op: BinaryOp|
            (op is Eq || op is Neq || op is Lt || op is Gt || op is Lte || op is Gte || op is And || op is Or) ==> !#[trigger] aggregating(
                Expr::Binary(op, Box::new(a), Box::new(b)),
            ),
        aggregating(Expr::Unary(UnaryOp::Neg, Box::new(a))) == aggregating(a),
        aggregating(Expr::Unary(UnaryOp::Not, Box::new(a))) == aggregating(a),
{
    reveal_with_fuel(aggregating, 2);
}

/// Whether an expression is built of names, literals, property reads and operators.
pub open spec fn is_simple(e: Expr) -> bool
    decreases e,
{
    match e {
        Expr::Identifier(_) | Expr::Null | Expr::Bool(_) | Expr::Int(_) | Expr::Double(_) | Expr::Text(_) => true,
        Expr::Property(object, _) => is_simple(*object),
        Expr::Binary(_, l, r) => is_simple(*l) && is_simple(*r),
        Expr::Unary(_, x) => is_simple(*x),
        _ => false,
    }
}

/// Whether two rows bind each of some names alike.
pub open spec fn alike_on(names: Seq<Seq<char>>, a: Row, b: Row) -> bool {
    forall|i: int|
        0 <= i < names.len() ==> a.contains_key(#[trigger] names[i]) == b.contains_key(names[i]) && a[names[i]] == b[names[i]]
}

/// A simple expression has the same value on rows that bind the identifiers that it mentions alike.
pub proof fn values_depend_on_identifiers(w: World, e: Expr, a: Row, b: Row)
    requires
        is_simple(e),
        alike_on(identifiers(e), a, b),
    ensures
        value_of(w, e, a) == value_of(w, e, b),
    decreases e,
{
    match e {
        Expr::Identifier(name) => {
            assert(identifiers(e)[0] == name);
        },
        Expr::Property(object, _) => {
            values_depend_on_identifiers(w, *object, a, b);
        },
        Expr::Binary(_, l, r) => {
            let names = identifiers(e);
            let first = identifiers(*l);
            assert forall|i: int| 0 <= i < first.len() implies a.contains_key(#[trigger] first[i]) == b.contains_key(first[i]) && a[first[i]]
                == b[first[i]] by {
                assert(names[i] == first[i]);
            }
            let second = identifiers(*r);
            assert forall|i: int| 0 <= i < second.len() implies a.contains_key(#[trigger] second[i]) == b.contains_key(second[i])
                && a[second[i]] == b[second[i]] by {
                assert(names[first.len() + i] == second[i]);
            }
            values_depend_on_identifiers(w, *l, a, b);
            values_depend_on_identifiers(w, *r, a, b);
        },
        Expr::Unary(_, x) => {
            values_depend_on_identifiers(w, *x, a, b);
        },
        _ => {},
    }
}

} // verus!
