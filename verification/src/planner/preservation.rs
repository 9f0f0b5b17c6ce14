//! What the planner does to expressions and plans keeps what they mean.
use vstd::prelude::*;

use crate::planner::cost::CostModel;
use crate::planner::expression::{BinaryOp, Expr, UnaryOp};
use crate::planner::fold::{binary_fits, fits, fold_binary, fold_unary, folded, looks_inside};
use crate::planner::ids::LabelId;
use crate::planner::logical::{JoinKind, Op, Plan};
use crate::planner::meaning::{applied, branch_values, compares_by, entry_values, joined, row_joined, rows_of, rows_of_step, takes_input, value_of, values_of, vertex_rows, when_values, Row, World};
use crate::planner::physical::{absorbed, convertible, physical_form, scan_of_all, Physical};
use crate::planner::query::NamedExpr;
use crate::planner::stats::CatalogStats;
use crate::quantity::{compared, Compared, Quantity};
use crate::text::texts_stand_in_order;

verus! {

proof fn lemma_binary_keeps_value<F: Fn(&Quantity, &Quantity) -> Compared>(
    w: World,
    op: BinaryOp,
    l: Expr,
    r: Expr,
    row: Row,
    compare: F,
)
    requires
        compares_by(w, compare),
        looks_inside(op),
        binary_fits(op, l, r),
        value_of(w, Expr::Binary(op, Box::new(l), Box::new(r)), row) is Some,
    ensures
        value_of(w, fold_binary(op, l, r, compare), row) == value_of(w, Expr::Binary(op, Box::new(l), Box::new(r)), row),
{
    let e = Expr::Binary(op, Box::new(l), Box::new(r));
    let a = value_of(w, l, row);
    let b = value_of(w, r, row);
    assert(a is Some && b is Some);
    if let (Expr::Text(x), Expr::Text(y)) = (l, r) {
        texts_stand_in_order(x, y);
        texts_stand_in_order(y, x);
    }
    if let (Expr::Double(x), Expr::Double(y)) = (l, r) {
        assert((w.order)(x, y) == compared(compare, x, y));
    }
    if let Expr::Double(y) = r {
        assert((w.order)(y, Quantity::Count(0)) == compared(compare, y, Quantity::Count(0)));
    }
}

proof fn lemma_unary_keeps_value(w: World, op: UnaryOp, x: Expr, row: Row)
    requires
        op is Neg ==> x != Expr::Int(i64::MIN),
        value_of(w, Expr::Unary(op, Box::new(x)), row) is Some,
    ensures
        value_of(w, fold_unary(op, x), row) == value_of(w, Expr::Unary(op, Box::new(x)), row),
{
    assert(value_of(w, x, row) is Some);
}

/// Folding the constants of an expression keeps its value, on every row on which it has one.
#[verifier::rlimit(60)]
pub proof fn folding_keeps_values<F: Fn(&Quantity, &Quantity) -> Compared>(w: World, e: Expr, row: Row, compare: F)
    requires
        compares_by(w, compare),
        fits(e, compare),
        value_of(w, e, row) is Some,
    ensures
        value_of(w, folded(e, compare), row) == value_of(w, e, row),
    decreases e,
{
    let f = folded(e, compare);
    match e {
        Expr::Binary(op, l, r) => {
            if looks_inside(op) {
                folding_keeps_values(w, *l, row, compare);
                folding_keeps_values(w, *r, row, compare);
                let fl = folded(*l, compare);
                let fr = folded(*r, compare);
                assert(value_of(w, Expr::Binary(op, Box::new(fl), Box::new(fr)), row) == value_of(w, e, row));
                lemma_binary_keeps_value(w, op, fl, fr, row, compare);
            }
        },
        Expr::Unary(op, x) => {
            folding_keeps_values(w, *x, row, compare);
            let fx = folded(*x, compare);
            assert(value_of(w, Expr::Unary(op, Box::new(fx)), row) == value_of(w, e, row));
            lemma_unary_keeps_value(w, op, fx, row);
        },
        Expr::Property(object, _) => {
            folding_keeps_values(w, *object, row, compare);
        },
        Expr::Label(object, _) => {
            folding_keeps_values(w, *object, row, compare);
        },
        Expr::List(items) => {
            let s = values_of(w, items, row);
            let g = f->List_0;
            let t = values_of(w, g, row);
            assert forall|i: int| 0 <= i < items.len() implies s[i] == t[i] by {
                assert(s[i] is Some);
                folding_keeps_values(w, items[i], row, compare);
            }
            assert(s =~= t);
        },
        Expr::MapLiteral(entries) => {
            let s = entry_values(w, entries, row);
            let g = f->MapLiteral_0;
            let t = entry_values(w, g, row);
            assert forall|i: int| 0 <= i < entries.len() implies s[i] == t[i] by {
                assert(s[i] is Some);
                folding_keeps_values(w, entries[i].1, row, compare);
            }
            assert(s =~= t);
            assert(Seq::new(entries.len(), |i: int| (entries[i].0, s[i]->0)) =~= Seq::new(g.len(), |i: int| (g[i].0, t[i]->0)));
        },
        Expr::Function(_, arguments, _) => {
            let s = values_of(w, arguments, row);
            let g = f->Function_1;
            let t = values_of(w, g, row);
            assert forall|i: int| 0 <= i < arguments.len() implies s[i] == t[i] by {
                assert(s[i] is Some);
                folding_keeps_values(w, arguments[i], row, compare);
            }
            assert(s =~= t);
        },
        Expr::Case(expression, whens, else_branch) => {
            if let Some(x) = expression {
                folding_keeps_values(w, *x, row, compare);
            }
            if let Some(x) = else_branch {
                folding_keeps_values(w, *x, row, compare);
            }
            let a = when_values(w, whens, row);
            let b = branch_values(w, whens, row);
            let g = f->Case_1;
            let c = when_values(w, g, row);
            let d = branch_values(w, g, row);
            assert forall|i: int| 0 <= i < whens.len() implies a[i] == c[i] && b[i] == d[i] by {
                assert(a[i] is Some && b[i] is Some);
                folding_keeps_values(w, whens[i].0, row, compare);
                folding_keeps_values(w, whens[i].1, row, compare);
            }
            assert(a =~= c);
            assert(b =~= d);
            assert(Seq::new(whens.len(), |i: int| (a[i]->0, b[i]->0)) =~= Seq::new(g.len(), |i: int| (c[i]->0, d[i]->0)));
        },
        _ => {},
    }
}

/// Whether a plan has no union and no plan that gives nothing, and joins by a key that both sides share.
pub open spec fn is_plain(p: Plan) -> bool
    decreases p,
{
    match p.op {
        Op::Join(l, r, kind) => {
            &&& is_plain(*l)
            &&& is_plain(*r)
            &&& kind matches JoinKind::HashJoin(a, b) ==> a == b
        },
        Op::Union(_, _, _) | Op::EmptyResult => false,
        _ => true,
    }
}

/// Joins by keys that both sides share find the same rows, whatever the key.
proof fn lemma_row_joined_by_shared_keys(a: Row, rows: Seq<Row>, kind: JoinKind, other: JoinKind, n: nat)
    requires
        kind matches JoinKind::HashJoin(x, y) ==> x == y,
        other matches JoinKind::HashJoin(x, y) ==> x == y,
    ensures
        row_joined(kind, a, rows, n) == row_joined(other, a, rows, n),
    decreases n,
{
    if n > 0 && n <= rows.len() {
        lemma_row_joined_by_shared_keys(a, rows, kind, other, (n - 1) as nat);
    }
}

pub proof fn lemma_joined_by_shared_keys(left: Seq<Row>, right: Seq<Row>, kind: JoinKind, other: JoinKind, n: nat)
    requires
        kind matches JoinKind::HashJoin(x, y) ==> x == y,
        other matches JoinKind::HashJoin(x, y) ==> x == y,
    ensures
        joined(kind, left, right, n) == joined(other, left, right, n),
    decreases n,
{
    if n > 0 && n <= left.len() {
        lemma_joined_by_shared_keys(left, right, kind, other, (n - 1) as nat);
        lemma_row_joined_by_shared_keys(left[n - 1], right, kind, other, right.len());
    }
}

/// Two ways to tell which vertices are kept give the same rows where they agree.
proof fn lemma_same_vertices(w: World, alias: Option<Seq<char>>, a: spec_fn(u64) -> bool, b: spec_fn(u64) -> bool)
    requires
        forall|v: u64| #[trigger] a(v) == b(v),
    ensures
        vertex_rows(w, alias, a) == vertex_rows(w, alias, b),
{
    assert(a =~= b);
}

proof fn lemma_scan_of_all(w: World, alias: Option<Seq<char>>, cm: CostModel, catalog: CatalogStats)
    ensures
        rows_of_step(w, scan_of_all(alias, cm, catalog)) == vertex_rows(w, alias, |v: u64| true),
{
    let label: Option<LabelId> = None;
    lemma_same_vertices(
        w,
        alias,
        |v: u64|
            match label {
                Some(l) => (w.labelled)(v, l),
                None => true,
            },
        |v: u64| true,
    );
}

proof fn lemma_absorbed_rows(w: World, op: Op, child: Physical, cm: CostModel, catalog: CatalogStats)
    requires
        takes_input(op),
    ensures
        rows_of_step(w, absorbed(op, child, cm, catalog)) == applied(w, op, rows_of_step(w, child)),
{
    match op {
        Op::Distinct => {
            assert(Seq::<NamedExpr>::empty().len() == 0);
        },
        _ => {},
    }
}

/// The physical form of a plan gives the rows of the plan: each operator becomes one that does the same,
/// in the same place. Unions are left out, for which there is no physical operator, and plans that give
/// nothing.
pub proof fn physical_form_keeps_rows<F: Fn(&Quantity, &Quantity) -> Compared>(
    w: World,
    p: Plan,
    cm: CostModel,
    catalog: CatalogStats,
    compare: F,
)
    requires
        convertible(p),
        is_plain(p),
    ensures
        rows_of_step(w, physical_form(p, cm, catalog, compare)) == rows_of(w, p),
    decreases p,
{
    let all = scan_of_all(None, cm, catalog);
    lemma_scan_of_all(w, None, cm, catalog);
    match p.op {
        Op::AllScan(alias) => {
            lemma_scan_of_all(w, alias, cm, catalog);
        },
        Op::LabelScan(alias, label) => {
            let some = Some(label);
            lemma_same_vertices(
                w,
                alias,
                |v: u64|
                    match some {
                        Some(l) => (w.labelled)(v, l),
                        None => true,
                    },
                |v: u64| (w.labelled)(v, label),
            );
        },
        Op::Join(l, r, kind) => {
            physical_form_keeps_rows(w, *l, cm, catalog, compare);
            let left = physical_form(*l, cm, catalog, compare);
            if takes_input(r.op) {
                lemma_absorbed_rows(w, r.op, left, cm, catalog);
            } else {
                physical_form_keeps_rows(w, *r, cm, catalog, compare);
                let right = physical_form(*r, cm, catalog, compare);
                let a = rows_of_step(w, left);
                let b = rows_of_step(w, right);
                lemma_joined_by_shared_keys(a, b, kind, JoinKind::NestedLoop, a.len());
                lemma_joined_by_shared_keys(
                    a,
                    b,
                    kind,
                    JoinKind::HashJoin(Seq::empty(), Seq::empty()),
                    a.len(),
                );
            }
        },
        _ => {},
    }
}

} // verus!
