//! What the plan of a pattern finds: its rows are the ways to lay the pattern on the graph.
use vstd::prelude::*;

use crate::planner::expression::{BinaryOp, Expr};
use crate::planner::generate::{chain_of, element_plan, elements_joined, expand_op, filtered, hint_for, hinted_scan, leaf_of, match_plan, name_or_blank, node_rows, node_scan, property_equality, property_is, property_literal, specific_equality, stepped, suggested_scan, with_labels, with_properties, with_steps, Equality};
use crate::planner::ids::{LabelId, PropertyId};
use crate::planner::logical::{JoinKind, Op, Plan};
use crate::planner::meaning::{agree, along_edge, along_edges, datum_of, equal, expanded, extends_row, holds, joined, leads, row_along, row_joined, row_with, rows_of, takes_input, typed, value_of, vertex_rows, Datum, EdgeRecord, Expansion, Row, World};
use crate::planner::query::{opt_text, EdgePattern, IndexHint, MatchPattern, NodePattern, PatternElement, PropertyEntry};
use crate::planner::stats::PlanStats;
use crate::quantity::Quantity;

verus! {

/// The expansions of a plan, from left to right.
pub open spec fn expansions(p: Plan) -> Seq<Op>
    decreases p,
{
    match p.op {
        Op::Join(l, r, _) | Op::Union(l, r, _) => expansions(*l) + expansions(*r),
        Op::EdgeExpand { .. } => seq![p.op],
        _ => Seq::empty(),
    }
}

/// The vertex of a path at a position; the path starts at position zero.
pub open spec fn node_at(element: PatternElement, i: int) -> NodePattern {
    if i == 0 {
        element.node
    } else {
        element.edges@[i - 1].node
    }
}

/// The name of the vertex of a path at a position.
pub open spec fn node_name(element: PatternElement, i: int) -> Option<Seq<char>> {
    opt_text(node_at(element, i).alias)
}

/// The name of an edge of a path.
pub open spec fn edge_name(element: PatternElement, i: int) -> Option<Seq<char>> {
    opt_text(element.edges@[i].edge.alias)
}

proof fn lemma_no_expansion_in_properties(p: Plan, alias: Seq<char>, entries: Seq<PropertyEntry>, n: nat)
    ensures
        expansions(with_properties(p, alias, entries, n)) == expansions(p),
    decreases n,
{
    if n > 0 {
        lemma_no_expansion_in_properties(p, alias, entries, (n - 1) as nat);
        let before = with_properties(p, alias, entries, (n - 1) as nat);
        let after = with_properties(p, alias, entries, n);
        assert(expansions(after) =~= expansions(before)) by {
            reveal_with_fuel(expansions, 3);
        }
    }
}

proof fn lemma_no_expansion_in_labels(p: Plan, alias: Seq<char>, labels: Seq<LabelId>, n: nat)
    ensures
        expansions(with_labels(p, alias, labels, n)) == expansions(p),
    decreases n,
{
    if n > 0 {
        lemma_no_expansion_in_labels(p, alias, labels, (n - 1) as nat);
        let before = with_labels(p, alias, labels, (n - 1) as nat);
        let after = with_labels(p, alias, labels, n);
        assert(expansions(after) =~= expansions(before)) by {
            reveal_with_fuel(expansions, 3);
        }
    }
}

/// Whether an operator follows an edge of a path, from the vertex before it to the vertex behind it.
pub open spec fn follows(op: Op, element: PatternElement, i: int) -> bool {
    match op {
        Op::EdgeExpand { from_alias, edge_alias, to_alias, direction, edge_type } => {
            &&& from_alias == name_or_blank(node_name(element, i))
            &&& to_alias == node_name(element, i + 1)
            &&& edge_alias == edge_name(element, i)
            &&& direction == element.edges@[i].edge.direction
            &&& match edge_type {
                Some(t) => element.edges@[i].edge.edge_types@.len() > 0 && element.edges@[i].edge.edge_types@[0] == t,
                None => element.edges@[i].edge.edge_types@.len() == 0,
            }
        },
        _ => false,
    }
}

proof fn lemma_expansions_of_steps(p: Plan, element: PatternElement, rows: u64, n: nat)
    requires
        expansions(p).len() == 0,
        n <= element.edges@.len(),
    ensures
        expansions(with_steps(p, element, rows, n)).len() == n,
        forall|i: int| 0 <= i < n ==> #[trigger] follows(expansions(with_steps(p, element, rows, n))[i], element, i),
    decreases n,
{
    if n > 0 {
        lemma_expansions_of_steps(p, element, rows, (n - 1) as nat);
        let before = with_steps(p, element, rows, (n - 1) as nat);
        let after = with_steps(p, element, rows, n);
        let step = element.edges@[n - 1];
        let from = name_or_blank(node_name(element, n - 1));
        reveal_with_fuel(expansions, 3);
        assert(after == stepped(before, from, step, rows));
        let followed = chain_of(
            before,
            leaf_of(
                expand_op(from, step),
                Quantity::product(Quantity::Count(rows), Quantity::Count(5)),
            ),
        );
        let op = expand_op(from, step);
        assert(expansions(followed) == expansions(before) + seq![op]);
        let edge_tested = match step.edge.alias {
            Some(alias) => with_properties(followed, alias@, step.edge.properties@, step.edge.properties@.len()),
            None => followed,
        };
        if let Some(alias) = step.edge.alias {
            lemma_no_expansion_in_properties(followed, alias@, step.edge.properties@, step.edge.properties@.len());
        }
        if let Some(alias) = step.node.alias {
            lemma_no_expansion_in_labels(edge_tested, alias@, step.node.labels@, step.node.labels@.len());
            lemma_no_expansion_in_properties(
                with_labels(edge_tested, alias@, step.node.labels@, step.node.labels@.len()),
                alias@,
                step.node.properties@,
                step.node.properties@.len(),
            );
        }
        assert(expansions(after) == expansions(before) + seq![op]);
        assert(follows(op, element, n - 1));
        assert forall|i: int| 0 <= i < n implies #[trigger] follows(expansions(after)[i], element, i) by {
            if i < n - 1 {
                assert(expansions(after)[i] == expansions(before)[i]);
                assert(follows(expansions(before)[i], element, i));
            }
        }
    }
}

/// The plan of a path follows each of its edges once, in their order: the expansion at a position leads
/// from the vertex of the path at that position to the next.
pub proof fn paths_are_followed_edge_by_edge(
    element: PatternElement,
    condition: Option<Expr>,
    stats: PlanStats,
    hints: Seq<IndexHint>,
)
    ensures
        expansions(element_plan(element, condition, stats, hints)).len() == element.edges@.len(),
        forall|i: int|
            0 <= i < element.edges@.len() ==> #[trigger] follows(
                expansions(element_plan(element, condition, stats, hints))[i],
                element,
                i,
            ),
{
    let scan = node_scan(element.node, condition, stats, hints);
    assert(expansions(scan).len() == 0);
    if let Some(alias) = element.node.alias {
        lemma_no_expansion_in_properties(scan, alias@, element.node.properties@, element.node.properties@.len());
    }
    let tested = match element.node.alias {
        Some(alias) => with_properties(scan, alias@, element.node.properties@, element.node.properties@.len()),
        None => scan,
    };
    let rows = node_rows(element.node, stats);
    lemma_expansions_of_steps(tested, element, rows, element.edges@.len());
}

/// Whether a vertex is what a vertex of a pattern asks for: it has each label, and each property has the
/// value that is given.
pub open spec fn node_found(w: World, node: NodePattern, v: u64) -> bool {
    &&& forall|i: int| 0 <= i < node.labels@.len() ==> (w.labelled)(v, #[trigger] node.labels@[i])
    &&& forall|i: int|
        0 <= i < node.properties@.len() ==> entry_met(w, (w.vertex_property)(v, node.properties@[i].key), #[trigger] node.properties@[i])
}

/// Whether a property has the value that is asked for. The value asked for is one that no row changes.
pub open spec fn entry_met(w: World, found: Datum, entry: PropertyEntry) -> bool {
    match value_of(w, entry.value@, Map::empty()) {
        Some(d) => equal(w, found, d),
        None => false,
    }
}

/// Whether an edge is what an edge of a pattern asks for, between two vertices.
pub open spec fn edge_found(w: World, edge: EdgePattern, e: EdgeRecord, from: u64, to: u64) -> bool {
    &&& w.edges.contains(e)
    &&& leads(e, edge.direction, from, to)
    &&& edge.edge_types@.len() > 0 ==> edge.edge_types@.contains(e.edge_type)
    &&& forall|i: int|
        0 <= i < edge.properties@.len() ==> entry_met(w, (w.edge_property)(e.id, edge.properties@[i].key), #[trigger] edge.properties@[i])
}

/// Whether a name is given to one of the vertices up to a position, or to one of the edges before it.
pub open spec fn is_name(element: PatternElement, n: nat, name: Seq<char>) -> bool {
    ||| exists|i: int| 0 <= i <= n && #[trigger] node_name(element, i) == Some(name)
    ||| exists|i: int| 0 <= i < n && #[trigger] edge_name(element, i) == Some(name)
}

/// Whether a row binds the names of a path, and no others, to vertices and edges.
pub open spec fn names_bound(row: Row, element: PatternElement, vs: Seq<u64>, es: Seq<EdgeRecord>, n: nat) -> bool {
    &&& forall|i: int|
        0 <= i <= n && (#[trigger] node_name(element, i)) is Some ==> row.contains_key(node_name(element, i)->0)
            && row[node_name(element, i)->0] == Datum::Vertex(vs[i])
    &&& forall|i: int|
        0 <= i < n && (#[trigger] edge_name(element, i)) is Some ==> row.contains_key(edge_name(element, i)->0)
            && row[edge_name(element, i)->0] == Datum::Edge(es[i].id)
    &&& forall|name: Seq<char>| #[trigger] row.contains_key(name) ==> is_name(element, n, name)
}

/// Whether vertices and edges of the graph lie as the first `n` steps of a path do, and a row names them.
pub open spec fn path_laid(w: World, element: PatternElement, vs: Seq<u64>, es: Seq<EdgeRecord>, row: Row, n: nat) -> bool {
    &&& vs.len() == n + 1
    &&& es.len() == n
    &&& w.vertices.contains(vs[0])
    &&& forall|i: int| 0 <= i <= n ==> node_found(w, #[trigger] node_at(element, i), vs[i])
    &&& forall|i: int| 0 <= i < n ==> edge_found(w, (#[trigger] element.edges@[i]).edge, es[i], vs[i], vs[i + 1])
    &&& names_bound(row, element, vs, es, n)
}

/// Whether a row is a match of a path.
pub open spec fn matches_path(w: World, element: PatternElement, row: Row) -> bool {
    exists|vs: Seq<u64>, es: Seq<EdgeRecord>| path_laid(w, element, vs, es, row, element.edges@.len())
}

/// Whether a row is a match of the first `n` paths of a pattern: matches of each, that agree on the names
/// that they share.
pub open spec fn matches_paths(w: World, elements: Seq<PatternElement>, row: Row, n: nat) -> bool
    decreases n,
{
    if n <= 1 {
        matches_path(w, elements[0], row)
    } else {
        exists|a: Row, b: Row|
            matches_paths(w, elements, a, (n - 1) as nat) && #[trigger] matches_path(w, elements[n - 1], b) && #[trigger] agree(a, b)
                && row == a.union_prefer_right(b)
    }
}

/// Whether the values of some entries are the same on every row.
pub open spec fn fixed_entries(w: World, entries: Seq<PropertyEntry>) -> bool {
    forall|i: int, row: Row|
        0 <= i < entries.len() ==> #[trigger] value_of(w, entries[i].value@, row) == value_of(w, entries[i].value@, Map::empty())
}

/// Whether each part of a path that is asked for something can be spoken of. The vertex that an edge
/// starts from has a name, and so has what is asked for labels or properties, but that a first vertex may
/// have one label without a name. A first vertex has one label at most, an edge one type.
pub open spec fn well_named(w: World, element: PatternElement) -> bool {
    &&& element.node.labels@.len() <= 1
    &&& forall|i: int| 0 <= i < element.edges@.len() ==> (#[trigger] node_at(element, i)).alias is Some
    &&& forall|i: int|
        0 <= i <= element.edges@.len() && (#[trigger] node_at(element, i)).alias is None ==> node_at(element, i).properties@.len() == 0
            && (i > 0 ==> node_at(element, i).labels@.len() == 0)
    &&& forall|i: int| 0 <= i <= element.edges@.len() ==> fixed_entries(w, (#[trigger] node_at(element, i)).properties@)
    &&& forall|i: int|
        0 <= i < element.edges@.len() ==> {
            &&& (#[trigger] element.edges@[i]).edge.edge_types@.len() <= 1
            &&& element.edges@[i].edge.alias is None ==> element.edges@[i].edge.properties@.len() == 0
            &&& fixed_entries(w, element.edges@[i].edge.properties@)
        }
}

pub proof fn lemma_filter_contains<A>(s: Seq<A>, keep: spec_fn(A) -> bool, x: A)
    ensures
        s.filter(keep).contains(x) <==> s.contains(x) && keep(x),
    decreases s.len(),
{
    reveal(Seq::filter);
    if s.len() > 0 {
        let before = s.drop_last();
        lemma_filter_contains(before, keep, x);
        assert(s == before.push(s.last()));
        let kept = before.filter(keep);
        if s.contains(x) {
            let i = choose|i: int| 0 <= i < s.len() && s[i] == x;
            if i < s.len() - 1 {
                assert(before[i] == x);
            }
        }
        if before.contains(x) {
            let i = choose|i: int| 0 <= i < before.len() && before[i] == x;
            assert(s[i] == x);
        }
        assert(s[s.len() - 1] == s.last());
        if keep(s.last()) {
            let after = kept.push(s.last());
            assert(s.filter(keep) == after);
            if kept.contains(x) {
                let i = choose|i: int| 0 <= i < kept.len() && kept[i] == x;
                assert(after[i] == x);
            }
            assert(after[kept.len() as int] == s.last());
            if after.contains(x) {
                let i = choose|i: int| 0 <= i < after.len() && after[i] == x;
                if i < kept.len() {
                    assert(kept[i] == x);
                }
            }
        }
    }
}

pub proof fn lemma_sum_contains<A>(a: Seq<A>, b: Seq<A>, x: A)
    ensures
        (a + b).contains(x) <==> a.contains(x) || b.contains(x),
{
    let s = a + b;
    if a.contains(x) {
        let i = choose|i: int| 0 <= i < a.len() && a[i] == x;
        assert(s[i] == x);
    }
    if b.contains(x) {
        let i = choose|i: int| 0 <= i < b.len() && b[i] == x;
        assert(s[a.len() + i] == x);
    }
    if s.contains(x) {
        let i = choose|i: int| 0 <= i < s.len() && s[i] == x;
        if i < a.len() {
            assert(a[i] == x);
        } else {
            assert(b[i - a.len()] == x);
        }
    }
}

proof fn lemma_vertex_rows_contain(w: World, alias: Option<Seq<char>>, keep: spec_fn(u64) -> bool, row: Row)
    ensures
        vertex_rows(w, alias, keep).contains(row) <==> exists|v: u64|
            w.vertices.contains(v) && #[trigger] keep(v) && row == row_with(alias, Datum::Vertex(v)),
{
    let kept = w.vertices.filter(keep);
    let rows = vertex_rows(w, alias, keep);
    if rows.contains(row) {
        let i = choose|i: int| 0 <= i < rows.len() && rows[i] == row;
        lemma_filter_contains(w.vertices, keep, kept[i]);
        assert(kept.contains(kept[i]));
        assert(keep(kept[i]));
    }
    if exists|v: u64| w.vertices.contains(v) && #[trigger] keep(v) && row == row_with(alias, Datum::Vertex(v)) {
        let v = choose|v: u64| w.vertices.contains(v) && #[trigger] keep(v) && row == row_with(alias, Datum::Vertex(v));
        lemma_filter_contains(w.vertices, keep, v);
        let i = choose|i: int| 0 <= i < kept.len() && kept[i] == v;
        assert(rows[i] == row);
    }
}

/// Whether a row comes from another along an edge of the graph to a vertex.
pub open spec fn comes_along(w: World, x: Expansion, before: Row, e: EdgeRecord, to: u64, row: Row) -> bool {
    &&& w.edges.contains(e)
    &&& extends_row(x, before, e, to)
    &&& row == row_along(before, x.edge_alias, x.to_alias, e.id, to)
}

proof fn lemma_along_edges_contain(w: World, x: Expansion, before: Row, row: Row, n: nat)
    requires
        n <= w.edges.len(),
    ensures
        along_edges(w, x, before, n).contains(row) <==> exists|j: int, to: u64|
            0 <= j < n && #[trigger] comes_along(w, x, before, w.edges[j], to, row),
    decreases n,
{
    if n > 0 {
        lemma_along_edges_contain(w, x, before, row, (n - 1) as nat);
        let first = along_edges(w, x, before, (n - 1) as nat);
        let e = w.edges[n - 1];
        let more = along_edge(x, before, e);
        lemma_sum_contains(first, more, row);
        assert(w.edges.contains(e));
        let there = if extends_row(x, before, e, e.to) {
            seq![row_along(before, x.edge_alias, x.to_alias, e.id, e.to)]
        } else {
            Seq::empty()
        };
        let back = if e.from != e.to && extends_row(x, before, e, e.from) {
            seq![row_along(before, x.edge_alias, x.to_alias, e.id, e.from)]
        } else {
            Seq::empty()
        };
        lemma_sum_contains(there, back, row);
        if more.contains(row) {
            if there.contains(row) {
                assert(row == there[0]);
                assert(comes_along(w, x, before, w.edges[n - 1], e.to, row));
            } else {
                assert(row == back[0]);
                assert(comes_along(w, x, before, w.edges[n - 1], e.from, row));
            }
        }
        if exists|j: int, to: u64| 0 <= j < n && #[trigger] comes_along(w, x, before, w.edges[j], to, row) {
            let (j, to) = choose|j: int, to: u64| 0 <= j < n && #[trigger] comes_along(w, x, before, w.edges[j], to, row);
            if j < n - 1 {
                assert(comes_along(w, x, before, w.edges[j], to, row));
            } else if to == e.to {
                assert(there[0] == row);
            } else {
                assert(to == e.from);
                assert(back[0] == row);
            }
        }
    } else {
        assert(along_edges(w, x, before, n).len() == 0);
    }
}

pub proof fn lemma_expanded_contains(w: World, x: Expansion, rows: Seq<Row>, row: Row, n: nat)
    requires
        n <= rows.len(),
    ensures
        expanded(w, x, rows, n).contains(row) <==> exists|i: int, e: EdgeRecord, to: u64|
            0 <= i < n && #[trigger] comes_along(w, x, rows[i], e, to, row),
    decreases n,
{
    if n > 0 {
        lemma_expanded_contains(w, x, rows, row, (n - 1) as nat);
        let first = expanded(w, x, rows, (n - 1) as nat);
        let more = along_edges(w, x, rows[n - 1], w.edges.len());
        lemma_sum_contains(first, more, row);
        lemma_along_edges_contain(w, x, rows[n - 1], row, w.edges.len());
        if more.contains(row) {
            let (j, to) = choose|j: int, to: u64|
                0 <= j < w.edges.len() && #[trigger] comes_along(w, x, rows[n - 1], w.edges[j], to, row);
            assert(comes_along(w, x, rows[n - 1], w.edges[j], to, row));
        }
        if exists|i: int, e: EdgeRecord, to: u64| 0 <= i < n && #[trigger] comes_along(w, x, rows[i], e, to, row) {
            let (i, e, to) = choose|i: int, e: EdgeRecord, to: u64|
                0 <= i < n && #[trigger] comes_along(w, x, rows[i], e, to, row);
            if i < n - 1 {
                assert(comes_along(w, x, rows[i], e, to, row));
            } else {
                let j = choose|j: int| 0 <= j < w.edges.len() && w.edges[j] == e;
                assert(comes_along(w, x, rows[n - 1], w.edges[j], to, row));
            }
        }
    } else {
        assert(expanded(w, x, rows, n).len() == 0);
    }
}

proof fn lemma_filtered_contains(w: World, p: Plan, condition: Expr, share: Quantity, row: Row)
    ensures
        rows_of(w, filtered(p, condition, share)).contains(row) <==> rows_of(w, p).contains(row) && holds(w, condition, row),
{
    let keep = |row: Row| holds(w, condition, row);
    lemma_filter_contains(rows_of(w, p), keep, row);
    assert(rows_of(w, filtered(p, condition, share)) == rows_of(w, p).filter(keep));
}

proof fn lemma_properties_contain(w: World, p: Plan, alias: Seq<char>, entries: Seq<PropertyEntry>, row: Row, n: nat)
    ensures
        rows_of(w, with_properties(p, alias, entries, n)).contains(row) <==> rows_of(w, p).contains(row) && forall|i: int|
            0 <= i < n ==> holds(w, property_is(alias, #[trigger] entries[i]), row),
    decreases n,
{
    if n > 0 {
        lemma_properties_contain(w, p, alias, entries, row, (n - 1) as nat);
        lemma_filtered_contains(
            w,
            with_properties(p, alias, entries, (n - 1) as nat),
            property_is(alias, entries[n - 1]),
            Quantity::decimal(3, 1),
            row,
        );
    }
}

proof fn lemma_labels_contain(w: World, p: Plan, alias: Seq<char>, labels: Seq<LabelId>, row: Row, n: nat)
    ensures
        rows_of(w, with_labels(p, alias, labels, n)).contains(row) <==> rows_of(w, p).contains(row) && forall|i: int|
            0 <= i < n ==> holds(w, Expr::Label(Box::new(Expr::Identifier(alias)), #[trigger] labels[i]), row),
    decreases n,
{
    if n > 0 {
        lemma_labels_contain(w, p, alias, labels, row, (n - 1) as nat);
        lemma_filtered_contains(
            w,
            with_labels(p, alias, labels, (n - 1) as nat),
            Expr::Label(Box::new(Expr::Identifier(alias)), labels[n - 1]),
            Quantity::decimal(5, 1),
            row,
        );
    }
}

/// On a row that binds a name, the tests of the properties of what is named are those of the pattern.
proof fn lemma_property_tests(w: World, alias: Seq<char>, entries: Seq<PropertyEntry>, row: Row)
    requires
        row.contains_key(alias),
        row[alias] is Vertex || row[alias] is Edge,
        fixed_entries(w, entries),
    ensures
        forall|i: int|
            0 <= i < entries.len() ==> (holds(w, property_is(alias, #[trigger] entries[i]), row) <==> entry_met(
                w,
                match row[alias] {
                    Datum::Vertex(v) => (w.vertex_property)(v, entries[i].key),
                    _ => (w.edge_property)(row[alias]->Edge_0, entries[i].key),
                },
                entries[i],
            )),
{
    assert forall|i: int| 0 <= i < entries.len() implies (holds(w, property_is(alias, #[trigger] entries[i]), row) <==> entry_met(
        w,
        match row[alias] {
            Datum::Vertex(v) => (w.vertex_property)(v, entries[i].key),
            _ => (w.edge_property)(row[alias]->Edge_0, entries[i].key),
        },
        entries[i],
    )) by {
        reveal_with_fuel(value_of, 3);
        assert(value_of(w, entries[i].value@, row) == value_of(w, entries[i].value@, Map::empty()));
    }
}

proof fn lemma_label_tests(w: World, alias: Seq<char>, labels: Seq<LabelId>, row: Row)
    requires
        row.contains_key(alias),
        row[alias] is Vertex,
    ensures
        forall|i: int|
            0 <= i < labels.len() ==> (holds(w, Expr::Label(Box::new(Expr::Identifier(alias)), #[trigger] labels[i]), row) <==> (
            w.labelled)(row[alias]->Vertex_0, labels[i])),
{
    reveal_with_fuel(value_of, 3);
}

/// The expansion that a step of a path asks for.
pub open spec fn step_expansion(element: PatternElement, i: int) -> Expansion {
    Expansion {
        from: name_or_blank(node_name(element, i)),
        edge_alias: edge_name(element, i),
        to_alias: node_name(element, i + 1),
        direction: element.edges@[i].edge.direction,
        edge_type: if element.edges@[i].edge.edge_types@.len() > 0 {
            Some(element.edges@[i].edge.edge_types@[0])
        } else {
            None
        },
    }
}

/// A row that comes along an edge binds what it bound before, the edge and the vertex.
proof fn lemma_row_along(w: World, x: Expansion, before: Row, e: EdgeRecord, to: u64, row: Row)
    requires
        comes_along(w, x, before, e, to, row),
    ensures
        forall|name: Seq<char>| #[trigger] before.contains_key(name) ==> row.contains_key(name) && row[name] == before[name],
        x.edge_alias matches Some(name) ==> row.contains_key(name) && row[name] == Datum::Edge(e.id),
        x.to_alias matches Some(name) ==> row.contains_key(name) && row[name] == Datum::Vertex(to),
        forall|name: Seq<char>| #[trigger]
            row.contains_key(name) ==> before.contains_key(name) || x.edge_alias == Some(name) || x.to_alias == Some(name),
{
    let a = row_with(x.edge_alias, Datum::Edge(e.id));
    let b = row_with(x.to_alias, Datum::Vertex(to));
    let first = before.union_prefer_right(a);
    assert(agree(before, a) && agree(first, b));
    assert forall|name: Seq<char>| #[trigger] before.contains_key(name) implies row.contains_key(name) && row[name] == before[name] by {
        assert(first.contains_key(name));
        assert(first[name] == before[name]);
    }
    if let Some(name) = x.edge_alias {
        assert(a.contains_key(name));
        assert(first.contains_key(name));
    }
}

/// A step is found where the row comes along an edge and what the edge and the vertex are asked for holds.
proof fn lemma_step_contains(w: World, element: PatternElement, p: Plan, rows: u64, row: Row, k: int)
    requires
        well_named(w, element),
        0 <= k < element.edges@.len(),
    ensures
        rows_of(w, stepped(p, name_or_blank(node_name(element, k)), element.edges@[k], rows)).contains(row) <==> exists|
            before: Row,
            e: EdgeRecord,
            to: u64,
        |
            #[trigger] comes_along(w, step_expansion(element, k), before, e, to, row) && rows_of(w, p).contains(before) && node_found(
                w,
                node_at(element, k + 1),
                to,
            ) && edge_found(w, element.edges@[k].edge, e, before[name_or_blank(node_name(element, k))]->Vertex_0, to),
{
    let step = element.edges@[k];
    let from = name_or_blank(node_name(element, k));
    let x = step_expansion(element, k);
    let node = node_at(element, k + 1);
    assert(node == step.node);
    assert(node_at(element, k + 1).alias is None ==> node.properties@.len() == 0 && node.labels@.len() == 0);
    let followed = chain_of(p, leaf_of(expand_op(from, step), Quantity::product(Quantity::Count(rows), Quantity::Count(5))));
    let found = rows_of(w, p);
    assert(rows_of(w, followed) == expanded(w, x, found, found.len()));
    lemma_expanded_contains(w, x, found, row, found.len());
    let edge_tested = match step.edge.alias {
        Some(alias) => with_properties(followed, alias@, step.edge.properties@, step.edge.properties@.len()),
        None => followed,
    };
    if let Some(alias) = step.edge.alias {
        lemma_properties_contain(w, followed, alias@, step.edge.properties@, row, step.edge.properties@.len());
    }
    if let Some(alias) = step.node.alias {
        lemma_labels_contain(w, edge_tested, alias@, step.node.labels@, row, step.node.labels@.len());
        lemma_properties_contain(
            w,
            with_labels(edge_tested, alias@, step.node.labels@, step.node.labels@.len()),
            alias@,
            step.node.properties@,
            row,
            step.node.properties@.len(),
        );
    }
    let all = rows_of(w, stepped(p, from, step, rows));
    assert(fixed_entries(w, node.properties@));
    if rows_of(w, followed).contains(row) {
        let (i, e, to) = choose|i: int, e: EdgeRecord, to: u64|
            0 <= i < found.len() && #[trigger] comes_along(w, x, found[i], e, to, row);
        let before = found[i];
        assert(found.contains(before));
        lemma_row_along(w, x, before, e, to, row);
        if let Some(alias) = step.edge.alias {
            lemma_property_tests(w, alias@, step.edge.properties@, row);
        }
        if let Some(alias) = step.node.alias {
            lemma_property_tests(w, alias@, step.node.properties@, row);
            lemma_label_tests(w, alias@, step.node.labels@, row);
        }
        if all.contains(row) {
            assert(typed(e, x.edge_type));
            assert(edge_found(w, step.edge, e, before[from]->Vertex_0, to)) by {
                if step.edge.edge_types@.len() > 0 {
                    assert(step.edge.edge_types@[0] == e.edge_type);
                }
            }
            assert(node_found(w, node, to));
            assert(comes_along(w, x, before, e, to, row));
        }
    }
    if exists|before: Row, e: EdgeRecord, to: u64|
        #[trigger] comes_along(w, x, before, e, to, row) && found.contains(before) && node_found(w, node, to) && edge_found(
            w,
            step.edge,
            e,
            before[from]->Vertex_0,
            to,
        ) {
        let (before, e, to) = choose|before: Row, e: EdgeRecord, to: u64|
            #[trigger] comes_along(w, x, before, e, to, row) && found.contains(before) && node_found(w, node, to) && edge_found(
                w,
                step.edge,
                e,
                before[from]->Vertex_0,
                to,
            );
        let i = choose|i: int| 0 <= i < found.len() && found[i] == before;
        assert(comes_along(w, x, found[i], e, to, row));
        assert(rows_of(w, followed).contains(row));
        lemma_row_along(w, x, before, e, to, row);
        if let Some(alias) = step.edge.alias {
            lemma_property_tests(w, alias@, step.edge.properties@, row);
        }
        assert(rows_of(w, edge_tested).contains(row));
        if let Some(alias) = step.node.alias {
            lemma_property_tests(w, alias@, step.node.properties@, row);
            lemma_label_tests(w, alias@, step.node.labels@, row);
        }
        assert(all.contains(row));
    }
}

/// The row that binds the names of fewer steps as a row does.
pub open spec fn shortened(row: Row, element: PatternElement, n: nat) -> Row {
    Map::new(|name: Seq<char>| row.contains_key(name) && is_name(element, n, name), |name: Seq<char>| row[name])
}

proof fn lemma_path_grows(
    w: World,
    element: PatternElement,
    vs: Seq<u64>,
    es: Seq<EdgeRecord>,
    before: Row,
    e: EdgeRecord,
    to: u64,
    row: Row,
    n: nat,
)
    requires
        0 < n <= element.edges@.len(),
        well_named(w, element),
        path_laid(w, element, vs, es, before, (n - 1) as nat),
        comes_along(w, step_expansion(element, n - 1), before, e, to, row),
        node_found(w, node_at(element, n as int), to),
        edge_found(w, element.edges@[n - 1].edge, e, before[name_or_blank(node_name(element, n - 1))]->Vertex_0, to),
    ensures
        path_laid(w, element, vs.push(to), es.push(e), row, n),
{
    let x = step_expansion(element, n - 1);
    let vs2 = vs.push(to);
    let es2 = es.push(e);
    lemma_row_along(w, x, before, e, to, row);
    assert(node_at(element, n - 1).alias is Some);
    assert(node_name(element, n - 1) is Some);
    assert(before[node_name(element, n - 1)->0] == Datum::Vertex(vs[n - 1]));
    assert forall|i: int| 0 <= i <= n implies node_found(w, #[trigger] node_at(element, i), vs2[i]) by {
        if i < n {
            assert(vs2[i] == vs[i]);
        }
    }
    assert forall|i: int| 0 <= i < n implies edge_found(w, (#[trigger] element.edges@[i]).edge, es2[i], vs2[i], vs2[i + 1]) by {
        if i < n - 1 {
            assert(es2[i] == es[i] && vs2[i] == vs[i] && vs2[i + 1] == vs[i + 1]);
        }
    }
    assert forall|i: int| 0 <= i <= n && (#[trigger] node_name(element, i)) is Some implies row.contains_key(node_name(element, i)->0)
        && row[node_name(element, i)->0] == Datum::Vertex(vs2[i]) by {
        if i < n {
            assert(before.contains_key(node_name(element, i)->0));
        }
    }
    assert forall|i: int| 0 <= i < n && (#[trigger] edge_name(element, i)) is Some implies row.contains_key(edge_name(element, i)->0)
        && row[edge_name(element, i)->0] == Datum::Edge(es2[i].id) by {
        if i < n - 1 {
            assert(before.contains_key(edge_name(element, i)->0));
        }
    }
    assert forall|name: Seq<char>| #[trigger] row.contains_key(name) implies is_name(element, n, name) by {
        if before.contains_key(name) {
            assert(is_name(element, (n - 1) as nat, name));
            if exists|i: int| 0 <= i <= n - 1 && #[trigger] node_name(element, i) == Some(name) {
                let i = choose|i: int| 0 <= i <= n - 1 && #[trigger] node_name(element, i) == Some(name);
                assert(0 <= i <= n && node_name(element, i) == Some(name));
            } else {
                let i = choose|i: int| 0 <= i < n - 1 && #[trigger] edge_name(element, i) == Some(name);
                assert(0 <= i < n && edge_name(element, i) == Some(name));
            }
        } else if x.edge_alias == Some(name) {
            assert(edge_name(element, n - 1) == Some(name));
        } else {
            assert(node_name(element, n as int) == Some(name));
        }
    }
}

proof fn lemma_path_shrinks(w: World, element: PatternElement, vs: Seq<u64>, es: Seq<EdgeRecord>, row: Row, n: nat)
    requires
        0 < n <= element.edges@.len(),
        well_named(w, element),
        path_laid(w, element, vs, es, row, n),
    ensures
        path_laid(w, element, vs.drop_last(), es.drop_last(), shortened(row, element, (n - 1) as nat), (n - 1) as nat),
        comes_along(
            w,
            step_expansion(element, n - 1),
            shortened(row, element, (n - 1) as nat),
            es.last(),
            vs.last(),
            row,
        ),
        node_found(w, node_at(element, n as int), vs.last()),
        edge_found(
            w,
            element.edges@[n - 1].edge,
            es.last(),
            shortened(row, element, (n - 1) as nat)[name_or_blank(node_name(element, n - 1))]->Vertex_0,
            vs.last(),
        ),
{
    let m: nat = (n - 1) as nat;
    let x = step_expansion(element, n - 1);
    let vs2 = vs.drop_last();
    let es2 = es.drop_last();
    let before = shortened(row, element, m);
    let e = es.last();
    let to = vs.last();
    assert(node_at(element, n - 1).alias is Some);
    assert(node_name(element, n - 1) is Some);
    let from = node_name(element, n - 1)->0;
    assert(is_name(element, m, from));
    assert(row[from] == Datum::Vertex(vs[n - 1]));
    assert(before[from] == Datum::Vertex(vs[n - 1]));
    assert(node_found(w, node_at(element, n as int), vs[n as int]));
    assert(edge_found(w, element.edges@[n - 1].edge, es[n - 1], vs[n - 1], vs[n as int]));
    assert forall|i: int| 0 <= i <= m && (#[trigger] node_name(element, i)) is Some implies before.contains_key(node_name(element, i)->0)
        && before[node_name(element, i)->0] == Datum::Vertex(vs2[i]) by {
        assert(row.contains_key(node_name(element, i)->0));
        assert(is_name(element, m, node_name(element, i)->0));
    }
    assert forall|i: int| 0 <= i < m && (#[trigger] edge_name(element, i)) is Some implies before.contains_key(edge_name(element, i)->0)
        && before[edge_name(element, i)->0] == Datum::Edge(es2[i].id) by {
        assert(row.contains_key(edge_name(element, i)->0));
        assert(is_name(element, m, edge_name(element, i)->0));
    }
    assert forall|i: int| 0 <= i < m implies edge_found(w, (#[trigger] element.edges@[i]).edge, es2[i], vs2[i], vs2[i + 1]) by {
        assert(edge_found(w, element.edges@[i].edge, es[i], vs[i], vs[i + 1]));
    }
    assert forall|i: int| 0 <= i <= m implies node_found(w, #[trigger] node_at(element, i), vs2[i]) by {
        assert(node_found(w, node_at(element, i), vs[i]));
    }
    let a = row_with(x.edge_alias, Datum::Edge(e.id));
    let b = row_with(x.to_alias, Datum::Vertex(to));
    let first = before.union_prefer_right(a);
    assert(x.edge_alias == edge_name(element, n - 1));
    assert(x.to_alias == node_name(element, n as int));
    assert(agree(before, a));
    assert(agree(first, b));
    assert(typed(e, x.edge_type)) by {
        let types = element.edges@[n - 1].edge.edge_types@;
        if types.len() > 0 {
            let i = choose|i: int| 0 <= i < types.len() && types[i] == e.edge_type;
            assert(i == 0);
        }
    }
    assert(row =~= first.union_prefer_right(b)) by {
        assert forall|name: Seq<char>| row.contains_key(name) implies #[trigger] first.union_prefer_right(b).contains_key(name) by {
            assert(is_name(element, n, name));
            if exists|i: int| 0 <= i <= n && #[trigger] node_name(element, i) == Some(name) {
                let i = choose|i: int| 0 <= i <= n && #[trigger] node_name(element, i) == Some(name);
                if i < n {
                    assert(0 <= i <= m && node_name(element, i) == Some(name));
                    assert(is_name(element, m, name));
                }
            } else {
                let i = choose|i: int| 0 <= i < n && #[trigger] edge_name(element, i) == Some(name);
                if i < m {
                    assert(is_name(element, m, name));
                }
            }
        }
    }
}

/// Whether the steps of a path, taken from what a plan finds for its first vertex, find what lies as the
/// path does.
proof fn lemma_steps_contain(w: World, element: PatternElement, p: Plan, keep: spec_fn(u64) -> bool, rows: u64, row: Row, n: nat)
    requires
        well_named(w, element),
        n <= element.edges@.len(),
        forall|r: Row| #[trigger]
            rows_of(w, p).contains(r) <==> exists|v: u64| #[trigger] keep(v) && path_laid(w, element, seq![v], Seq::empty(), r, 0),
    ensures
        rows_of(w, with_steps(p, element, rows, n)).contains(row) <==> exists|vs: Seq<u64>, es: Seq<EdgeRecord>|
            #[trigger] path_laid(w, element, vs, es, row, n) && keep(vs[0]),
    decreases n,
{
    let here = rows_of(w, with_steps(p, element, rows, n));
    if n == 0 {
        if here.contains(row) {
            let v = choose|v: u64| #[trigger] keep(v) && path_laid(w, element, seq![v], Seq::empty(), row, 0);
            assert(path_laid(w, element, seq![v], Seq::empty(), row, 0) && keep(seq![v][0]));
        }
        if exists|vs: Seq<u64>, es: Seq<EdgeRecord>| #[trigger] path_laid(w, element, vs, es, row, n) && keep(vs[0]) {
            let (vs, es) = choose|vs: Seq<u64>, es: Seq<EdgeRecord>| #[trigger] path_laid(w, element, vs, es, row, n) && keep(vs[0]);
            assert(vs =~= seq![vs[0]]);
            assert(es =~= Seq::<EdgeRecord>::empty());
            assert(keep(vs[0]));
        }
    } else {
        let m: nat = (n - 1) as nat;
        let p2 = with_steps(p, element, rows, m);
        let x = step_expansion(element, n - 1);
        let from = name_or_blank(node_name(element, n - 1));
        lemma_step_contains(w, element, p2, rows, row, n - 1);
        assert(here == rows_of(w, stepped(p2, from, element.edges@[n - 1], rows)));
        if here.contains(row) {
            let (before, e, to) = choose|before: Row, e: EdgeRecord, to: u64|
                #[trigger] comes_along(w, x, before, e, to, row) && rows_of(w, p2).contains(before) && node_found(
                    w,
                    node_at(element, n as int),
                    to,
                ) && edge_found(w, element.edges@[n - 1].edge, e, before[from]->Vertex_0, to);
            lemma_steps_contain(w, element, p, keep, rows, before, m);
            let (vs, es) = choose|vs: Seq<u64>, es: Seq<EdgeRecord>| #[trigger] path_laid(w, element, vs, es, before, m) && keep(vs[0]);
            lemma_path_grows(w, element, vs, es, before, e, to, row, n);
            assert(vs.push(to)[0] == vs[0]);
        }
        if exists|vs: Seq<u64>, es: Seq<EdgeRecord>| #[trigger] path_laid(w, element, vs, es, row, n) && keep(vs[0]) {
            let (vs, es) = choose|vs: Seq<u64>, es: Seq<EdgeRecord>| #[trigger] path_laid(w, element, vs, es, row, n) && keep(vs[0]);
            let before = shortened(row, element, m);
            lemma_path_shrinks(w, element, vs, es, row, n);
            lemma_steps_contain(w, element, p, keep, rows, before, m);
            assert(path_laid(w, element, vs.drop_last(), es.drop_last(), before, m) && keep(vs.drop_last()[0]));
            assert(rows_of(w, p2).contains(before));
            assert(comes_along(w, x, before, es.last(), vs.last(), row));
        }
    }
}

/// Whether equality of values goes both ways.
pub open spec fn symmetric(w: World) -> bool {
    forall|a: Datum, b: Datum| #[trigger] equal(w, a, b) == equal(w, b, a)
}

/// Whether a row binds what another binds, and to the same.
pub open spec fn within(a: Row, b: Row) -> bool {
    forall|name: Seq<char>| #[trigger] a.contains_key(name) ==> b.contains_key(name) && a[name] == b[name]
}

proof fn lemma_literal_holds(w: World, lhs: Expr, rhs: Expr, q: Equality, row: Row, v: u64)
    requires
        property_literal(lhs, rhs) == Some(q),
        row.contains_key(q.alias),
        row[q.alias] == Datum::Vertex(v),
    ensures
        value_of(w, lhs, row) == Some((w.vertex_property)(v, q.property)),
        value_of(w, rhs, row) == Some(datum_of(q.value)),
{
    reveal_with_fuel(value_of, 3);
}

/// Where a condition holds, a property has the value that the condition gives it.
proof fn lemma_specific_equality_holds(w: World, e: Expr, alias: Seq<char>, property: PropertyId, row: Row, v: u64)
    requires
        symmetric(w),
        specific_equality(e, alias, property) is Some,
        row.contains_key(alias),
        row[alias] == Datum::Vertex(v),
        holds(w, e, row),
    ensures
        equal(w, (w.vertex_property)(v, property), datum_of(specific_equality(e, alias, property)->0)),
    decreases e,
{
    match e {
        Expr::Binary(BinaryOp::Eq, lhs, rhs) => {
            if let Some(q) = property_literal(*lhs, *rhs) {
                if q.alias == alias {
                    lemma_literal_holds(w, *lhs, *rhs, q, row, v);
                }
            }
            if let Some(q) = property_literal(*rhs, *lhs) {
                if q.alias == alias {
                    lemma_literal_holds(w, *rhs, *lhs, q, row, v);
                    assert(equal(w, datum_of(q.value), (w.vertex_property)(v, q.property)) == equal(
                        w,
                        (w.vertex_property)(v, q.property),
                        datum_of(q.value),
                    ));
                }
            }
        },
        Expr::Binary(BinaryOp::And, lhs, rhs) => {
            if specific_equality(*lhs, alias, property) is Some {
                lemma_specific_equality_holds(w, *lhs, alias, property, row, v);
            } else {
                lemma_specific_equality_holds(w, *rhs, alias, property, row, v);
            }
        },
        _ => {},
    }
}

proof fn lemma_property_equality_holds(w: World, e: Expr, row: Row, v: u64)
    requires
        symmetric(w),
        property_equality(e) is Some,
        row.contains_key((property_equality(e)->0).alias),
        row[(property_equality(e)->0).alias] == Datum::Vertex(v),
        holds(w, e, row),
    ensures
        equal(
            w,
            (w.vertex_property)(v, (property_equality(e)->0).property),
            datum_of((property_equality(e)->0).value),
        ),
    decreases e,
{
    match e {
        Expr::Binary(BinaryOp::Eq, lhs, rhs) => {
            if let Some(q) = property_literal(*lhs, *rhs) {
                lemma_literal_holds(w, *lhs, *rhs, q, row, v);
            } else if let Some(q) = property_literal(*rhs, *lhs) {
                lemma_literal_holds(w, *rhs, *lhs, q, row, v);
                assert(equal(w, datum_of(q.value), (w.vertex_property)(v, q.property)) == equal(
                    w,
                    (w.vertex_property)(v, q.property),
                    datum_of(q.value),
                ));
            }
        },
        Expr::Binary(BinaryOp::And, lhs, rhs) => {
            if property_equality(*lhs) is Some {
                lemma_property_equality_holds(w, *lhs, row, v);
            } else {
                lemma_property_equality_holds(w, *rhs, row, v);
            }
        },
        _ => {},
    }
}

/// Whether the scan of a vertex keeps a vertex of the graph.
pub open spec fn scan_keeps(w: World, scan: Op, v: u64) -> bool {
    match scan {
        Op::LabelScan(_, label) => (w.labelled)(v, label),
        Op::LabelPropertyScan(_, label, property, value) => (w.labelled)(v, label) && equal(
            w,
            (w.vertex_property)(v, property),
            datum_of(value),
        ),
        _ => true,
    }
}

proof fn lemma_scan_contains(w: World, node: NodePattern, condition: Option<Expr>, stats: PlanStats, hints: Seq<IndexHint>, row: Row)
    ensures
        rows_of(w, node_scan(node, condition, stats, hints)).contains(row) <==> exists|v: u64|
            w.vertices.contains(v) && #[trigger] scan_keeps(w, node_scan(node, condition, stats, hints).op, v) && row == row_with(
                opt_text(node.alias),
                Datum::Vertex(v),
            ),
        !takes_input(node_scan(node, condition, stats, hints).op),
        node.labels@.len() > 0 ==> forall|v: u64| #[trigger]
            scan_keeps(w, node_scan(node, condition, stats, hints).op, v) ==> (w.labelled)(v, node.labels@[0]),
{
    let scan = node_scan(node, condition, stats, hints);
    let alias = opt_text(node.alias);
    match scan.op {
        Op::AllScan(a) => {
            let keep = |v: u64| true;
            lemma_vertex_rows_contain(w, alias, keep, row);
            assert(forall|v: u64| #[trigger] scan_keeps(w, scan.op, v) == keep(v));
            assert(rows_of(w, scan) == vertex_rows(w, alias, keep));
            if rows_of(w, scan).contains(row) {
                let v = choose|v: u64| w.vertices.contains(v) && #[trigger] keep(v) && row == row_with(alias, Datum::Vertex(v));
                assert(scan_keeps(w, scan.op, v));
            }
        },
        Op::LabelScan(a, label) => {
            let keep = |v: u64| (w.labelled)(v, label);
            lemma_vertex_rows_contain(w, alias, keep, row);
            assert(forall|v: u64| #[trigger] scan_keeps(w, scan.op, v) == keep(v));
            assert(rows_of(w, scan) == vertex_rows(w, alias, keep));
            if rows_of(w, scan).contains(row) {
                let v = choose|v: u64| w.vertices.contains(v) && #[trigger] keep(v) && row == row_with(alias, Datum::Vertex(v));
                assert(scan_keeps(w, scan.op, v));
            }
        },
        Op::LabelPropertyScan(a, label, property, value) => {
            let keep = |v: u64| (w.labelled)(v, label) && equal(w, (w.vertex_property)(v, property), datum_of(value));
            lemma_vertex_rows_contain(w, alias, keep, row);
            assert(forall|v: u64| #[trigger] scan_keeps(w, scan.op, v) == keep(v));
            assert(rows_of(w, scan) == vertex_rows(w, alias, keep));
            if rows_of(w, scan).contains(row) {
                let v = choose|v: u64| w.vertices.contains(v) && #[trigger] keep(v) && row == row_with(alias, Datum::Vertex(v));
                assert(scan_keeps(w, scan.op, v));
            }
        },
        _ => {},
    }
    if exists|v: u64| w.vertices.contains(v) && #[trigger] scan_keeps(w, scan.op, v) && row == row_with(alias, Datum::Vertex(v)) {
        let v = choose|v: u64| w.vertices.contains(v) && #[trigger] scan_keeps(w, scan.op, v) && row == row_with(alias, Datum::Vertex(v));
        assert(rows_of(w, scan).contains(row));
    }
}

/// What a scan leaves out of the vertices with the label asked for does not meet the condition.
proof fn lemma_scan_leaves_out(
    w: World,
    node: NodePattern,
    condition: Option<Expr>,
    stats: PlanStats,
    hints: Seq<IndexHint>,
    v: u64,
    row: Row,
)
    requires
        symmetric(w),
        node.labels@.len() > 0 ==> (w.labelled)(v, node.labels@[0]),
        opt_text(node.alias) matches Some(name) ==> row.contains_key(name) && row[name] == Datum::Vertex(v),
        condition matches Some(wc) ==> holds(w, wc, row),
    ensures
        scan_keeps(w, node_scan(node, condition, stats, hints).op, v),
{
    let alias = opt_text(node.alias);
    if node.labels@.len() > 0 {
        let label = node.labels@[0];
        if hinted_scan(alias, label, condition, stats, hints) is Some {
            let wc = condition->0;
            let property = (hint_for(hints, label)->0).property->0;
            lemma_specific_equality_holds(w, wc, alias->0, property, row, v);
        } else if suggested_scan(alias, label, condition, stats) is Some {
            lemma_property_equality_holds(w, condition->0, row, v);
        }
    }
}

/// The first vertex of a path is found where the scan keeps it and it is what the path asks for.
proof fn lemma_start_contains(
    w: World,
    element: PatternElement,
    condition: Option<Expr>,
    stats: PlanStats,
    hints: Seq<IndexHint>,
    p: Plan,
    row: Row,
)
    requires
        well_named(w, element),
        p == match element.node.alias {
            Some(alias) => with_properties(
                node_scan(element.node, condition, stats, hints),
                alias@,
                element.node.properties@,
                element.node.properties@.len(),
            ),
            None => node_scan(element.node, condition, stats, hints),
        },
    ensures
        rows_of(w, p).contains(row) <==> exists|v: u64| #[trigger]
            scan_keeps(w, node_scan(element.node, condition, stats, hints).op, v) && path_laid(
                w,
                element,
                seq![v],
                Seq::empty(),
                row,
                0,
            ),
{
    let node = element.node;
    let scan = node_scan(node, condition, stats, hints);
    let alias = opt_text(node.alias);
    lemma_scan_contains(w, node, condition, stats, hints, row);
    assert(node_at(element, 0) == node);
    assert(node_name(element, 0) == alias);
    assert(fixed_entries(w, node_at(element, 0).properties@));
    if let Some(name) = node.alias {
        lemma_properties_contain(w, scan, name@, node.properties@, row, node.properties@.len());
    } else {
        assert(node_at(element, 0).alias is None);
        assert(node.properties@.len() == 0);
    }
    if rows_of(w, p).contains(row) {
        let v = choose|v: u64|
            w.vertices.contains(v) && #[trigger] scan_keeps(w, scan.op, v) && row == row_with(alias, Datum::Vertex(v));
        if let Some(name) = node.alias {
            lemma_property_tests(w, name@, node.properties@, row);
        }
        assert(node_found(w, node, v));
        assert(names_bound(row, element, seq![v], Seq::empty(), 0)) by {
            assert forall|name: Seq<char>| #[trigger] row.contains_key(name) implies is_name(element, 0, name) by {
                assert(node_name(element, 0) == Some(name));
            }
        }
        assert(path_laid(w, element, seq![v], Seq::empty(), row, 0));
        assert(scan_keeps(w, scan.op, v));
    }
    if exists|v: u64| #[trigger] scan_keeps(w, scan.op, v) && path_laid(w, element, seq![v], Seq::empty(), row, 0) {
        let v = choose|v: u64| #[trigger] scan_keeps(w, scan.op, v) && path_laid(w, element, seq![v], Seq::empty(), row, 0);
        assert(node_name(element, 0) is Some ==> row.contains_key(alias->0) && row[alias->0] == Datum::Vertex(seq![v][0]));
        assert(node_found(w, node_at(element, 0), seq![v][0]));
        assert(row =~= row_with(alias, Datum::Vertex(v))) by {
            assert forall|name: Seq<char>| #[trigger] row.contains_key(name) implies alias == Some(name) by {
                assert(is_name(element, 0, name));
            }
        }
        if let Some(name) = node.alias {
            lemma_property_tests(w, name@, node.properties@, row);
        }
        assert(w.vertices.contains(seq![v][0]));
    }
}

proof fn lemma_element_contains(
    w: World,
    element: PatternElement,
    condition: Option<Expr>,
    stats: PlanStats,
    hints: Seq<IndexHint>,
    row: Row,
)
    requires
        well_named(w, element),
    ensures
        rows_of(w, element_plan(element, condition, stats, hints)).contains(row) <==> exists|vs: Seq<u64>, es: Seq<EdgeRecord>|
            #[trigger] path_laid(w, element, vs, es, row, element.edges@.len()) && scan_keeps(
                w,
                node_scan(element.node, condition, stats, hints).op,
                vs[0],
            ),
{
    let scan = node_scan(element.node, condition, stats, hints);
    let keep = |v: u64| scan_keeps(w, scan.op, v);
    let p = match element.node.alias {
        Some(alias) => with_properties(scan, alias@, element.node.properties@, element.node.properties@.len()),
        None => scan,
    };
    assert forall|r: Row| #[trigger] rows_of(w, p).contains(r) <==> exists|v: u64| #[trigger]
        keep(v) && path_laid(w, element, seq![v], Seq::empty(), r, 0) by {
        lemma_start_contains(w, element, condition, stats, hints, p, r);
        if exists|v: u64| #[trigger] keep(v) && path_laid(w, element, seq![v], Seq::empty(), r, 0) {
            let v = choose|v: u64| #[trigger] keep(v) && path_laid(w, element, seq![v], Seq::empty(), r, 0);
            assert(scan_keeps(w, scan.op, v) && path_laid(w, element, seq![v], Seq::empty(), r, 0));
        }
        if exists|v: u64| #[trigger] scan_keeps(w, scan.op, v) && path_laid(w, element, seq![v], Seq::empty(), r, 0) {
            let v = choose|v: u64| #[trigger] scan_keeps(w, scan.op, v) && path_laid(w, element, seq![v], Seq::empty(), r, 0);
            assert(keep(v) && path_laid(w, element, seq![v], Seq::empty(), r, 0));
        }
    }
    lemma_steps_contain(w, element, p, keep, node_rows(element.node, stats), row, element.edges@.len());
}

/// Where no condition is given, the rows of the plan of a path are its matches: the ways to choose the
/// vertices and the edges of the path in the graph, each edge leading from the vertex before it to the
/// vertex behind it.
pub proof fn path_rows_are_matches(w: World, element: PatternElement, stats: PlanStats, hints: Seq<IndexHint>, row: Row)
    requires
        well_named(w, element),
    ensures
        rows_of(w, element_plan(element, None, stats, hints)).contains(row) <==> matches_path(w, element, row),
{
    lemma_element_contains(w, element, None, stats, hints, row);
    let k = element.edges@.len();
    let scan = node_scan(element.node, None, stats, hints);
    if matches_path(w, element, row) {
        let (vs, es) = choose|vs: Seq<u64>, es: Seq<EdgeRecord>| path_laid(w, element, vs, es, row, k);
        assert(node_found(w, node_at(element, 0), vs[0]));
        assert(scan_keeps(w, scan.op, vs[0]));
    }
}

proof fn lemma_row_joined_contains(kind: JoinKind, a: Row, rows: Seq<Row>, row: Row, n: nat)
    requires
        kind is NestedLoop,
        n <= rows.len(),
    ensures
        row_joined(kind, a, rows, n).contains(row) <==> exists|j: int|
            0 <= j < n && agree(a, #[trigger] rows[j]) && row == a.union_prefer_right(rows[j]),
    decreases n,
{
    if n > 0 {
        lemma_row_joined_contains(kind, a, rows, row, (n - 1) as nat);
        let before = row_joined(kind, a, rows, (n - 1) as nat);
        let last = a.union_prefer_right(rows[n - 1]);
        lemma_sum_contains(before, seq![last], row);
        assert(before + seq![last] =~= before.push(last));
        assert(seq![last].contains(row) <==> row == last) by {
            assert(seq![last][0] == last);
        }
        if agree(a, rows[n - 1]) {
            assert(row_joined(kind, a, rows, n) == before.push(last));
        }
    } else {
        assert(row_joined(kind, a, rows, n).len() == 0);
    }
}

pub proof fn lemma_joined_contains(kind: JoinKind, left: Seq<Row>, right: Seq<Row>, row: Row, n: nat)
    requires
        kind is NestedLoop,
        n <= left.len(),
    ensures
        joined(kind, left, right, n).contains(row) <==> exists|i: int, j: int|
            0 <= i < n && 0 <= j < right.len() && #[trigger] agree(left[i], right[j]) && row == left[i].union_prefer_right(right[j]),
    decreases n,
{
    if n > 0 {
        lemma_joined_contains(kind, left, right, row, (n - 1) as nat);
        lemma_row_joined_contains(kind, left[n - 1], right, row, right.len());
        lemma_sum_contains(
            joined(kind, left, right, (n - 1) as nat),
            row_joined(kind, left[n - 1], right, right.len()),
            row,
        );
        if row_joined(kind, left[n - 1], right, right.len()).contains(row) {
            let j = choose|j: int|
                0 <= j < right.len() && agree(left[n - 1], #[trigger] right[j]) && row == left[n - 1].union_prefer_right(right[j]);
            assert(agree(left[n - 1], right[j]));
        }
    } else {
        assert(joined(kind, left, right, n).len() == 0);
    }
}

pub proof fn lemma_element_joins(element: PatternElement, condition: Option<Expr>, stats: PlanStats, hints: Seq<IndexHint>)
    ensures
        !takes_input(element_plan(element, condition, stats, hints).op),
{
    let scan = node_scan(element.node, condition, stats, hints);
    if let Some(alias) = element.node.alias {
        assert(!takes_input(with_properties(scan, alias@, element.node.properties@, element.node.properties@.len()).op));
    }
    let tested = match element.node.alias {
        Some(alias) => with_properties(scan, alias@, element.node.properties@, element.node.properties@.len()),
        None => scan,
    };
    let n = element.edges@.len();
    if n > 0 {
        let before = with_steps(tested, element, node_rows(element.node, stats), (n - 1) as nat);
        let step = element.edges@[n - 1];
        if let Some(alias) = step.edge.alias {
            let followed = chain_of(
                before,
                leaf_of(
                    expand_op(name_or_blank(node_name(element, n - 1)), step),
                    Quantity::product(Quantity::Count(node_rows(element.node, stats)), Quantity::Count(5)),
                ),
            );
            assert(!takes_input(with_properties(followed, alias@, step.edge.properties@, step.edge.properties@.len()).op));
        }
    }
}

/// What the joined paths find matches each of them.
proof fn lemma_joined_paths_match(
    w: World,
    elements: Seq<PatternElement>,
    condition: Option<Expr>,
    stats: PlanStats,
    hints: Seq<IndexHint>,
    row: Row,
    n: nat,
)
    requires
        1 <= n <= elements.len(),
        forall|i: int| 0 <= i < elements.len() ==> well_named(w, #[trigger] elements[i]),
        rows_of(w, elements_joined(elements, condition, stats, hints, n)).contains(row),
    ensures
        matches_paths(w, elements, row, n),
    decreases n,
{
    let last = element_plan(elements[n - 1], condition, stats, hints);
    if n == 1 {
        lemma_element_contains(w, elements[0], condition, stats, hints, row);
    } else {
        let first = elements_joined(elements, condition, stats, hints, (n - 1) as nat);
        lemma_element_joins(elements[n - 1], condition, stats, hints);
        let l = rows_of(w, first);
        let r = rows_of(w, last);
        lemma_joined_contains(JoinKind::NestedLoop, l, r, row, l.len());
        let (i, j) = choose|i: int, j: int|
            0 <= i < l.len() && 0 <= j < r.len() && #[trigger] agree(l[i], r[j]) && row == l[i].union_prefer_right(r[j]);
        assert(l.contains(l[i]) && r.contains(r[j]));
        lemma_joined_paths_match(w, elements, condition, stats, hints, l[i], (n - 1) as nat);
        lemma_element_contains(w, elements[n - 1], condition, stats, hints, r[j]);
        assert(matches_path(w, elements[n - 1], r[j]));
        assert(agree(l[i], r[j]));
    }
}

/// A match of the paths is found if it is part of a row on which the condition holds.
proof fn lemma_matches_are_joined(
    w: World,
    elements: Seq<PatternElement>,
    condition: Option<Expr>,
    stats: PlanStats,
    hints: Seq<IndexHint>,
    row: Row,
    all: Row,
    n: nat,
)
    requires
        symmetric(w),
        1 <= n <= elements.len(),
        forall|i: int| 0 <= i < elements.len() ==> well_named(w, #[trigger] elements[i]),
        matches_paths(w, elements, row, n),
        within(row, all),
        condition matches Some(wc) ==> holds(w, wc, all),
    ensures
        rows_of(w, elements_joined(elements, condition, stats, hints, n)).contains(row),
    decreases n,
{
    if n == 1 {
        lemma_match_is_found(w, elements[0], condition, stats, hints, row, all);
    } else {
        let (a, b) = choose|a: Row, b: Row|
            matches_paths(w, elements, a, (n - 1) as nat) && #[trigger] matches_path(w, elements[n - 1], b) && #[trigger] agree(a, b)
                && row == a.union_prefer_right(b);
        assert(within(a, all)) by {
            assert forall|name: Seq<char>| #[trigger] a.contains_key(name) implies all.contains_key(name) && a[name] == all[name] by {
                assert(row.contains_key(name));
                assert(row[name] == a[name]);
            }
        }
        assert(within(b, all)) by {
            assert forall|name: Seq<char>| #[trigger] b.contains_key(name) implies all.contains_key(name) && b[name] == all[name] by {
                assert(row.contains_key(name));
            }
        }
        lemma_matches_are_joined(w, elements, condition, stats, hints, a, all, (n - 1) as nat);
        lemma_match_is_found(w, elements[n - 1], condition, stats, hints, b, all);
        let l = rows_of(w, elements_joined(elements, condition, stats, hints, (n - 1) as nat));
        let r = rows_of(w, element_plan(elements[n - 1], condition, stats, hints));
        lemma_element_joins(elements[n - 1], condition, stats, hints);
        lemma_joined_contains(JoinKind::NestedLoop, l, r, row, l.len());
        let i = choose|i: int| 0 <= i < l.len() && l[i] == a;
        let j = choose|j: int| 0 <= j < r.len() && r[j] == b;
        assert(agree(l[i], r[j]));
    }
}

proof fn lemma_match_is_found(
    w: World,
    element: PatternElement,
    condition: Option<Expr>,
    stats: PlanStats,
    hints: Seq<IndexHint>,
    row: Row,
    all: Row,
)
    requires
        symmetric(w),
        well_named(w, element),
        matches_path(w, element, row),
        within(row, all),
        condition matches Some(wc) ==> holds(w, wc, all),
    ensures
        rows_of(w, element_plan(element, condition, stats, hints)).contains(row),
{
    lemma_element_contains(w, element, condition, stats, hints, row);
    let k = element.edges@.len();
    let (vs, es) = choose|vs: Seq<u64>, es: Seq<EdgeRecord>| path_laid(w, element, vs, es, row, k);
    assert(node_found(w, node_at(element, 0), vs[0]));
    assert(node_name(element, 0) == opt_text(element.node.alias));
    lemma_scan_leaves_out(w, element.node, condition, stats, hints, vs[0], all);
}

/// The rows of the plan of a `MATCH` clause are the matches of its paths on which its condition holds,
/// whichever index the scans use.
pub proof fn match_rows_are_matches(
    w: World,
    pattern: MatchPattern,
    condition: Option<Expr>,
    stats: PlanStats,
    hints: Seq<IndexHint>,
    row: Row,
)
    requires
        symmetric(w),
        pattern.elements@.len() > 0,
        forall|i: int| 0 <= i < pattern.elements@.len() ==> well_named(w, #[trigger] pattern.elements@[i]),
    ensures
        rows_of(w, match_plan(pattern, condition, stats, hints)).contains(row) <==> {
            &&& matches_paths(w, pattern.elements@, row, pattern.elements@.len())
            &&& condition matches Some(wc) ==> holds(w, wc, row)
        },
{
    let elements = pattern.elements@;
    let n = elements.len();
    let found = elements_joined(elements, condition, stats, hints, n);
    if let Some(wc) = condition {
        lemma_filtered_contains(w, found, wc, Quantity::decimal(3, 1), row);
    }
    if rows_of(w, found).contains(row) {
        lemma_joined_paths_match(w, elements, condition, stats, hints, row, n);
    }
    if matches_paths(w, elements, row, n) && (condition matches Some(wc) ==> holds(w, wc, row)) {
        lemma_matches_are_joined(w, elements, condition, stats, hints, row, row, n);
    }
}

} // verus!
