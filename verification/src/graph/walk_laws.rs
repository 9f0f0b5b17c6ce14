//! What walks, counts of paths and betweenness say, in real numbers over the edges of the graph.
use vstd::prelude::*;

use crate::graph::betweenness::{betweenness, credited, dependencies, handed_on, lemma_predecessors, paths_via, predecessors, repeated, shortest_paths, steps_before};
use crate::graph::centrality::steps;
use crate::graph::dag::occurrences;
use crate::graph::distance::{connected, lemma_connected_is_vertex, lemma_walk_back, search_order, visits_by_distance, walk};
use crate::graph::paths::{counts_behind, path_count};
use crate::graph::rank_laws::{neighbors_are_seen_along_edges, seen};
use crate::graph::sums::{at_source, at_target, edge_sum, lemma_sum_concat, lemma_sum_constant, lemma_sum_of_both, lemma_sum_of_nothing, lemma_sum_only_at, lemma_sum_push, lost, only_at, sum_over};
use crate::graph::walks::{next_vertex, drawn, fraction, scrambled, weight, weights_up_to, Bias, STEPS};
use crate::graph::{lemma_neighbors, Edge, Network};
use crate::quantity::{compared, value, whole, Compared, Numbers, Quantity};

verus! {

/// The numbers of paths of a length.
pub open spec fn counts_of(n: Network, k: nat) -> spec_fn(u64) -> real {
    |u: u64| whole(path_count(n, u, k) as int)
}

proof fn lemma_counts_behind(n: Network, v: u64, j: nat, k: nat)
    requires
        j <= n.neighbors(v).len(),
    ensures
        whole(counts_behind(n, v, j, k) as int) == sum_over(n.neighbors(v), counts_of(n, k), j),
        counts_behind(n, v, j, k) > 0 <==> exists|i: int| 0 <= i < j && path_count(n, #[trigger] n.neighbors(v)[i], k) > 0,
    decreases j,
{
    if j > 0 {
        lemma_counts_behind(n, v, (j - 1) as nat, k);
        if counts_behind(n, v, j, k) > 0 {
            if counts_behind(n, v, (j - 1) as nat, k) > 0 {
                let i = choose|i: int| 0 <= i < j - 1 && path_count(n, #[trigger] n.neighbors(v)[i], k) > 0;
                assert(path_count(n, n.neighbors(v)[i], k) > 0);
            } else {
                assert(path_count(n, n.neighbors(v)[j - 1], k) > 0);
            }
        }
    }
}

/// The paths of one more edge from a vertex: along each edge that leaves or reaches it, the paths from the
/// other end. There is one path without edges.
pub proof fn paths_continue_along_edges(n: Network, v: u64, k: nat)
    ensures
        path_count(n, v, 0) == 1,
        whole(path_count(n, v, k + 1) as int) == seen(n, counts_of(n, k), v),
{
    let list = n.neighbors(v);
    lemma_counts_behind(n, v, list.len(), k);
    assert(path_count(n, v, k + 1) == counts_behind(n, v, list.len(), k));
    neighbors_are_seen_along_edges(n, counts_of(n, k), v);
}

/// There is a path of a length from a vertex if and only if a walk of that length starts there.
pub proof fn paths_are_walks(n: Network, v: u64, k: nat)
    ensures
        path_count(n, v, k) > 0 <==> exists|w: u64| walk(n, v, w, k),
    decreases k,
{
    if k == 0 {
        assert(walk(n, v, v, 0));
    } else {
        let list = n.neighbors(v);
        let l = (k - 1) as nat;
        lemma_counts_behind(n, v, list.len(), l);
        if path_count(n, v, k) > 0 {
            let i = choose|i: int| 0 <= i < list.len() && path_count(n, #[trigger] list[i], l) > 0;
            let u = list[i];
            paths_are_walks(n, u, l);
            let w = choose|w: u64| walk(n, u, w, l);
            lemma_walk_back(n, u, w, l);
            lemma_neighbors(n, v, u);
            assert(list.contains(u));
            assert(n.adjacent(u, v));
            assert(walk(n, w, v, k));
            lemma_walk_back(n, w, v, k);
        }
        if exists|w: u64| walk(n, v, w, k) {
            let w = choose|w: u64| walk(n, v, w, k);
            lemma_walk_back(n, v, w, k);
            let u = choose|u: u64| walk(n, w, u, l) && #[trigger] n.adjacent(u, v);
            lemma_walk_back(n, w, u, l);
            paths_are_walks(n, u, l);
            lemma_neighbors(n, v, u);
            lemma_neighbors(n, u, v);
            let i = list.index_of(u);
            assert(path_count(n, list[i], l) > 0);
        }
    }
}

/// The numbers of shortest paths from a vertex.
pub open spec fn shortest_to(n: Network, s: u64) -> spec_fn(u64) -> real {
    |u: u64| whole(shortest_paths(n, s, u) as int)
}

proof fn lemma_paths_via(n: Network, s: u64, w: u64, k: nat)
    requires
        k <= predecessors(n, s, w).len(),
    ensures
        whole(paths_via(n, s, w, k) as int) == sum_over(predecessors(n, s, w), shortest_to(n, s), k),
        forall|i: int| 0 <= i < k ==> shortest_paths(n, s, #[trigger] predecessors(n, s, w)[i]) <= paths_via(n, s, w, k),
    decreases k,
{
    if k > 0 {
        lemma_paths_via(n, s, w, (k - 1) as nat);
        lemma_predecessors(n, s, w, search_order(n, s).len(), k - 1);
    }
}

/// What a vertex hands on to its predecessors.
pub open spec fn parts_of(m: Numbers, n: Network, s: u64, delta: Map<u64, Quantity>, w: u64) -> spec_fn(u64) -> real {
    |p: u64| value(m, handed_on(n, s, delta, w, p))
}

proof fn lemma_handed(m: Numbers, n: Network, s: u64, delta: Map<u64, Quantity>, w: u64, k: nat)
    requires
        w != s,
        0 < shortest_paths(n, s, w) <= u64::MAX,
        k <= predecessors(n, s, w).len(),
    ensures
        sum_over(predecessors(n, s, w), parts_of(m, n, s, delta, w), k) * whole(shortest_paths(n, s, w) as int) == sum_over(
            predecessors(n, s, w),
            shortest_to(n, s),
            k,
        ) * (whole(1) + value(m, delta[w])),
    decreases k,
{
    reveal_with_fuel(value, 3);
    let all = whole(shortest_paths(n, s, w) as int);
    let own = whole(1) + value(m, delta[w]);
    if k > 0 {
        lemma_handed(m, n, s, delta, w, (k - 1) as nat);
        let p = predecessors(n, s, w)[k - 1];
        lemma_paths_via(n, s, w, predecessors(n, s, w).len());
        assert(shortest_paths(n, s, p) <= shortest_paths(n, s, w));
        let c = whole(shortest_paths(n, s, p) as int);
        let x = c / all * own;
        assert(value(m, handed_on(n, s, delta, w, p)) == x);
        assert(x * all == c * own) by (nonlinear_arith)
            requires
                x == c / all * own,
                all > 0int as real,
        ;
        let a = sum_over(predecessors(n, s, w), parts_of(m, n, s, delta, w), (k - 1) as nat);
        let b = sum_over(predecessors(n, s, w), shortest_to(n, s), (k - 1) as nat);
        assert((a + x) * all == a * all + x * all) by (nonlinear_arith);
        assert((b + c) * own == b * own + c * own) by (nonlinear_arith);
    } else {
        assert(whole(0) * all == whole(0) * own) by (nonlinear_arith)
            requires
                whole(0) == 0int as real,
        ;
    }
}

/// A vertex hands on to its predecessors, in shares by the shortest paths through each, exactly one and
/// what it has itself.
pub proof fn all_is_handed_on(m: Numbers, n: Network, s: u64, delta: Map<u64, Quantity>, w: u64)
    requires
        w != s,
        0 < shortest_paths(n, s, w) <= u64::MAX,
    ensures
        sum_over(predecessors(n, s, w), parts_of(m, n, s, delta, w), predecessors(n, s, w).len()) == whole(1) + value(m, delta[w]),
{
    let k = predecessors(n, s, w).len();
    lemma_handed(m, n, s, delta, w, k);
    lemma_paths_via(n, s, w, k);
    let a = sum_over(predecessors(n, s, w), parts_of(m, n, s, delta, w), k);
    let c = whole(shortest_paths(n, s, w) as int);
    let own = whole(1) + value(m, delta[w]);
    assert(a == own) by (nonlinear_arith)
        requires
            a * c == c * own,
            c > 0int as real,
    ;
}

/// What some vertices have.
pub open spec fn held(m: Numbers, delta: Map<u64, Quantity>) -> spec_fn(u64) -> real {
    |v: u64| value(m, delta[v])
}

/// How much rounding changes what the first `k` predecessors of a vertex have.
pub open spec fn lost_in_crediting<B: Fn(&Quantity) -> u64>(
    m: Numbers,
    bits: B,
    n: Network,
    s: u64,
    delta: Map<u64, Quantity>,
    w: u64,
    k: nat,
) -> real
    decreases k,
{
    if k == 0 {
        whole(0)
    } else {
        let before = credited(bits, n, s, delta, w, (k - 1) as nat);
        let p = predecessors(n, s, w)[k - 1];
        lost_in_crediting(m, bits, n, s, delta, w, (k - 1) as nat) + lost(
            m,
            bits,
            Quantity::sum(before[p], handed_on(n, s, before, w, p)),
        )
    }
}

proof fn lemma_credited<B: Fn(&Quantity) -> u64>(
    m: Numbers,
    bits: B,
    n: Network,
    s: u64,
    delta: Map<u64, Quantity>,
    w: u64,
    k: nat,
)
    requires
        n.wf(),
        visits_by_distance(n, s, search_order(n, s)),
        n.vertices.contains(s),
        k <= predecessors(n, s, w).len(),
    ensures
        credited(bits, n, s, delta, w, k)[w] == delta[w],
        sum_over(n.vertices, held(m, credited(bits, n, s, delta, w, k)), n.vertices.len()) == sum_over(
            n.vertices,
            held(m, delta),
            n.vertices.len(),
        ) + sum_over(predecessors(n, s, w), parts_of(m, n, s, delta, w), k) + lost_in_crediting(m, bits, n, s, delta, w, k),
    decreases k,
{
    reveal_with_fuel(value, 3);
    if k > 0 {
        lemma_credited(m, bits, n, s, delta, w, (k - 1) as nat);
        let before = credited(bits, n, s, delta, w, (k - 1) as nat);
        let after = credited(bits, n, s, delta, w, k);
        let p = predecessors(n, s, w)[k - 1];
        let order = search_order(n, s);
        lemma_predecessors(n, s, w, order.len(), k - 1);
        assert(order.contains(p));
        lemma_connected_is_vertex(n, s, p);
        assert(p != w);
        let sum = Quantity::sum(before[p], handed_on(n, s, before, w, p));
        let more = value(m, handed_on(n, s, delta, w, p)) + lost(m, bits, sum);
        assert(handed_on(n, s, before, w, p) == handed_on(n, s, delta, w, p));
        assert(value(m, after[p]) == value(m, before[p]) + more);
        assert(n.vertices.take(n.vertices.len() as int) =~= n.vertices);
        lemma_sum_only_at(n.vertices, p, more, n.vertices.len());
        lemma_sum_of_both(n.vertices, held(m, before), only_at(p, more), held(m, after), n.vertices.len());
    }
}

/// Once a vertex has handed on, all vertices together have one more, and what that vertex has, but for what
/// rounding does.
pub proof fn crediting_adds_what_is_handed_on<B: Fn(&Quantity) -> u64>(
    m: Numbers,
    bits: B,
    n: Network,
    s: u64,
    delta: Map<u64, Quantity>,
    w: u64,
)
    requires
        n.wf(),
        visits_by_distance(n, s, search_order(n, s)),
        n.vertices.contains(s),
        w != s,
        0 < shortest_paths(n, s, w) <= u64::MAX,
    ensures
        ({
            let k = predecessors(n, s, w).len();
            sum_over(n.vertices, held(m, credited(bits, n, s, delta, w, k)), n.vertices.len()) == sum_over(
                n.vertices,
                held(m, delta),
                n.vertices.len(),
            ) + whole(1) + value(m, delta[w]) + lost_in_crediting(m, bits, n, s, delta, w, k)
        }),
{
    lemma_credited(m, bits, n, s, delta, w, predecessors(n, s, w).len());
    all_is_handed_on(m, n, s, delta, w);
}

/// What the paths from a vertex add to another that they lead through.
pub open spec fn through<B: Fn(&Quantity) -> u64>(m: Numbers, bits: B, n: Network, v: u64) -> spec_fn(u64) -> real {
    |s: u64|
        if v != s && connected(n, s, v) {
            value(m, dependencies(bits, n, s, search_order(n, s).len())[v])
        } else {
            whole(0)
        }
}

/// How much rounding changes the betweenness of a vertex.
pub open spec fn lost_in_betweenness<B: Fn(&Quantity) -> u64>(m: Numbers, bits: B, n: Network, v: u64, k: nat) -> real
    decreases k,
{
    if k == 0 {
        whole(0)
    } else {
        let s = n.vertices[k - 1];
        lost_in_betweenness(m, bits, n, v, (k - 1) as nat) + if v != s && connected(n, s, v) {
            lost(
                m,
                bits,
                Quantity::sum(
                    betweenness(bits, n, (k - 1) as nat)[v],
                    dependencies(bits, n, s, search_order(n, s).len())[v],
                ),
            )
        } else {
            whole(0)
        }
    }
}

/// The betweenness of a vertex adds up what the paths from each other vertex that is connected to it add,
/// but for what rounding does.
pub proof fn betweenness_adds_up_over_starts<B: Fn(&Quantity) -> u64>(m: Numbers, bits: B, n: Network, v: u64, k: nat)
    requires
        n.vertices.contains(v),
        k <= n.vertices.len(),
        forall|i: int| 0 <= i < n.vertices.len() ==> visits_by_distance(n, #[trigger] n.vertices[i], search_order(n, n.vertices[i])),
    ensures
        value(m, betweenness(bits, n, k)[v]) == sum_over(n.vertices, through(m, bits, n, v), k) + lost_in_betweenness(m, bits, n, v, k),
    decreases k,
{
    reveal_with_fuel(value, 2);
    if k > 0 {
        betweenness_adds_up_over_starts(m, bits, n, v, (k - 1) as nat);
        let s = n.vertices[k - 1];
        assert(visits_by_distance(n, s, search_order(n, s)));
        assert(search_order(n, s).contains(v) <==> connected(n, s, v));
    }
}

/// How often a value occurs, as a number for each value.
pub open spec fn frequency(list: Seq<u64>, f: spec_fn(u64) -> real) -> spec_fn(u64) -> real {
    |v: u64| whole(occurrences(list, v) as int) * f(v)
}

/// A sum over a list counts each value as often as it occurs.
proof fn lemma_grouped(order: Seq<u64>, list: Seq<u64>, f: spec_fn(u64) -> real)
    requires
        order.no_duplicates(),
        forall|i: int| 0 <= i < list.len() && f(#[trigger] list[i]) != whole(0) ==> order.contains(list[i]),
    ensures
        sum_over(list, f, list.len()) == sum_over(order, frequency(list, f), order.len()),
    decreases list.len(),
{
    if list.len() == 0 {
        assert forall|i: int| 0 <= i < order.len() implies frequency(list, f)(#[trigger] order[i]) == whole(0) by {
            let x = f(order[i]);
            assert(whole(0) * x == whole(0)) by (nonlinear_arith)
                requires
                    whole(0) == 0int as real,
            ;
        }
        lemma_sum_of_nothing(order, frequency(list, f), order.len());
    } else {
        let before = list.drop_last();
        let x = list.last();
        assert(list =~= before.push(x));
        assert(list[list.len() - 1] == x);
        assert forall|i: int| 0 <= i < before.len() && f(#[trigger] before[i]) != whole(0) implies order.contains(before[i]) by {
            assert(before[i] == list[i]);
        }
        lemma_grouped(order, before, f);
        lemma_sum_push(before, x, f);
        assert(order.take(order.len() as int) =~= order);
        lemma_sum_only_at(order, x, f(x), order.len());
        assert forall|i: int| 0 <= i < order.len() implies frequency(list, f)(#[trigger] order[i]) == frequency(before, f)(order[i])
            + only_at(x, f(x))(order[i]) by {
            let v = order[i];
            if v == x {
                let a = whole(occurrences(before, v) as int);
                let y = f(v);
                assert(whole(occurrences(list, v) as int) == a + whole(1));
                assert((a + whole(1)) * y == a * y + y) by (nonlinear_arith)
                    requires
                        whole(1) == 1int as real,
                ;
            }
        }
        lemma_sum_of_both(order, frequency(before, f), only_at(x, f(x)), frequency(list, f), order.len());
    }
}

proof fn lemma_occurrences_seen(n: Network, v: u64, w: u64)
    ensures
        whole(occurrences(n.neighbors(v), w) as int) == seen(n, only_at(w, whole(1)), v),
{
    lemma_occurrences_sum(n.neighbors(v), w);
    neighbors_are_seen_along_edges(n, only_at(w, whole(1)), v);
}

proof fn lemma_occurrences_sum(list: Seq<u64>, w: u64)
    ensures
        whole(occurrences(list, w) as int) == sum_over(list, only_at(w, whole(1)), list.len()),
    decreases list.len(),
{
    if list.len() > 0 {
        lemma_occurrences_sum(list.drop_last(), w);
        lemma_sum_push(list.drop_last(), list.last(), only_at(w, whole(1)));
        assert(list =~= list.drop_last().push(list.last()));
    }
}

proof fn lemma_seen_both_ways(edges: Seq<Edge>, v: u64, w: u64)
    ensures
        edge_sum(edges, at_source(only_at(w, whole(1)), v)) == edge_sum(edges, at_target(only_at(v, whole(1)), w)),
    decreases edges.len(),
{
    if edges.len() > 0 {
        lemma_seen_both_ways(edges.drop_last(), v, w);
    }
}

/// Two vertices occur as often among the neighbors of each other.
pub proof fn neighbors_occur_both_ways(n: Network, v: u64, w: u64)
    ensures
        occurrences(n.neighbors(v), w) == occurrences(n.neighbors(w), v),
{
    lemma_occurrences_seen(n, v, w);
    lemma_occurrences_seen(n, w, v);
    lemma_seen_both_ways(n.edges, v, w);
    lemma_seen_both_ways(n.edges, w, v);
}

/// The shortest paths to the vertices that stand one step nearer than a vertex.
pub open spec fn nearer(n: Network, s: u64, w: u64) -> spec_fn(u64) -> real {
    |u: u64|
        if connected(n, s, u) && steps(n, s, w) == steps(n, s, u) + 1 {
            whole(shortest_paths(n, s, u) as int)
        } else {
            whole(0)
        }
}

proof fn lemma_steps_before(n: Network, s: u64, w: u64, k: nat)
    requires
        visits_by_distance(n, s, search_order(n, s)),
        k <= search_order(n, s).len(),
    ensures
        sum_over(steps_before(n, s, w, k), shortest_to(n, s), steps_before(n, s, w, k).len()) == sum_over(
            search_order(n, s),
            frequency(n.neighbors(w), nearer(n, s, w)),
            k,
        ),
    decreases k,
{
    if k > 0 {
        lemma_steps_before(n, s, w, (k - 1) as nat);
        let order = search_order(n, s);
        let v = order[k - 1];
        assert(order.contains(v));
        let before = steps_before(n, s, w, (k - 1) as nat);
        let count = occurrences(n.neighbors(v), w);
        neighbors_occur_both_ways(n, v, w);
        let c = whole(count as int);
        if steps(n, s, w) == steps(n, s, v) + 1 {
            let more = repeated(v, count);
            lemma_sum_concat(before, more, shortest_to(n, s), count);
            lemma_sum_constant(more, shortest_to(n, s), shortest_to(n, s)(v), count);
        } else {
            assert(c * whole(0) == whole(0)) by (nonlinear_arith)
                requires
                    whole(0) == 0int as real,
            ;
        }
    }
}

/// The shortest paths to a vertex come along each edge from a vertex one step nearer, as many as there are
/// to that vertex; one path leads from a vertex to itself.
pub proof fn shortest_paths_come_along_edges(n: Network, s: u64, w: u64)
    requires
        visits_by_distance(n, s, search_order(n, s)),
    ensures
        shortest_paths(n, s, s) == 1,
        w != s ==> whole(shortest_paths(n, s, w) as int) == seen(n, nearer(n, s, w), w),
{
    if w != s {
        let order = search_order(n, s);
        let pred = predecessors(n, s, w);
        lemma_paths_via(n, s, w, pred.len());
        lemma_steps_before(n, s, w, order.len());
        let list = n.neighbors(w);
        assert forall|i: int| 0 <= i < list.len() && nearer(n, s, w)(#[trigger] list[i]) != whole(0) implies order.contains(list[i]) by {
        }
        lemma_grouped(order, list, nearer(n, s, w));
        neighbors_are_seen_along_edges(n, nearer(n, s, w), w);
    }
}

/// The weight of a step back, times the return parameter, is one; that of a step to a vertex near the one
/// before is one; that of any other step is the in-out parameter. The weights of a first step add up to one.
pub proof fn steps_are_weighed(m: Numbers, n: Network, bias: Bias, b: u64, v: u64, list: Seq<u64>)
    requires
        0 < list.len() <= u64::MAX,
        value(m, bias.p) != whole(0),
    ensures
        value(m, weight(n, bias, Some(b), list.len(), b)) * value(m, bias.p) == whole(1),
        v != b && n.adjacent(b, v) ==> value(m, weight(n, bias, Some(b), list.len(), v)) == whole(1),
        v != b && !n.adjacent(b, v) ==> value(m, weight(n, bias, Some(b), list.len(), v)) == value(m, bias.q),
        value(m, weights_up_to(n, bias, None, list, list.len())) == whole(1),
{
    reveal_with_fuel(value, 3);
    let p = value(m, bias.p);
    assert(whole(1) / p * p == whole(1)) by (nonlinear_arith)
        requires
            p != 0int as real,
            whole(1) == 1int as real,
    ;
    lemma_first_weights(m, n, bias, list, list.len());
    let c = whole(list.len() as int);
    assert(c * (whole(1) / c) == whole(1)) by (nonlinear_arith)
        requires
            c > 0int as real,
            whole(1) == 1int as real,
    ;
}

proof fn lemma_first_weights(m: Numbers, n: Network, bias: Bias, list: Seq<u64>, k: nat)
    requires
        0 < list.len() <= u64::MAX,
        k <= list.len(),
    ensures
        value(m, weights_up_to(n, bias, None, list, k)) == whole(k as int) * (whole(1) / whole(list.len() as int)),
    decreases k,
{
    reveal_with_fuel(value, 3);
    let x = whole(1) / whole(list.len() as int);
    if k > 0 {
        lemma_first_weights(m, n, bias, list, (k - 1) as nat);
        let a = whole(k - 1);
        assert(whole(k as int) == a + whole(1));
        assert((a + whole(1)) * x == a * x + x) by (nonlinear_arith)
            requires
                whole(1) == 1int as real,
        ;
    } else {
        assert(whole(0) * x == whole(0)) by (nonlinear_arith)
            requires
                whole(0) == 0int as real,
        ;
    }
}

/// Whether the weights of the first `k` neighbors add up to a mark.
pub open spec fn adds_up_to<F: Fn(&Quantity, &Quantity) -> Compared>(
    compare: F,
    n: Network,
    bias: Bias,
    before: Option<u64>,
    list: Seq<u64>,
    mark: Quantity,
    k: nat,
) -> bool {
    let c = compared(compare, mark, weights_up_to(n, bias, before, list, k));
    c is Less || c is Equal
}

/// A neighbor is drawn where the weights up to it add up to the mark, and those before it do not; the first
/// one where they never do.
pub proof fn draws_the_first_that_adds_up<F: Fn(&Quantity, &Quantity) -> Compared>(
    compare: F,
    n: Network,
    bias: Bias,
    before: Option<u64>,
    list: Seq<u64>,
    mark: Quantity,
    k: nat,
)
    requires
        k <= list.len(),
        list.len() > 0,
    ensures
        ({
            let x = drawn(compare, n, bias, before, list, mark, k);
            ||| exists|i: nat|
                k <= i < list.len() && x == list[i as int] && #[trigger] adds_up_to(compare, n, bias, before, list, mark, i + 1)
                    && forall|j: nat| k <= j < i ==> !#[trigger] adds_up_to(compare, n, bias, before, list, mark, j + 1)
            ||| x == list[0] && forall|j: nat|
                k <= j < list.len() ==> !#[trigger] adds_up_to(compare, n, bias, before, list, mark, j + 1)
        }),
    decreases list.len() - k,
{
    if k < list.len() {
        if adds_up_to(compare, n, bias, before, list, mark, k + 1) {
            assert(k <= k < list.len() && adds_up_to(compare, n, bias, before, list, mark, k + 1));
        } else {
            draws_the_first_that_adds_up(compare, n, bias, before, list, mark, k + 1);
            let x = drawn(compare, n, bias, before, list, mark, k);
            assert(x == drawn(compare, n, bias, before, list, mark, k + 1));
        }
    }
}

/// The fraction that a state yields is no less than zero and less than one.
pub proof fn fractions_are_below_one(m: Numbers, s: u64)
    ensures
        whole(0) <= value(m, fraction(s)) < whole(1),
        value(m, fraction(s)) * whole(STEPS as int) == whole((scrambled(s) / 2048) as int),
{
    reveal_with_fuel(value, 3);
    let x = scrambled(s);
    assert(x >> 11u64 < 0x20000000000000u64 && x >> 11u64 == x / 2048) by (bit_vector);
    let a = whole((x >> 11u64) as int);
    let b = whole(STEPS as int);
    assert(0int as real <= a / b < 1int as real && a / b * b == a) by (nonlinear_arith)
        requires
            0int as real <= a,
            a < b,
    ;
}

/// A walk goes on from its last vertex to one of its neighbors, drawn by the weights that the vertex before
/// the last gives: where the fraction of the total weight that the generator yields is first reached.
pub proof fn walks_go_on_by_weight<F: Fn(&Quantity, &Quantity) -> Compared>(
    compare: F,
    n: Network,
    bias: Bias,
    walk: Seq<u64>,
    b: u64,
    v: u64,
    s: u64,
)
    requires
        n.neighbors(v).len() > 0,
    ensures
        ({
            let list = n.neighbors(v);
            let mark = Quantity::product(fraction(s), weights_up_to(n, bias, Some(b), list, list.len()));
            let x = next_vertex(compare, n, bias, walk.push(b).push(v), s);
            ||| exists|i: nat|
                i < list.len() && x == list[i as int] && #[trigger] adds_up_to(compare, n, bias, Some(b), list, mark, i + 1)
                    && forall|j: nat| j < i ==> !#[trigger] adds_up_to(compare, n, bias, Some(b), list, mark, j + 1)
            ||| x == list[0] && forall|j: nat|
                j < list.len() ==> !#[trigger] adds_up_to(compare, n, bias, Some(b), list, mark, j + 1)
        }),
{
    let list = n.neighbors(v);
    let w = walk.push(b).push(v);
    let mark = Quantity::product(fraction(s), weights_up_to(n, bias, Some(b), list, list.len()));
    assert(w.last() == v);
    assert(w[w.len() - 2] == b);
    draws_the_first_that_adds_up(compare, n, bias, Some(b), list, mark, 0);
}

} // verus!
