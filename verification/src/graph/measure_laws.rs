//! What the measures of vertices and of graphs say, in real numbers.
use vstd::prelude::*;

use crate::graph::centrality::{average_steps, closeness, degree_share, grand_count, grand_total, is_harmonic, lemma_steps, others_connected, others_reached, reciprocal_sum, steps, steps_to_all, total_steps};
use crate::graph::distance::{connected, is_distance, lemma_connected_is_vertex, lemma_distance_exists, visits_by_distance, walk};
use crate::graph::links::{attachment, adamic_adar_index, adamic_adar_term, resource_index, resource_term, shared, sum_terms};
use crate::graph::order::{ascending, ordered};
use crate::graph::partition::{conductance_of, count_edges, crosses, cut, leaves, normalized_cut_of, volume};
use crate::graph::rank_laws::{countable, neighbors_are_seen_along_edges, seen};
use crate::graph::richness::{edge_within, rich, rich_club};
use crate::graph::sums::{edge_sum, edges_are_counted_once, lemma_sum_constant, lemma_sum_of_both, lemma_sum_of_nothing, lemma_sum_only_at, lemma_sum_same, lemma_sum_scaled, of_source, of_target, only_at, sum_over, sums_by_source, sums_by_target};
use crate::graph::{lemma_neighbors, lemma_targets, Edge, Network};
use crate::quantity::{value, whole, Numbers, Quantity};

verus! {

/// One for every vertex.
pub open spec fn one() -> spec_fn(u64) -> real {
    |v: u64| whole(1)
}

/// The number of edges, as a sum.
proof fn lemma_edge_count(edges: Seq<Edge>)
    ensures
        edge_sum(edges, of_source(one())) == whole(edges.len() as int),
        edge_sum(edges, of_target(one())) == whole(edges.len() as int),
    decreases edges.len(),
{
    if edges.len() > 0 {
        lemma_edge_count(edges.drop_last());
    }
}

proof fn lemma_degree_seen(n: Network, v: u64)
    ensures
        whole(n.degree(v) as int) == seen(n, one(), v),
{
    let list = n.neighbors(v);
    neighbors_are_seen_along_edges(n, one(), v);
    lemma_sum_constant(list, one(), whole(1), list.len());
    assert(whole(list.len() as int) * whole(1) == whole(list.len() as int)) by (nonlinear_arith)
        requires
            whole(1) == 1int as real,
    ;
}

/// The degree centralities.
pub open spec fn degree_shares(m: Numbers, n: Network) -> spec_fn(u64) -> real {
    |v: u64| value(m, degree_share(n, v))
}

/// The degree centrality of a vertex, times the number of other vertices, is the number of its edge ends;
/// over all vertices that is twice the number of edges.
pub proof fn degree_shares_add_up_to_twice_the_edges(m: Numbers, n: Network, v: u64)
    requires
        countable(n),
        n.vertices.len() > 1,
    ensures
        value(m, degree_share(n, v)) * whole(n.vertices.len() - 1) == seen(n, one(), v),
        sum_over(n.vertices, degree_shares(m, n), n.vertices.len()) * whole(n.vertices.len() - 1) == whole(2 * (n.edges.len() as int)),
{
    reveal_with_fuel(value, 3);
    let rest = whole(n.vertices.len() - 1);
    let all = n.vertices;
    let k = all.len();
    let ends = |u: u64| seen(n, one(), u);
    assert forall|u: u64| #[trigger] degree_shares(m, n)(u) * rest == ends(u) by {
        lemma_targets(n.edges, u, u);
        lemma_degree_seen(n, u);
        let d = whole(n.degree(u) as int);
        assert(d / rest * rest == d) by (nonlinear_arith)
            requires
                rest > 0int as real,
        ;
    }
    assert(degree_shares(m, n)(v) * rest == ends(v));
    assert forall|i: int| 0 <= i < k implies ends(#[trigger] all[i]) == rest * degree_shares(m, n)(all[i]) by {
        let x = degree_shares(m, n)(all[i]);
        assert(x * rest == ends(all[i]));
        assert(x * rest == rest * x) by (nonlinear_arith);
    }
    lemma_sum_scaled(all, degree_shares(m, n), rest, ends, k);
    let total = sum_over(all, degree_shares(m, n), k);
    assert(total * rest == rest * total) by (nonlinear_arith);
    lemma_sum_of_both(all, sums_by_source(n.edges, one()), sums_by_target(n.edges, one()), ends, k);
    edges_are_counted_once(all, n.edges, one());
    lemma_edge_count(n.edges);
}

proof fn lemma_steps_at_least_one(n: Network, s: u64, v: u64)
    requires
        connected(n, s, v),
        s != v,
    ensures
        steps(n, s, v) >= 1,
        is_distance(n, s, v, steps(n, s, v)),
{
    let k = choose|k: nat| walk(n, s, v, k);
    let d = lemma_distance_exists(n, s, v, k);
    lemma_steps(n, s, v, d);
    assert(!walk(n, s, v, 0));
}

/// Whether every distance from a vertex to another that is connected to it lies between two numbers.
pub open spec fn distances_between(n: Network, s: u64, low: nat, high: nat) -> bool {
    forall|v: u64, d: nat| v != s && #[trigger] is_distance(n, s, v, d) ==> low <= d <= high
}

proof fn lemma_steps_between(n: Network, s: u64, list: Seq<u64>, low: nat, high: nat, k: nat)
    requires
        distances_between(n, s, low, high),
        k <= list.len(),
    ensures
        low * others_reached(n, s, list, k) <= total_steps(n, s, list, k) <= high * others_reached(n, s, list, k),
        others_reached(n, s, list, k) <= k,
    decreases k,
{
    if k > 0 {
        lemma_steps_between(n, s, list, low, high, (k - 1) as nat);
        let v = list[k - 1];
        let o = others_reached(n, s, list, (k - 1) as nat);
        if v != s && connected(n, s, v) {
            lemma_steps_at_least_one(n, s, v);
            assert(low * (o + 1) == low * o + low) by (nonlinear_arith);
            assert(high * (o + 1) == high * o + high) by (nonlinear_arith);
        } else if v == s {
            assert(walk(n, s, s, 0));
            assert(is_distance(n, s, s, 0));
            lemma_steps(n, s, s, 0);
        }
    } else {
        assert(low * 0 == 0 && high * 0 == 0);
    }
}

proof fn lemma_quotient_between(t: int, c: int, low: int, high: int)
    requires
        c > 0,
        low * c <= t <= high * c,
    ensures
        whole(low) <= whole(t) / whole(c) <= whole(high),
        whole(t) / whole(c) * whole(c) == whole(t),
{
    let x = whole(t);
    let y = whole(c);
    let a = whole(low);
    let b = whole(high);
    assert(whole(low * c) == a * y) by (nonlinear_arith)
        requires
            whole(low * c) == (low * c) as real,
            a == low as real,
            y == c as real,
    ;
    assert(whole(high * c) == b * y) by (nonlinear_arith)
        requires
            whole(high * c) == (high * c) as real,
            b == high as real,
            y == c as real,
    ;
    assert(a <= x / y <= b && x / y * y == x) by (nonlinear_arith)
        requires
            y > 0int as real,
            a * y <= x,
            x <= b * y,
    ;
}

/// The closeness of a vertex: where it reaches all others, its closeness is one over their average
/// distance; in general its closeness, times the sum of the distances and the number of other vertices, is
/// the square of the number of those that it reaches.
pub proof fn closeness_is_one_over_the_average_distance(m: Numbers, n: Network, s: u64)
    requires
        countable(n),
        1 < n.vertices.len() < u64::MAX,
        others_connected(n, s) > 0,
        steps_to_all(n, s) <= u64::MAX,
    ensures
        value(m, closeness(n, s)) * whole(steps_to_all(n, s) as int) * whole(n.vertices.len() - 1) == whole(
            others_connected(n, s) as int,
        ) * whole(others_connected(n, s) as int),
        others_connected(n, s) == n.vertices.len() - 1 ==> value(m, closeness(n, s)) * (whole(steps_to_all(n, s) as int) / whole(
            n.vertices.len() - 1,
        )) == whole(1),
        steps_to_all(n, s) >= others_connected(n, s),
{
    reveal_with_fuel(value, 5);
    lemma_others_bound(n, s, n.vertices, n.vertices.len());
    let o = whole(others_connected(n, s) as int);
    let t = whole(steps_to_all(n, s) as int);
    let r = whole(n.vertices.len() - 1);
    let c = value(m, closeness(n, s));
    assert(others_connected(n, s) <= n.vertices.len());
    assert(c == o / r * o / t);
    assert(o / r * o / t * t * r == o * o) by (nonlinear_arith)
        requires
            r > 0int as real,
            t > 0int as real,
    ;
    if others_connected(n, s) == n.vertices.len() - 1 {
        assert(o / o * o / t * (t / o) == whole(1)) by (nonlinear_arith)
            requires
                o > 0int as real,
                t > 0int as real,
                whole(1) == 1int as real,
        ;
    }
}

proof fn lemma_others_bound(n: Network, s: u64, list: Seq<u64>, k: nat)
    requires
        k <= list.len(),
    ensures
        others_reached(n, s, list, k) <= total_steps(n, s, list, k),
        others_reached(n, s, list, k) <= k,
    decreases k,
{
    if k > 0 {
        lemma_others_bound(n, s, list, (k - 1) as nat);
        let v = list[k - 1];
        if v != s && connected(n, s, v) {
            lemma_steps_at_least_one(n, s, v);
        }
    }
}

proof fn lemma_grand_between(n: Network, low: nat, high: nat, k: nat)
    requires
        k <= n.vertices.len(),
        forall|i: int| 0 <= i < n.vertices.len() ==> distances_between(n, #[trigger] n.vertices[i], low, high),
    ensures
        low * grand_count(n, k) <= grand_total(n, k) <= high * grand_count(n, k),
    decreases k,
{
    if k > 0 {
        lemma_grand_between(n, low, high, (k - 1) as nat);
        let s = n.vertices[k - 1];
        assert(distances_between(n, s, low, high));
        lemma_steps_between(n, s, n.vertices, low, high, n.vertices.len());
        let a = grand_count(n, (k - 1) as nat);
        let b = others_connected(n, s);
        assert(low * (a + b) == low * a + low * b) by (nonlinear_arith);
        assert(high * (a + b) == high * a + high * b) by (nonlinear_arith);
    } else {
        assert(low * 0 == 0 && high * 0 == 0);
    }
}

/// The average path length, times the number of connected pairs, is the sum of their distances; it lies
/// between any bounds of all distances.
pub proof fn averages_lie_between_distances(m: Numbers, n: Network, low: nat, high: nat)
    requires
        countable(n),
        n.vertices.len() > 1,
        0 < grand_count(n, n.vertices.len()) <= u64::MAX,
        grand_total(n, n.vertices.len()) <= u64::MAX,
        forall|i: int| 0 <= i < n.vertices.len() ==> distances_between(n, #[trigger] n.vertices[i], low, high),
    ensures
        whole(low as int) <= value(m, average_steps(n)) <= whole(high as int),
        value(m, average_steps(n)) * whole(grand_count(n, n.vertices.len()) as int) == whole(grand_total(n, n.vertices.len()) as int),
{
    reveal_with_fuel(value, 3);
    lemma_grand_between(n, low, high, n.vertices.len());
    lemma_quotient_between(
        grand_total(n, n.vertices.len()) as int,
        grand_count(n, n.vertices.len()) as int,
        low as int,
        high as int,
    );
}

/// A function on the members of a list, nothing for others.
pub open spec fn among(list: Seq<u64>, k: nat, f: spec_fn(u64) -> real) -> spec_fn(u64) -> real {
    |v: u64|
        if list.take(k as int).contains(v) {
            f(v)
        } else {
            whole(0)
        }
}

/// A sum over a list without repetition is a sum over all vertices, of which those outside of the list
/// add nothing.
proof fn lemma_sum_among(all: Seq<u64>, list: Seq<u64>, f: spec_fn(u64) -> real, k: nat)
    requires
        all.no_duplicates(),
        list.no_duplicates(),
        k <= list.len(),
        forall|i: int| 0 <= i < list.len() ==> all.contains(#[trigger] list[i]),
    ensures
        sum_over(list, f, k) == sum_over(all, among(list, k, f), all.len()),
    decreases k,
{
    if k == 0 {
        lemma_sum_of_nothing(all, among(list, 0, f), all.len());
    } else {
        lemma_sum_among(all, list, f, (k - 1) as nat);
        let x = list[k - 1];
        assert(all.take(all.len() as int) =~= all);
        lemma_sum_only_at(all, x, f(x), all.len());
        let before = list.take(k - 1);
        let now = list.take(k as int);
        assert(now =~= before.push(x));
        assert(!before.contains(x)) by {
            if before.contains(x) {
                let i = choose|i: int| 0 <= i < before.len() && before[i] == x;
                assert(list[i] == list[k - 1]);
            }
        }
        assert forall|i: int| 0 <= i < all.len() implies among(list, k, f)(#[trigger] all[i]) == among(list, (k - 1) as nat, f)(all[i])
            + only_at(x, f(x))(all[i]) by {
            let v = all[i];
            if before.contains(v) {
                let j = choose|j: int| 0 <= j < before.len() && before[j] == v;
                assert(now[j] == v);
            }
            if v == x {
                assert(now[k - 1] == v);
            }
            if now.contains(v) && v != x {
                let j = choose|j: int| 0 <= j < now.len() && now[j] == v;
                assert(before[j] == v);
            }
        }
        lemma_sum_of_both(all, among(list, (k - 1) as nat, f), only_at(x, f(x)), among(list, k, f), all.len());
    }
}

/// One over the distance to a vertex, where it is another and connected.
pub open spec fn nearness(n: Network, s: u64) -> spec_fn(u64) -> real {
    |v: u64|
        if v != s && connected(n, s, v) {
            whole(1) / whole(steps(n, s, v) as int)
        } else {
            whole(0)
        }
}

proof fn lemma_reciprocals(m: Numbers, n: Network, s: u64, order: Seq<u64>, k: nat)
    requires
        k <= order.len(),
        forall|i: int| 0 <= i < order.len() ==> connected(n, s, #[trigger] order[i]) && steps(n, s, order[i]) <= u64::MAX,
    ensures
        value(m, reciprocal_sum(n, s, order, k)) == sum_over(order, nearness(n, s), k),
    decreases k,
{
    reveal_with_fuel(value, 3);
    if k > 0 {
        lemma_reciprocals(m, n, s, order, (k - 1) as nat);
        let v = order[k - 1];
        assert(connected(n, s, v));
        if v != s {
            lemma_steps_at_least_one(n, s, v);
        }
    }
}

/// The harmonic centrality of a vertex is the sum, over all other vertices that are connected to it, of one
/// over their distance, in whatever order they are visited.
pub proof fn harmonic_centrality_sums_reciprocal_distances(m: Numbers, n: Network, s: u64, q: Quantity)
    requires
        countable(n),
        n.vertices.contains(s),
        forall|v: u64| #[trigger] steps(n, s, v) <= u64::MAX,
        is_harmonic(n, s, q),
    ensures
        value(m, q) == sum_over(n.vertices, nearness(n, s), n.vertices.len()),
{
    let order = choose|order: Seq<u64>| #[trigger] visits_by_distance(n, s, order) && q == reciprocal_sum(n, s, order, order.len());
    assert forall|i: int| 0 <= i < order.len() implies connected(n, s, #[trigger] order[i]) && n.vertices.contains(order[i]) by {
        assert(order.contains(order[i]));
        lemma_connected_is_vertex(n, s, order[i]);
    }
    lemma_reciprocals(m, n, s, order, order.len());
    let f = nearness(n, s);
    lemma_sum_among(n.vertices, order, f, order.len());
    assert(order.take(order.len() as int) =~= order);
    lemma_sum_same(n.vertices, among(order, order.len(), f), n.vertices, f, n.vertices.len());
}

proof fn lemma_ascending_exists(s: Set<u64>, bound: int) -> (q: Seq<u64>)
    requires
        0 <= bound,
        forall|x: u64| #[trigger] s.contains(x) ==> x < bound,
    ensures
        ascending(q),
        q.to_set() == s,
    decreases bound,
{
    if bound == 0 {
        let q = Seq::<u64>::empty();
        assert(q.to_set() =~= s);
        q
    } else if bound <= u64::MAX + 1 && s.contains((bound - 1) as u64) {
        let x = (bound - 1) as u64;
        let p = lemma_ascending_exists(s.remove(x), bound - 1);
        let q = p.push(x);
        assert forall|i: int, j: int| 0 <= i < j < q.len() implies q[i] < q[j] by {
            assert(p.to_set().contains(p[i]));
            assert(s.remove(x).contains(p[i]));
        }
        assert forall|y: u64| q.to_set().contains(y) <==> s.contains(y) by {
            if s.contains(y) && y != x {
                assert(p.to_set().contains(y));
                let i = choose|i: int| 0 <= i < p.len() && p[i] == y;
                assert(q[i] == y);
            }
            if y == x {
                assert(q[p.len() as int] == x);
            }
            if q.contains(y) && y != x {
                let i = choose|i: int| 0 <= i < q.len() && q[i] == y;
                assert(p[i] == y);
                assert(p.to_set().contains(y));
            }
        }
        assert(q.to_set() =~= s);
        q
    } else {
        lemma_ascending_exists(s, bound - 1)
    }
}

proof fn lemma_terms(m: Numbers, list: Seq<u64>, term: spec_fn(u64) -> Quantity, f: spec_fn(u64) -> real, k: nat)
    requires
        k <= list.len(),
        forall|i: int| 0 <= i < list.len() ==> value(m, term(#[trigger] list[i])) == f(list[i]),
    ensures
        value(m, sum_terms(list, term, k)) == sum_over(list, f, k),
    decreases k,
{
    reveal_with_fuel(value, 2);
    if k > 0 {
        lemma_terms(m, list, term, f, (k - 1) as nat);
        assert(value(m, term(list[k - 1])) == f(list[k - 1]));
    }
}

/// The number of vertices that are adjacent to a vertex.
pub open spec fn width(n: Network, c: u64) -> real {
    whole(n.neighbor_set(c).len() as int)
}

/// What a vertex adds to the resource allocation of two others: one over the number of its neighbors, if it
/// is adjacent to both.
pub open spec fn allocated(n: Network, a: u64, b: u64) -> spec_fn(u64) -> real {
    |c: u64|
        if n.adjacent(a, c) && n.adjacent(b, c) {
            whole(1) / width(n, c)
        } else {
            whole(0)
        }
}

/// What a vertex adds to the Adamic-Adar index of two others: one over the logarithm of the number of its
/// neighbors, if it is adjacent to both and has more than one.
pub open spec fn hinted(m: Numbers, n: Network, a: u64, b: u64) -> spec_fn(u64) -> real {
    |c: u64|
        if n.adjacent(a, c) && n.adjacent(b, c) && n.neighbor_set(c).len() > 1 {
            whole(1) / (m.ln)(width(n, c))
        } else {
            whole(0)
        }
}

proof fn lemma_width_fits(n: Network, c: u64)
    requires
        countable(n),
    ensures
        n.neighbor_set(c).len() <= u64::MAX,
{
    lemma_targets(n.edges, c, c);
    vstd::seq_lib::seq_to_set_is_finite(n.neighbors(c));
    n.neighbors(c).lemma_cardinality_of_set();
}

proof fn lemma_shared_sum(m: Numbers, n: Network, a: u64, b: u64, term: spec_fn(u64) -> Quantity, f: spec_fn(u64) -> real)
    requires
        countable(n),
        forall|c: u64| n.adjacent(a, c) && n.adjacent(b, c) ==> value(m, #[trigger] term(c)) == f(c),
        forall|c: u64| !(n.adjacent(a, c) && n.adjacent(b, c)) ==> #[trigger] f(c) == whole(0),
    ensures
        value(m, sum_terms(ordered(shared(n, a, b)), term, ordered(shared(n, a, b)).len())) == sum_over(n.vertices, f, n.vertices.len()),
{
    let s = shared(n, a, b);
    let q = lemma_ascending_exists(s, u64::MAX + 1);
    let list = ordered(s);
    assert(ascending(list) && list.to_set() == s);
    assert forall|c: u64| list.contains(c) <==> n.adjacent(a, c) && n.adjacent(b, c) by {
        lemma_neighbors(n, a, c);
        lemma_neighbors(n, b, c);
        assert(list.to_set().contains(c) <==> list.contains(c));
    }
    assert forall|i: int| 0 <= i < list.len() implies value(m, term(#[trigger] list[i])) == f(list[i]) && n.vertices.contains(list[i]) by {
        assert(list.contains(list[i]));
        lemma_neighbors(n, a, list[i]);
    }
    lemma_terms(m, list, term, f, list.len());
    lemma_sum_among(n.vertices, list, f, list.len());
    assert(list.take(list.len() as int) =~= list);
    lemma_sum_same(n.vertices, among(list, list.len(), f), n.vertices, f, n.vertices.len());
}

/// The two link scores are sums over all vertices that are adjacent to both of a pair: of one over the
/// number of their neighbors, and of one over its logarithm. A pair scores the same both ways round.
pub proof fn link_scores_sum_over_shared_neighbors(m: Numbers, n: Network, a: u64, b: u64)
    requires
        countable(n),
    ensures
        value(m, resource_index(n, a, b)) == sum_over(n.vertices, allocated(n, a, b), n.vertices.len()),
        value(m, adamic_adar_index(n, a, b)) == sum_over(n.vertices, hinted(m, n, a, b), n.vertices.len()),
        value(m, resource_index(n, a, b)) == value(m, resource_index(n, b, a)),
        value(m, adamic_adar_index(n, a, b)) == value(m, adamic_adar_index(n, b, a)),
{
    reveal_with_fuel(value, 4);
    assert forall|c: u64| n.adjacent(a, c) && n.adjacent(b, c) implies value(m, #[trigger] resource_term(n)(c)) == allocated(n, a, b)(c) by {
        lemma_width_fits(n, c);
    }
    assert forall|c: u64| n.adjacent(a, c) && n.adjacent(b, c) implies value(m, #[trigger] adamic_adar_term(n)(c)) == hinted(m, n, a, b)(
        c,
    ) by {
        lemma_width_fits(n, c);
    }
    lemma_shared_sum(m, n, a, b, resource_term(n), allocated(n, a, b));
    lemma_shared_sum(m, n, a, b, adamic_adar_term(n), hinted(m, n, a, b));
    assert(shared(n, a, b) =~= shared(n, b, a));
}

proof fn lemma_fraction(x: int, y: int)
    requires
        y > 0,
    ensures
        whole(x) / whole(y) * whole(y) == whole(x),
{
    let a = whole(x);
    let b = whole(y);
    assert(a / b * b == a) by (nonlinear_arith)
        requires
            b > 0int as real,
    ;
}

proof fn lemma_count_within(edges: Seq<Edge>, p: spec_fn(Edge) -> bool, q: spec_fn(Edge) -> bool)
    requires
        forall|e: Edge| #[trigger] p(e) ==> q(e),
    ensures
        count_edges(edges, p) <= count_edges(edges, q) <= edges.len(),
    decreases edges.len(),
{
    if edges.len() > 0 {
        lemma_count_within(edges.drop_last(), p, q);
        assert(p(edges.last()) ==> q(edges.last()));
    }
}

/// The conductance of a community is no less than the edges from it to the rest are of the edges that leave
/// its vertices, or of those that leave others, and equal to one of the two. Its normalized cut is the sum
/// of the two: times both numbers of edges, it is the edges from it to the rest times all edges.
pub proof fn cuts_are_shares_of_volumes(m: Numbers, n: Network, part: Map<u64, usize>, c: usize)
    requires
        countable(n),
        0 < volume(n, part, c) < n.edges.len(),
    ensures
        ({
            let vol = whole(volume(n, part, c) as int);
            let rest = whole(n.edges.len() - volume(n, part, c));
            let between = whole(cut(n, part, c) as int);
            let phi = value(m, conductance_of(n, part, c));
            &&& phi * vol >= between
            &&& phi * rest >= between
            &&& phi * vol == between || phi * rest == between
            &&& value(m, normalized_cut_of(n, part, c)) * vol * rest == between * whole(n.edges.len() as int)
        }),
        cut(n, part, c) <= volume(n, part, c) <= n.edges.len(),
{
    reveal_with_fuel(value, 4);
    lemma_count_within(n.edges, crosses(part, c), leaves(part, c));
    let vol = whole(volume(n, part, c) as int);
    let rest = whole(n.edges.len() - volume(n, part, c));
    let between = whole(cut(n, part, c) as int);
    let phi = value(m, conductance_of(n, part, c));
    let least = if vol <= rest {
        vol
    } else {
        rest
    };
    assert(phi == between / least);
    assert(phi * vol >= between && phi * rest >= between && phi * least == between) by (nonlinear_arith)
        requires
            phi == between / least,
            between >= 0int as real,
            least > 0int as real,
            vol >= least,
            rest >= least,
    ;
    let all = whole(n.edges.len() as int);
    assert(all == vol + rest);
    assert((between / vol + between / rest) * vol * rest == between * (vol + rest)) by (nonlinear_arith)
        requires
            vol > 0int as real,
            rest > 0int as real,
    ;
}

/// The rich-club coefficient, times the ordered pairs of vertices with more than `k` neighbors, is the
/// number of edges from one of them to another.
pub proof fn rich_clubs_share_their_pairs(m: Numbers, n: Network, k: nat)
    requires
        countable(n),
        2 <= rich(n, k).len(),
        rich(n, k).len() * (rich(n, k).len() - 1) <= u64::MAX,
    ensures
        value(m, rich_club(n, k)) * whole(rich(n, k).len() * (rich(n, k).len() - 1)) == whole(
            count_edges(n.edges, |e: Edge| rich(n, k).contains(e.from) && rich(n, k).contains(e.to) && e.from != e.to) as int,
        ),
{
    reveal_with_fuel(value, 3);
    let s = rich(n, k);
    let pairs = s.len() * (s.len() - 1);
    let other = |e: Edge| rich(n, k).contains(e.from) && rich(n, k).contains(e.to) && e.from != e.to;
    assert(other =~= edge_within(s));
    lemma_count_within(n.edges, edge_within(s), edge_within(s));
    assert(pairs > 0) by (nonlinear_arith)
        requires
            s.len() >= 2,
            pairs == s.len() * (s.len() - 1),
    ;
    lemma_fraction(count_edges(n.edges, edge_within(s)) as int, pairs);
}

/// The pairs of a neighbor of one vertex and a neighbor of another.
pub open spec fn pairs_of_neighbors(n: Network, a: u64, b: u64) -> spec_fn(u64) -> real {
    |x: u64|
        if n.adjacent(a, x) {
            width(n, b)
        } else {
            whole(0)
        }
}

/// The preferential attachment of two vertices is the number of pairs of a neighbor of the one and a
/// neighbor of the other; it is the same both ways round.
pub proof fn attachment_counts_pairs_of_neighbors(m: Numbers, n: Network, a: u64, b: u64)
    requires
        countable(n),
    ensures
        value(m, attachment(n, a, b)) == sum_over(n.vertices, pairs_of_neighbors(n, a, b), n.vertices.len()),
        value(m, attachment(n, a, b)) == value(m, attachment(n, b, a)),
{
    reveal_with_fuel(value, 2);
    lemma_width_fits(n, a);
    lemma_width_fits(n, b);
    let x = width(n, a);
    let y = width(n, b);
    assert(x * y == y * x) by (nonlinear_arith);
    let s = n.neighbor_set(a);
    vstd::seq_lib::seq_to_set_is_finite(n.neighbors(a));
    let list = lemma_ascending_exists(s, u64::MAX + 1);
    assert(list.no_duplicates());
    list.unique_seq_to_set();
    let f = |v: u64| y;
    lemma_sum_constant(list, f, y, list.len());
    assert forall|v: u64| list.contains(v) <==> n.adjacent(a, v) by {
        lemma_neighbors(n, a, v);
        assert(list.to_set().contains(v) <==> list.contains(v));
    }
    assert forall|i: int| 0 <= i < list.len() implies n.vertices.contains(#[trigger] list[i]) by {
        assert(list.contains(list[i]));
        lemma_neighbors(n, a, list[i]);
    }
    lemma_sum_among(n.vertices, list, f, list.len());
    assert(list.take(list.len() as int) =~= list);
    lemma_sum_same(n.vertices, among(list, list.len(), f), n.vertices, pairs_of_neighbors(n, a, b), n.vertices.len());
}

} // verus!
