//! What clustering, density and assortativity say, in real numbers.
use vstd::prelude::*;

use crate::graph::centrality::average_steps;
use crate::graph::rank_laws::countable;
use crate::graph::richness::{assortativity, head_degree, product_of, spread, tail_degree};
use crate::graph::triangles::{closed_triplets, density, is_tied_pair, local_clustering, random_path_length, small_world, tied_entries, tied_entry_pairs, tied_pairs, transitivity, triplets};
use crate::graph::{lemma_neighbors, lemma_targets, Edge, Network};
use crate::quantity::{compared, value, whole, Compared, Numbers, Quantity};

verus! {

/// The ordered pairs of different, adjacent neighbors of a vertex.
pub open spec fn tied_both_ways(n: Network, v: u64) -> Set<(u64, u64)> {
    Set::new(
        |p: (u64, u64)| p.0 != p.1 && n.adjacent(v, p.0) && n.adjacent(v, p.1) && n.adjacent(p.0, p.1),
    )
}

pub open spec fn turned(p: (u64, u64)) -> (u64, u64) {
    (p.1, p.0)
}

proof fn lemma_pairs_finite(s: Set<u64>, t: Set<(u64, u64)>)
    requires
        s.finite(),
        forall|p: (u64, u64)| #[trigger] t.contains(p) ==> s.contains(p.0) && s.contains(p.1),
    ensures
        t.finite(),
    decreases s.len(),
{
    if s.len() == 0 {
        assert(t =~= Set::<(u64, u64)>::empty());
    } else {
        let x = s.choose();
        let s2 = s.remove(x);
        let rest = t.filter(|p: (u64, u64)| p.0 != x && p.1 != x);
        lemma_pairs_finite(s2, rest);
        let a = s.map(|y: u64| (x, y));
        let b = s.map(|y: u64| (y, x));
        s.lemma_map_finite(|y: u64| (x, y));
        s.lemma_map_finite(|y: u64| (y, x));
        let all = rest.union(a).union(b);
        assert(t.subset_of(all)) by {
            assert forall|p: (u64, u64)| t.contains(p) implies all.contains(p) by {
                if p.0 == x {
                    assert(a.contains((x, p.1)));
                } else if p.1 == x {
                    assert(b.contains((p.0, x)));
                }
            }
        }
        vstd::set_lib::lemma_set_subset_finite(all, t);
    }
}

/// The local clustering of a vertex, times the ordered pairs of its different neighbors, is the number of
/// those pairs that are adjacent.
pub proof fn clustering_counts_adjacent_pairs(m: Numbers, n: Network, v: u64)
    requires
        countable(n),
        2 <= n.neighbor_set(v).len(),
        n.neighbor_set(v).len() * (n.neighbor_set(v).len() - 1) <= u64::MAX,
        tied_pairs(n, n.neighbor_set(v)).len() <= u64::MAX,
    ensures
        value(m, local_clustering(n, v)) * whole(n.neighbor_set(v).len() * (n.neighbor_set(v).len() - 1)) == whole(
            tied_both_ways(n, v).len() as int,
        ),
{
    reveal_with_fuel(value, 3);
    let s = n.neighbor_set(v);
    vstd::seq_lib::seq_to_set_is_finite(n.neighbors(v));
    let up = tied_pairs(n, s);
    let down = up.map(|p: (u64, u64)| turned(p));
    let both = tied_both_ways(n, v);
    assert forall|p: (u64, u64)| #[trigger] up.contains(p) implies s.contains(p.0) && s.contains(p.1) by {
    }
    lemma_pairs_finite(s, up);
    up.lemma_map_finite(|p: (u64, u64)| turned(p));
    vstd::set_lib::lemma_map_size(up, down, |p: (u64, u64)| turned(p));
    assert(both =~= up.union(down)) by {
        assert forall|p: (u64, u64)| both.contains(p) <==> up.union(down).contains(p) by {
            lemma_neighbors(n, v, p.0);
            lemma_neighbors(n, v, p.1);
            lemma_neighbors(n, p.0, p.1);
            let t = turned(p);
            if both.contains(p) && p.0 > p.1 {
                assert(up.contains(t));
                assert(down.contains(turned(t)));
            }
            if down.contains(p) {
                let q = choose|q: (u64, u64)| up.contains(q) && turned(q) == p;
                assert(is_tied_pair(n, s, q));
            }
        }
    }
    assert(up.disjoint(down)) by {
        assert forall|p: (u64, u64)| !(up.contains(p) && down.contains(p)) by {
            if down.contains(p) {
                let q = choose|q: (u64, u64)| up.contains(q) && turned(q) == p;
                assert(is_tied_pair(n, s, q));
            }
        }
    }
    vstd::set_lib::lemma_set_disjoint_lens(up, down);
    let k = s.len() as int;
    let h = k * (k - 1);
    assert(h % 2 == 0 && h > 0) by {
        lemma_even(k);
        assert(h > 0) by (nonlinear_arith)
            requires
                k >= 2,
                h == k * (k - 1),
        ;
    }
    let a = whole(up.len() as int);
    let b = whole(h / 2);
    assert(whole(h) == b + b);
    assert(a / b * (b + b) == a + a) by (nonlinear_arith)
        requires
            b > 0int as real,
    ;
}

proof fn lemma_even(k: int)
    ensures
        k * (k - 1) % 2 == 0,
{
    let j = k / 2;
    if k % 2 == 0 {
        assert(k * (k - 1) == 2 * (j * (k - 1))) by (nonlinear_arith)
            requires
                k == 2 * j,
        ;
    } else {
        assert(k * (k - 1) == 2 * (k * j)) by (nonlinear_arith)
            requires
                k == 2 * j + 1,
        ;
    }
}

/// One for the positions of a list that hold different, adjacent vertices.
pub open spec fn closes(n: Network, list: Seq<u64>, i: int, j: int) -> int {
    if list[i] != list[j] && n.adjacent(list[i], list[j]) {
        1
    } else {
        0
    }
}

/// How many of the first `k` positions of a list close with a position.
pub open spec fn closed_with(n: Network, list: Seq<u64>, j: int, k: nat) -> int
    decreases k,
{
    if k == 0 {
        0
    } else {
        closed_with(n, list, j, (k - 1) as nat) + closes(n, list, k - 1, j)
    }
}

/// How many ordered pairs, of one of the first `k` positions and one of the first `l`, close.
pub open spec fn closed_between(n: Network, list: Seq<u64>, k: nat, l: nat) -> int
    decreases k,
{
    if k == 0 {
        0
    } else {
        closed_between(n, list, (k - 1) as nat, l) + closed_with(n, list, k - 1, l)
    }
}

proof fn lemma_tied_entries(n: Network, list: Seq<u64>, j: int, k: nat)
    requires
        0 <= j < list.len(),
        k <= list.len(),
    ensures
        closed_with(n, list, j, k) == tied_entries(n, list, k, list[j]),
    decreases k,
{
    if k > 0 {
        lemma_tied_entries(n, list, j, (k - 1) as nat);
    }
}

/// One more column of a square adds what one more row does.
proof fn lemma_closed_column(n: Network, list: Seq<u64>, k: nat, l: nat)
    requires
        k <= list.len(),
        l < list.len(),
    ensures
        closed_between(n, list, k, l + 1) == closed_between(n, list, k, l) + closed_with(n, list, l as int, k),
    decreases k,
{
    if k > 0 {
        lemma_closed_column(n, list, (k - 1) as nat, l);
        lemma_neighbors(n, list[k - 1], list[l as int]);
        assert(closes(n, list, l as int, k - 1) == closes(n, list, k - 1, l as int));
        assert(closed_with(n, list, k - 1, l + 1) == closed_with(n, list, k - 1, l) + closes(n, list, l as int, k - 1));
    }
}

proof fn lemma_closed_square(n: Network, list: Seq<u64>, k: nat)
    requires
        k <= list.len(),
    ensures
        closed_between(n, list, k, k) == 2 * tied_entry_pairs(n, list, k),
    decreases k,
{
    if k > 0 {
        let l = (k - 1) as nat;
        lemma_closed_square(n, list, l);
        lemma_tied_entries(n, list, k - 1, l);
        lemma_closed_column(n, list, l, l);
        assert(closed_with(n, list, k - 1, k) == closed_with(n, list, k - 1, l) + closes(n, list, k - 1, k - 1));
        assert(closed_between(n, list, k, k) == closed_between(n, list, l, k) + closed_with(n, list, k - 1, k));
    }
}

/// Over the first `k` vertices, the ordered pairs of different positions among the ends of their edges.
pub open spec fn ordered_pairs_of_ends(n: Network, k: nat) -> int
    decreases k,
{
    if k == 0 {
        0
    } else {
        ordered_pairs_of_ends(n, (k - 1) as nat) + n.degree(n.vertices[k - 1]) * (n.degree(n.vertices[k - 1]) - 1)
    }
}

/// Over the first `k` vertices, the ordered pairs of ends of their edges that close.
pub open spec fn ordered_closed_pairs(n: Network, k: nat) -> int
    decreases k,
{
    if k == 0 {
        0
    } else {
        let list = n.neighbors(n.vertices[k - 1]);
        ordered_closed_pairs(n, (k - 1) as nat) + closed_between(n, list, list.len(), list.len())
    }
}

proof fn lemma_triplets(n: Network, k: nat)
    requires
        k <= n.vertices.len(),
    ensures
        2 * triplets(n, k) == ordered_pairs_of_ends(n, k),
        2 * closed_triplets(n, k) == ordered_closed_pairs(n, k),
        closed_triplets(n, k) <= triplets(n, k),
    decreases k,
{
    if k > 0 {
        lemma_triplets(n, (k - 1) as nat);
        let list = n.neighbors(n.vertices[k - 1]);
        let d = list.len();
        lemma_closed_square(n, list, d);
        lemma_even(d as int);
        lemma_closed_bound(n, list, d);
        let h = d * (d - 1);
        if d < 2 {
            assert(h == 0) by (nonlinear_arith)
                requires
                    d == 0 || d == 1,
                    h == d * (d - 1),
            ;
        } else {
            assert(h >= 0) by (nonlinear_arith)
                requires
                    d >= 2,
                    h == d * (d - 1),
            ;
        }
    }
}

proof fn lemma_closed_bound(n: Network, list: Seq<u64>, k: nat)
    requires
        k <= list.len(),
    ensures
        2 * tied_entry_pairs(n, list, k) <= k * (k - 1) || k == 0,
        k == 0 ==> tied_entry_pairs(n, list, k) == 0,
    decreases k,
{
    if k > 0 {
        let l = (k - 1) as nat;
        lemma_closed_bound(n, list, l);
        lemma_entries_bound(n, list, l, list[k - 1]);
        assert(k * (k - 1) == l * (l - 1) + 2 * l) by (nonlinear_arith)
            requires
                k == l + 1,
        ;
    }
}

proof fn lemma_entries_bound(n: Network, list: Seq<u64>, k: nat, b: u64)
    ensures
        tied_entries(n, list, k, b) <= k,
    decreases k,
{
    if k > 0 {
        lemma_entries_bound(n, list, (k - 1) as nat, b);
    }
}

proof fn lemma_share(x: int, y: int)
    requires
        0 <= x,
        0 < y,
    ensures
        whole(x) / whole(y) * whole(y) == whole(x),
        whole(x) / whole(y) * whole(2 * y) == whole(2 * x),
        x <= y ==> whole(x) / whole(y) <= whole(1),
{
    let a = whole(x);
    let b = whole(y);
    assert(a / b * b == a && a / b * (b + b) == a + a && (a <= b ==> a / b <= 1int as real)) by (nonlinear_arith)
        requires
            b > 0int as real,
    ;
}

/// The global clustering of a graph, times the ordered pairs of edge ends at each vertex, is the number of
/// those pairs whose far ends are different, adjacent vertices; it is at most one.
pub proof fn transitivity_counts_closed_pairs(m: Numbers, n: Network)
    requires
        countable(n),
        0 < triplets(n, n.vertices.len()) <= u64::MAX,
    ensures
        value(m, transitivity(n)) * whole(ordered_pairs_of_ends(n, n.vertices.len())) == whole(ordered_closed_pairs(n, n.vertices.len())),
        value(m, transitivity(n)) <= whole(1),
{
    reveal_with_fuel(value, 3);
    lemma_triplets(n, n.vertices.len());
    lemma_share(closed_triplets(n, n.vertices.len()) as int, triplets(n, n.vertices.len()) as int);
}

/// The density of a graph, times the ordered pairs of its vertices, is the number of its edges.
pub proof fn density_counts_edges(m: Numbers, n: Network)
    requires
        countable(n),
        n.vertices.len() > 1,
        n.vertices.len() * (n.vertices.len() - 1) <= u64::MAX,
    ensures
        value(m, density(n)) * whole((n.vertices.len() * n.vertices.len()) as int) == whole(n.edges.len() as int) + value(m, density(n)) * whole(
            n.vertices.len() as int,
        ),
{
    reveal_with_fuel(value, 3);
    let k = n.vertices.len() as int;
    let pairs = k * (k - 1);
    assert(pairs > 0 && k * k == pairs + k) by (nonlinear_arith)
        requires
            k > 1,
            pairs == k * (k - 1),
    ;
    lemma_share(n.edges.len() as int, pairs);
    let d = value(m, density(n));
    assert(whole(k * k) == whole(pairs) + whole(k));
    let a = whole(pairs);
    let b = whole(k);
    assert(d * (a + b) == d * a + d * b) by (nonlinear_arith);
}

/// The small-world coefficient relates what a graph has to what a random graph with as many vertices and
/// edges has: its clustering, over that of the random graph, is its path length, over that of the random
/// graph, times the coefficient. The clustering of a random graph is its density; its path length, times
/// the logarithm of its average degree, is the logarithm of its number of vertices.
pub proof fn small_worlds_cluster_more_than_their_paths_grow<F: Fn(&Quantity, &Quantity) -> Compared>(m: Numbers, compare: F, n: Network)
    requires
        countable(n),
        n.vertices.len() >= 3,
        compared(compare, density(n), Quantity::Count(0)) is Greater,
        !(compared(compare, average_steps(n), Quantity::Count(0)) is Equal),
        !(compared(compare, random_path_length(compare, n), Quantity::Count(0)) is Equal),
        value(m, density(n)) > whole(0),
        value(m, average_steps(n)) > whole(0),
        value(m, random_path_length(compare, n)) != whole(0),
        (m.ln)(whole(n.vertices.len() as int) * value(m, density(n))) != whole(0),
    ensures
        ({
            let random = value(m, random_path_length(compare, n));
            &&& random * (m.ln)(whole(n.vertices.len() as int) * value(m, density(n))) == (m.ln)(whole(n.vertices.len() as int))
            &&& value(m, transitivity(n)) / value(m, density(n)) == value(m, small_world(compare, n)) * (value(m, average_steps(n))
                / random)
        }),
{
    reveal_with_fuel(value, 5);
    let p = value(m, density(n));
    let r = value(m, random_path_length(compare, n));
    let t = value(m, transitivity(n));
    let l = value(m, average_steps(n));
    let a = (m.ln)(whole(n.vertices.len() as int));
    let b = (m.ln)(whole(n.vertices.len() as int) * p);
    assert(r == a / b);
    assert(a / b * b == a) by (nonlinear_arith)
        requires
            b != 0int as real,
    ;
    let x = t / p;
    let y = l / r;
    assert(value(m, small_world(compare, n)) == x / y);
    assert(y != 0int as real) by (nonlinear_arith)
        requires
            l > 0int as real,
            r != 0int as real,
            y == l / r,
    ;
    assert(x / y * y == x) by (nonlinear_arith)
        requires
            y != 0int as real,
    ;
}

/// The sum of a function over the first `k` edges.
pub open spec fn sum_edges(edges: Seq<Edge>, f: spec_fn(Edge) -> real, k: nat) -> real
    decreases k,
{
    if k == 0 {
        whole(0)
    } else {
        sum_edges(edges, f, (k - 1) as nat) + f(edges[k - 1])
    }
}

/// How far two edges are apart by one function, times how far they are apart by another.
pub open spec fn apart_by(f: spec_fn(Edge) -> real, h: spec_fn(Edge) -> real, e: Edge) -> spec_fn(Edge) -> real {
    |d: Edge| (f(e) - f(d)) * (h(e) - h(d))
}

/// That product, over all pairs of an edge with another.
pub open spec fn apart_from_all(edges: Seq<Edge>, f: spec_fn(Edge) -> real, h: spec_fn(Edge) -> real) -> spec_fn(Edge) -> real {
    |e: Edge| sum_edges(edges, apart_by(f, h, e), edges.len())
}

pub open spec fn times(f: spec_fn(Edge) -> real, h: spec_fn(Edge) -> real) -> spec_fn(Edge) -> real {
    |e: Edge| f(e) * h(e)
}

pub open spec fn values_at(m: Numbers, f: spec_fn(Edge) -> Quantity) -> spec_fn(Edge) -> real {
    |e: Edge| value(m, f(e))
}

proof fn lemma_apart_row(edges: Seq<Edge>, f: spec_fn(Edge) -> real, h: spec_fn(Edge) -> real, e: Edge, k: nat)
    ensures
        sum_edges(edges, apart_by(f, h, e), k) == whole(k as int) * (f(e) * h(e)) - f(e) * sum_edges(edges, h, k) - h(e) * sum_edges(
            edges,
            f,
            k,
        ) + sum_edges(edges, times(f, h), k),
    decreases k,
{
    let a = f(e);
    let b = h(e);
    if k > 0 {
        lemma_apart_row(edges, f, h, e, (k - 1) as nat);
        let x = f(edges[k - 1]);
        let y = h(edges[k - 1]);
        let p = sum_edges(edges, h, (k - 1) as nat);
        let q = sum_edges(edges, f, (k - 1) as nat);
        let c = whole(k - 1);
        assert(whole(k as int) == c + whole(1));
        assert((a - x) * (b - y) == a * b - a * y - b * x + x * y) by (nonlinear_arith);
        assert((c + whole(1)) * (a * b) == c * (a * b) + a * b) by (nonlinear_arith)
            requires
                whole(1) == 1int as real,
        ;
        assert(a * (p + y) == a * p + a * y) by (nonlinear_arith);
        assert(b * (q + x) == b * q + b * x) by (nonlinear_arith);
    } else {
        assert(whole(0) * (a * b) - a * whole(0) - b * whole(0) + whole(0) == whole(0)) by (nonlinear_arith)
            requires
                whole(0) == 0int as real,
        ;
    }
}

proof fn lemma_apart_square(edges: Seq<Edge>, f: spec_fn(Edge) -> real, h: spec_fn(Edge) -> real, k: nat)
    requires
        k <= edges.len(),
    ensures
        ({
            let m = edges.len();
            sum_edges(edges, apart_from_all(edges, f, h), k) == whole(m as int) * sum_edges(edges, times(f, h), k) - sum_edges(
                edges,
                f,
                k,
            ) * sum_edges(edges, h, m) - sum_edges(edges, h, k) * sum_edges(edges, f, m) + whole(k as int) * sum_edges(
                edges,
                times(f, h),
                m,
            )
        }),
    decreases k,
{
    let m = edges.len();
    let c = whole(m as int);
    let sf = sum_edges(edges, f, m);
    let sh = sum_edges(edges, h, m);
    let sp = sum_edges(edges, times(f, h), m);
    if k > 0 {
        lemma_apart_square(edges, f, h, (k - 1) as nat);
        let e = edges[k - 1];
        lemma_apart_row(edges, f, h, e, m);
        let a = f(e);
        let b = h(e);
        let x = sum_edges(edges, times(f, h), (k - 1) as nat);
        let y = sum_edges(edges, f, (k - 1) as nat);
        let z = sum_edges(edges, h, (k - 1) as nat);
        let d = whole(k - 1);
        assert(whole(k as int) == d + whole(1));
        assert(c * (x + a * b) == c * x + c * (a * b)) by (nonlinear_arith);
        assert((y + a) * sh == y * sh + a * sh) by (nonlinear_arith);
        assert((z + b) * sf == z * sf + b * sf) by (nonlinear_arith);
        assert((d + whole(1)) * sp == d * sp + sp) by (nonlinear_arith)
            requires
                whole(1) == 1int as real,
        ;
    } else {
        assert(c * whole(0) - whole(0) * sh - whole(0) * sf + whole(0) * sp == whole(0)) by (nonlinear_arith)
            requires
                whole(0) == 0int as real,
        ;
    }
}

proof fn lemma_sum_edges(m: Numbers, edges: Seq<Edge>, f: spec_fn(Edge) -> Quantity, k: nat)
    ensures
        value(m, crate::graph::richness::sum_over(edges, f, k)) == sum_edges(edges, values_at(m, f), k),
    decreases k,
{
    reveal_with_fuel(value, 2);
    if k > 0 {
        lemma_sum_edges(m, edges, f, (k - 1) as nat);
    }
}

proof fn lemma_sum_edges_same(edges: Seq<Edge>, f: spec_fn(Edge) -> real, h: spec_fn(Edge) -> real, k: nat)
    requires
        forall|e: Edge| #[trigger] f(e) == h(e),
    ensures
        sum_edges(edges, f, k) == sum_edges(edges, h, k),
    decreases k,
{
    if k > 0 {
        lemma_sum_edges_same(edges, f, h, (k - 1) as nat);
        assert(f(edges[k - 1]) == h(edges[k - 1]));
    }
}

/// The spread of two functions of the edges: over all ordered pairs of edges, how far they are apart by the
/// one times how far they are apart by the other adds up to twice the spread.
pub proof fn spread_adds_up_differences(m: Numbers, n: Network, f: spec_fn(Edge) -> Quantity, h: spec_fn(Edge) -> Quantity)
    requires
        n.edges.len() <= u64::MAX,
    ensures
        sum_edges(n.edges, apart_from_all(n.edges, values_at(m, f), values_at(m, h)), n.edges.len()) == whole(2) * value(
            m,
            spread(n, f, h),
        ),
{
    reveal_with_fuel(value, 4);
    let k = n.edges.len();
    let x = values_at(m, f);
    let y = values_at(m, h);
    lemma_apart_square(n.edges, x, y, k);
    lemma_sum_edges(m, n.edges, f, k);
    lemma_sum_edges(m, n.edges, h, k);
    lemma_sum_edges(m, n.edges, product_of(f, h), k);
    lemma_sum_edges_same(n.edges, values_at(m, product_of(f, h)), times(x, y), k);
    let c = whole(k as int);
    let p = sum_edges(n.edges, times(x, y), k);
    let a = sum_edges(n.edges, x, k);
    let b = sum_edges(n.edges, y, k);
    assert(value(m, spread(n, f, h)) == c * p - a * b);
    assert(c * p - a * b - b * a + c * p == whole(2) * (c * p - a * b)) by (nonlinear_arith)
        requires
            whole(2) == 2int as real,
    ;
}

/// The degree of the vertex that an edge leaves.
pub open spec fn degree_behind(n: Network) -> spec_fn(Edge) -> real {
    |e: Edge| whole(n.degree(e.from) as int)
}

/// The degree of the vertex that an edge reaches.
pub open spec fn degree_ahead(n: Network) -> spec_fn(Edge) -> real {
    |e: Edge| whole(n.degree(e.to) as int)
}

/// How edges differ in two functions, over all ordered pairs of edges.
pub open spec fn differences(n: Network, f: spec_fn(Edge) -> real, h: spec_fn(Edge) -> real) -> real {
    sum_edges(n.edges, apart_from_all(n.edges, f, h), n.edges.len())
}

/// The assortativity of a graph correlates the degrees at the two ends of its edges: times the root of how
/// the edges differ in each of the two by itself, it is how they differ in both together.
pub proof fn assortativity_correlates_degrees<F: Fn(&Quantity, &Quantity) -> Compared>(m: Numbers, compare: F, n: Network)
    requires
        countable(n),
        n.edges.len() >= 2,
        !(compared(
            compare,
            Quantity::sqrt(
                Quantity::product(spread(n, tail_degree(n), tail_degree(n)), spread(n, head_degree(n), head_degree(n))),
            ),
            Quantity::Count(0),
        ) is Equal),
        (m.sqrt)(
            differences(n, degree_behind(n), degree_behind(n)) / whole(2) * (differences(n, degree_ahead(n), degree_ahead(n)) / whole(
                2,
            )),
        ) != whole(0),
    ensures
        value(m, assortativity(compare, n)) * (m.sqrt)(
            differences(n, degree_behind(n), degree_behind(n)) / whole(2) * (differences(n, degree_ahead(n), degree_ahead(n)) / whole(
                2,
            )),
        ) == differences(n, degree_behind(n), degree_ahead(n)) / whole(2),
{
    reveal_with_fuel(value, 4);
    let x = tail_degree(n);
    let y = head_degree(n);
    assert forall|e: Edge| #[trigger] values_at(m, x)(e) == degree_behind(n)(e) by {
        lemma_targets(n.edges, e.from, e.from);
    }
    assert forall|e: Edge| #[trigger] values_at(m, y)(e) == degree_ahead(n)(e) by {
        lemma_targets(n.edges, e.to, e.to);
    }
    assert(values_at(m, x) =~= degree_behind(n));
    assert(values_at(m, y) =~= degree_ahead(n));
    spread_adds_up_differences(m, n, x, x);
    spread_adds_up_differences(m, n, y, y);
    spread_adds_up_differences(m, n, x, y);
    let xx = value(m, spread(n, x, x));
    let yy = value(m, spread(n, y, y));
    let xy = value(m, spread(n, x, y));
    assert(whole(2) * xx / whole(2) == xx && whole(2) * yy / whole(2) == yy && whole(2) * xy / whole(2) == xy) by (nonlinear_arith)
        requires
            whole(2) == 2int as real,
    ;
    let root = (m.sqrt)(xx * yy);
    assert(xy / root * root == xy) by (nonlinear_arith)
        requires
            root != 0int as real,
    ;
}

} // verus!
