//! What moves a vertex to a community, in real numbers over the edges of the graph.
use vstd::prelude::*;

use crate::graph::community::{all_labeled, best_move, degree_within, gain, moved, ties, weighed, weighed_around};
use crate::graph::labels::{best_label, is_best_label, label_count, labels_after};
use crate::graph::partition::{community, modularity_of, modularity_row, modularity_sum, modularity_term, twice_edges};
use crate::graph::rank_laws::{countable, neighbors_are_seen_along_edges, seen};
use crate::graph::scores::Scores;
use crate::graph::sums::{lemma_sum_same, lost_in_total, sum_over, totals_are_sums, values};
use crate::graph::{lemma_targets, Network};
use crate::quantity::{compared, value, whole, Compared, Numbers, Quantity};

verus! {

/// One for the vertices of a community, nothing for others.
pub open spec fn belongs(labels: Map<u64, u64>, c: u64) -> spec_fn(u64) -> real {
    |u: u64|
        if labels[u] == c {
            whole(1)
        } else {
            whole(0)
        }
}

/// The number of edges between a vertex and a community.
pub open spec fn edges_to(n: Network, labels: Map<u64, u64>, v: u64, c: u64) -> real {
    seen(n, belongs(labels, c), v)
}

/// The degrees of the vertices of a community without a given one.
pub open spec fn degrees_in(n: Network, labels: Map<u64, u64>, c: u64, except: u64) -> spec_fn(u64) -> real {
    |w: u64|
        if labels[w] == c && w != except {
            whole(n.degree(w) as int)
        } else {
            whole(0)
        }
}

/// The sum of the degrees of a community without a given vertex, as it is rounded.
pub open spec fn degrees_of<B: Fn(&Quantity) -> u64>(m: Numbers, n: Network, bits: B, labels: Map<u64, u64>, c: u64, except: u64) -> real {
    sum_over(n.vertices, degrees_in(n, labels, c, except), n.vertices.len()) + lost_in_total(
        m,
        bits,
        n.vertices,
        degree_within(n, labels, c, except),
        n.vertices.len(),
    )
}

proof fn lemma_count_is_sum(list: Seq<u64>, labels: Map<u64, u64>, k: nat, c: u64)
    ensures
        whole(label_count(list, labels, k, c) as int) == sum_over(list, belongs(labels, c), k),
        label_count(list, labels, k, c) <= k,
    decreases k,
{
    if k > 0 {
        lemma_count_is_sum(list, labels, (k - 1) as nat, c);
    }
}

proof fn lemma_degree_fits(n: Network, v: u64)
    requires
        countable(n),
    ensures
        n.degree(v) <= u64::MAX,
{
    lemma_targets(n.edges, v, v);
}

/// The ties of a vertex to a community are the edges between them.
pub proof fn ties_are_edges(m: Numbers, n: Network, labels: Map<u64, u64>, v: u64, c: u64)
    requires
        countable(n),
    ensures
        value(m, ties(n, labels, v, c)) == edges_to(n, labels, v, c),
{
    let list = n.neighbors(v);
    lemma_count_is_sum(list, labels, list.len(), c);
    lemma_degree_fits(n, v);
    neighbors_are_seen_along_edges(n, belongs(labels, c), v);
}

proof fn lemma_gain_in_reals(t: real, d: real, o: real, e: real)
    requires
        e > 0int as real,
    ensures
        t / e - (d * (o + d)) / (e * e) + (d * d) / (e * e) == (t * e - d * o) / (e * e),
        (t * e - d * o) / (e * e) > 0int as real <==> t * e > d * o,
{
    let q = e * e;
    assert(q > 0int as real) by (nonlinear_arith)
        requires
            e > 0int as real,
            q == e * e,
    ;
    assert(t / e == (t * e) / q) by (nonlinear_arith)
        requires
            e > 0int as real,
            q == e * e,
            q > 0int as real,
    ;
    let a = d * (o + d);
    let b = d * d;
    let c = d * o;
    let x = t * e;
    assert(a == c + b) by (nonlinear_arith)
        requires
            a == d * (o + d),
            b == d * d,
            c == d * o,
    ;
    assert(x / q - a / q + b / q == (x - c) / q) by (nonlinear_arith)
        requires
            a == c + b,
            q > 0int as real,
    ;
    let y = x - c;
    assert(y / q > 0int as real <==> y > 0int as real) by (nonlinear_arith)
        requires
            q > 0int as real,
    ;
}

/// What a vertex gains by moving to a community: the edges that it has there beyond those that it has in
/// its own, less the edges that chance would give it there. It gains where there are more of the former.
pub proof fn gains_weigh_edges_against_chance<B: Fn(&Quantity) -> u64>(
    m: Numbers,
    n: Network,
    bits: B,
    labels: Map<u64, u64>,
    v: u64,
    c: u64,
)
    requires
        countable(n),
        n.edges.len() > 0,
    ensures
        c == labels[v] ==> value(m, gain(n, bits, labels, v, c)) == whole(0),
        c != labels[v] ==> {
            let all = whole(2 * (n.edges.len() as int));
            let more = edges_to(n, labels, v, c) - edges_to(n, labels, v, labels[v]);
            let chance = whole(n.degree(v) as int) * degrees_of(m, n, bits, labels, c, v);
            &&& value(m, gain(n, bits, labels, v, c)) == (more * all - chance) / (all * all)
            &&& value(m, gain(n, bits, labels, v, c)) > whole(0) <==> more * all > chance
        },
{
    reveal_with_fuel(value, 6);
    if c != labels[v] {
        let all = whole(2 * (n.edges.len() as int));
        let twice = value(m, twice_edges(n));
        assert(twice == whole(2) * whole(n.edges.len() as int));
        assert(twice == all) by {
            let x = n.edges.len() as int;
            assert(whole(2) * whole(x) == whole(2 * x)) by (nonlinear_arith)
                requires
                    whole(2) == 2int as real,
                    whole(x) == x as real,
                    whole(2 * x) == (2 * x) as real,
            ;
        }
        ties_are_edges(m, n, labels, v, c);
        ties_are_edges(m, n, labels, v, labels[v]);
        lemma_degree_fits(n, v);
        let term = degree_within(n, labels, c, v);
        totals_are_sums(m, bits, n.vertices, term, n.vertices.len());
        assert forall|i: int| 0 <= i < n.vertices.len() implies values(m, term)(#[trigger] n.vertices[i]) == degrees_in(n, labels, c, v)(
            n.vertices[i],
        ) by {
            lemma_degree_fits(n, n.vertices[i]);
        }
        lemma_sum_same(n.vertices, values(m, term), n.vertices, degrees_in(n, labels, c, v), n.vertices.len());
        lemma_gain_in_reals(
            edges_to(n, labels, v, c) - edges_to(n, labels, v, labels[v]),
            whole(n.degree(v) as int),
            degrees_of(m, n, bits, labels, c, v),
            all,
        );
    }
}

/// Of two communities a vertex gains more in the one with more edges to it, where their degrees are equal,
/// and no more in the one whose degrees sum to more, where the edges are as many.
pub proof fn gains_grow_with_edges<B: Fn(&Quantity) -> u64>(m: Numbers, n: Network, bits: B, labels: Map<u64, u64>, v: u64, a: u64, b: u64)
    requires
        countable(n),
        n.edges.len() > 0,
        a != labels[v],
        b != labels[v],
    ensures
        edges_to(n, labels, v, a) > edges_to(n, labels, v, b) && degrees_of(m, n, bits, labels, a, v) == degrees_of(
            m,
            n,
            bits,
            labels,
            b,
            v,
        ) ==> value(m, gain(n, bits, labels, v, a)) > value(m, gain(n, bits, labels, v, b)),
        edges_to(n, labels, v, a) == edges_to(n, labels, v, b) && degrees_of(m, n, bits, labels, a, v) >= degrees_of(
            m,
            n,
            bits,
            labels,
            b,
            v,
        ) ==> value(m, gain(n, bits, labels, v, a)) <= value(m, gain(n, bits, labels, v, b)),
{
    gains_weigh_edges_against_chance(m, n, bits, labels, v, a);
    gains_weigh_edges_against_chance(m, n, bits, labels, v, b);
    let all = whole(2 * (n.edges.len() as int));
    let own = edges_to(n, labels, v, labels[v]);
    let ta = edges_to(n, labels, v, a) - own;
    let tb = edges_to(n, labels, v, b) - own;
    let d = whole(n.degree(v) as int);
    let da = degrees_of(m, n, bits, labels, a, v);
    let db = degrees_of(m, n, bits, labels, b, v);
    let x = ta * all - d * da;
    let y = tb * all - d * db;
    let q = all * all;
    assert(q > 0int as real) by (nonlinear_arith)
        requires
            all > 0int as real,
            q == all * all,
    ;
    assert(ta > tb && da == db ==> x > y) by (nonlinear_arith)
        requires
            all > 0int as real,
            x == ta * all - d * da,
            y == tb * all - d * db,
    ;
    assert(ta == tb && da >= db ==> x <= y) by (nonlinear_arith)
        requires
            d >= 0int as real,
            x == ta * all - d * da,
            y == tb * all - d * db,
    ;
    assert(x > y ==> x / q > y / q) by (nonlinear_arith)
        requires
            q > 0int as real,
    ;
    assert(x <= y ==> x / q <= y / q) by (nonlinear_arith)
        requires
            q > 0int as real,
    ;
}

/// Whether a comparison tells which of two quantities is the larger.
pub open spec fn tells_larger<F: Fn(&Quantity, &Quantity) -> Compared>(m: Numbers, compare: F, a: Quantity, b: Quantity) -> bool {
    compared(compare, a, b) is Greater <==> value(m, a) > value(m, b)
}

/// What a vertex gains by moving to the community of one of its neighbors.
pub open spec fn gain_at<B: Fn(&Quantity) -> u64>(n: Network, bits: B, labels: Map<u64, u64>, v: u64, i: int) -> Quantity {
    gain(n, bits, labels, v, labels[n.neighbors(v)[i]])
}

proof fn lemma_best_move<F: Fn(&Quantity, &Quantity) -> Compared, B: Fn(&Quantity) -> u64>(
    m: Numbers,
    n: Network,
    compare: F,
    bits: B,
    labels: Map<u64, u64>,
    v: u64,
    k: nat,
)
    requires
        k <= n.neighbors(v).len(),
        forall|i: int| 0 <= i < n.neighbors(v).len() ==> tells_larger(m, compare, #[trigger] gain_at(n, bits, labels, v, i), Quantity::Count(0)),
        forall|i: int, j: int|
            0 <= i < n.neighbors(v).len() && 0 <= j < n.neighbors(v).len() ==> tells_larger(
                m,
                compare,
                #[trigger] gain_at(n, bits, labels, v, i),
                #[trigger] gain_at(n, bits, labels, v, j),
            ),
    ensures
        ({
            let (c, g) = best_move(n, compare, bits, labels, v, k);
            &&& g == gain(n, bits, labels, v, c)
            &&& c == labels[v] || exists|i: int| 0 <= i < k && c == labels[#[trigger] n.neighbors(v)[i]]
            &&& value(m, g) >= whole(0)
            &&& c != labels[v] ==> value(m, g) > whole(0)
            &&& forall|i: int| 0 <= i < k ==> value(m, #[trigger] gain_at(n, bits, labels, v, i)) <= value(m, g)
        }),
    decreases k,
{
    if k > 0 {
        lemma_best_move(m, n, compare, bits, labels, v, (k - 1) as nat);
        let before = best_move(n, compare, bits, labels, v, (k - 1) as nat);
        let here = gain_at(n, bits, labels, v, k - 1);
        assert(tells_larger(m, compare, here, Quantity::Count(0)));
        assert(tells_larger(m, compare, here, before.1)) by {
            if before.0 != labels[v] {
                let i = choose|i: int| 0 <= i < k - 1 && before.0 == labels[#[trigger] n.neighbors(v)[i]];
                assert(before.1 == gain_at(n, bits, labels, v, i));
            }
        }
        let now = best_move(n, compare, bits, labels, v, k);
        if now.0 != labels[v] {
            if now.0 == before.0 {
                let i = choose|i: int| 0 <= i < k - 1 && before.0 == labels[#[trigger] n.neighbors(v)[i]];
                assert(now.0 == labels[n.neighbors(v)[i]]);
            } else {
                assert(now.0 == labels[n.neighbors(v)[k - 1]]);
            }
        }
    } else {
        assert(value(m, Quantity::Count(0)) == whole(0));
    }
}

/// A vertex leaves its community only for one around it that gains: one to which it has more edges, beyond
/// those to its own community, than chance would give it. No community around it would gain more.
pub proof fn vertices_move_to_the_best_gain<F: Fn(&Quantity, &Quantity) -> Compared, B: Fn(&Quantity) -> u64>(
    m: Numbers,
    n: Network,
    compare: F,
    bits: B,
    labels: Map<u64, u64>,
    v: u64,
)
    requires
        countable(n),
        n.edges.len() > 0,
        forall|i: int| 0 <= i < n.neighbors(v).len() ==> tells_larger(m, compare, #[trigger] gain_at(n, bits, labels, v, i), Quantity::Count(0)),
        forall|i: int, j: int|
            0 <= i < n.neighbors(v).len() && 0 <= j < n.neighbors(v).len() ==> tells_larger(
                m,
                compare,
                #[trigger] gain_at(n, bits, labels, v, i),
                #[trigger] gain_at(n, bits, labels, v, j),
            ),
    ensures
        ({
            let c = best_move(n, compare, bits, labels, v, n.neighbors(v).len()).0;
            let all = whole(2 * (n.edges.len() as int));
            let more = edges_to(n, labels, v, c) - edges_to(n, labels, v, labels[v]);
            let chance = whole(n.degree(v) as int) * degrees_of(m, n, bits, labels, c, v);
            &&& c == labels[v] || exists|i: int| 0 <= i < n.neighbors(v).len() && c == labels[#[trigger] n.neighbors(v)[i]]
            &&& c != labels[v] ==> more * all > chance
            &&& forall|i: int|
                0 <= i < n.neighbors(v).len() ==> value(m, #[trigger] gain_at(n, bits, labels, v, i)) <= value(
                    m,
                    gain(n, bits, labels, v, c),
                )
        }),
{
    lemma_best_move(m, n, compare, bits, labels, v, n.neighbors(v).len());
    let c = best_move(n, compare, bits, labels, v, n.neighbors(v).len()).0;
    gains_weigh_edges_against_chance(m, n, bits, labels, v, c);
}

/// The score of a vertex by the number of its edges, where each direction counts as one edge at least.
pub open spec fn thinned(m: Numbers, n: Network, s: Scores) -> spec_fn(u64) -> real {
    |u: u64|
        value(m, s[u]) / (whole(
            if n.out_of(u).len() == 0 {
                1
            } else {
                n.out_of(u).len() as int
            },
        ) + whole(
            if n.into(u).len() == 0 {
                1
            } else {
                n.into(u).len() as int
            },
        ))
}

/// A step of the centrality that weighs by degrees adds up, before scaling, the scores at the other ends
/// of the edges at a vertex, each divided by the number of edges there.
pub proof fn weighed_scores_spread_along_edges<B: Fn(&Quantity) -> u64>(m: Numbers, n: Network, bits: B, s: Scores, v: u64)
    requires
        countable(n),
    ensures
        value(m, weighed_around(n, bits, s)(v)) == seen(n, thinned(m, n, s), v) + lost_in_total(
            m,
            bits,
            n.neighbors(v),
            weighed(n, s),
            n.neighbors(v).len(),
        ),
{
    reveal_with_fuel(value, 2);
    let list = n.neighbors(v);
    totals_are_sums(m, bits, list, weighed(n, s), list.len());
    assert forall|i: int| 0 <= i < list.len() implies values(m, weighed(n, s))(#[trigger] list[i]) == thinned(m, n, s)(list[i]) by {
        let u = list[i];
        lemma_targets(n.edges, u, u);
    }
    lemma_sum_same(list, values(m, weighed(n, s)), list, thinned(m, n, s), list.len());
    neighbors_are_seen_along_edges(n, thinned(m, n, s), v);
}

/// What two vertices of one community add to the modularity: one if they are adjacent, less the product of
/// their degrees by twice the number of edges.
pub open spec fn pair_share(n: Network, part: Map<u64, usize>, u: u64) -> spec_fn(u64) -> real {
    |v: u64|
        if community(part, u) == community(part, v) {
            (if n.adjacent(u, v) {
                whole(1)
            } else {
                whole(0)
            }) - whole(n.degree(u) as int) * whole(n.degree(v) as int) / (whole(2) * whole(n.edges.len() as int))
        } else {
            whole(0)
        }
}

/// What a vertex adds to the modularity with all vertices of its community.
pub open spec fn vertex_share(n: Network, part: Map<u64, usize>) -> spec_fn(u64) -> real {
    |u: u64| sum_over(n.vertices, pair_share(n, part, u), n.vertices.len())
}

proof fn lemma_modularity_row(m: Numbers, n: Network, part: Map<u64, usize>, u: u64, k: nat, start: Quantity)
    requires
        countable(n),
        k <= n.vertices.len(),
    ensures
        value(m, modularity_row(n, part, u, k, start)) == value(m, start) + sum_over(n.vertices, pair_share(n, part, u), k),
    decreases k,
{
    if k > 0 {
        lemma_modularity_row(m, n, part, u, (k - 1) as nat, start);
        let v = n.vertices[k - 1];
        lemma_degree_fits(n, u);
        lemma_degree_fits(n, v);
        reveal_with_fuel(value, 6);
        assert(value(m, modularity_term(n, u, v)) == (if n.adjacent(u, v) {
            whole(1)
        } else {
            whole(0)
        }) - whole(n.degree(u) as int) * whole(n.degree(v) as int) / (whole(2) * whole(n.edges.len() as int)));
    }
}

proof fn lemma_modularity_sum(m: Numbers, n: Network, part: Map<u64, usize>, k: nat)
    requires
        countable(n),
        k <= n.vertices.len(),
    ensures
        value(m, modularity_sum(n, part, k)) == sum_over(n.vertices, vertex_share(n, part), k),
    decreases k,
{
    if k > 0 {
        lemma_modularity_sum(m, n, part, (k - 1) as nat);
        lemma_modularity_row(
            m,
            n,
            part,
            n.vertices[k - 1],
            n.vertices.len(),
            modularity_sum(n, part, (k - 1) as nat),
        );
    }
}

/// The modularity of a partition is the share of pairs of adjacent vertices in one community, less the
/// share that chance would give with the same degrees.
pub proof fn modularity_weighs_pairs_against_chance(m: Numbers, n: Network, part: Map<u64, usize>)
    requires
        countable(n),
    ensures
        n.vertices.len() >= 2 && n.edges.len() > 0 ==> value(m, modularity_of(n, part)) == sum_over(
            n.vertices,
            vertex_share(n, part),
            n.vertices.len(),
        ) / (whole(2) * whole(n.edges.len() as int)),
{
    lemma_modularity_sum(m, n, part, n.vertices.len());
    reveal_with_fuel(value, 4);
}

/// Where no vertex moves in a round, no vertex would move from where it is.
pub proof fn settled_communities_hold_their_vertices<F: Fn(&Quantity, &Quantity) -> Compared, B: Fn(&Quantity) -> u64>(
    n: Network,
    compare: F,
    bits: B,
    labels: Map<u64, u64>,
    k: nat,
)
    requires
        n.wf(),
        k <= n.vertices.len(),
        moved(n, compare, bits, labels, n.vertices.len()) == labels,
        all_labeled(n, labels),
    ensures
        moved(n, compare, bits, labels, k) == labels,
        forall|i: int|
            0 <= i < k ==> best_move(
                n,
                compare,
                bits,
                labels,
                #[trigger] n.vertices[i],
                n.neighbors(n.vertices[i]).len(),
            ).0 == labels[n.vertices[i]],
    decreases k,
{
    if k > 0 {
        settled_communities_hold_their_vertices(n, compare, bits, labels, (k - 1) as nat);
        let v = n.vertices[k - 1];
        let best = best_move(n, compare, bits, labels, v, n.neighbors(v).len()).0;
        let now = moved(n, compare, bits, labels, k);
        assert(now == labels.insert(v, best));
        lemma_moved_stays(n, compare, bits, labels, k, n.vertices.len(), k - 1);
        assert(n.vertices.contains(v));
        assert(n.vertices.to_set().contains(v));
        assert(now =~= labels);
    }
}

/// A vertex that has had its turn stays where it is for the rest of the round.
proof fn lemma_moved_stays<F: Fn(&Quantity, &Quantity) -> Compared, B: Fn(&Quantity) -> u64>(
    n: Network,
    compare: F,
    bits: B,
    labels: Map<u64, u64>,
    j: nat,
    k: nat,
    i: int,
)
    requires
        n.wf(),
        0 <= i < j <= k <= n.vertices.len(),
    ensures
        moved(n, compare, bits, labels, k)[n.vertices[i]] == moved(n, compare, bits, labels, j)[n.vertices[i]],
    decreases k,
{
    if j < k {
        lemma_moved_stays(n, compare, bits, labels, j, (k - 1) as nat, i);
        assert(n.vertices[k - 1] != n.vertices[i]);
    }
}

proof fn lemma_best_among(list: Seq<u64>, labels: Map<u64, u64>, k: nat) -> (i: int)
    requires
        0 < k <= list.len(),
    ensures
        0 <= i < k,
        forall|j: int|
            0 <= j < k ==> {
                let a = label_count(list, labels, list.len(), labels[list[i]]);
                let b = label_count(list, labels, list.len(), labels[#[trigger] list[j]]);
                b < a || (b == a && labels[list[i]] <= labels[list[j]])
            },
    decreases k,
{
    if k == 1 {
        0
    } else {
        let i = lemma_best_among(list, labels, (k - 1) as nat);
        let a = label_count(list, labels, list.len(), labels[list[i]]);
        let b = label_count(list, labels, list.len(), labels[list[k - 1]]);
        if b < a || (b == a && labels[list[i]] <= labels[list[k - 1]]) {
            i
        } else {
            k - 1
        }
    }
}

proof fn lemma_counted_label(list: Seq<u64>, labels: Map<u64, u64>, k: nat, l: u64)
    requires
        k <= list.len(),
    ensures
        label_count(list, labels, k, l) > 0 <==> exists|j: int| 0 <= j < k && labels[#[trigger] list[j]] == l,
    decreases k,
{
    if k > 0 {
        lemma_counted_label(list, labels, (k - 1) as nat, l);
        if label_count(list, labels, k, l) > 0 {
            if label_count(list, labels, (k - 1) as nat, l) > 0 {
                let j = choose|j: int| 0 <= j < k - 1 && labels[#[trigger] list[j]] == l;
                assert(labels[list[j]] == l);
            } else {
                assert(labels[list[k - 1]] == l);
            }
        }
    }
}

/// A list of labelled vertices has a label that is the most frequent one, and the smallest of these.
proof fn lemma_best_exists(list: Seq<u64>, labels: Map<u64, u64>)
    requires
        list.len() > 0,
    ensures
        is_best_label(list, labels, best_label(list, labels)),
{
    let i = lemma_best_among(list, labels, list.len());
    let l = labels[list[i]];
    lemma_counted_label(list, labels, list.len(), l);
    assert forall|m: u64|
        #![trigger label_count(list, labels, list.len(), m)]
        {
            let a = label_count(list, labels, list.len(), l);
            let b = label_count(list, labels, list.len(), m);
            b < a || (b == a && l <= m)
        } by {
        lemma_counted_label(list, labels, list.len(), m);
        if label_count(list, labels, list.len(), m) > 0 {
            let j = choose|j: int| 0 <= j < list.len() && labels[#[trigger] list[j]] == m;
            assert(labels[list[j]] == m);
        }
    }
    assert(is_best_label(list, labels, l));
}

proof fn lemma_labels_stay(n: Network, labels: Map<u64, u64>, j: nat, k: nat, i: int)
    requires
        n.wf(),
        0 <= i < j <= k <= n.vertices.len(),
    ensures
        labels_after(n, labels, k)[n.vertices[i]] == labels_after(n, labels, j)[n.vertices[i]],
    decreases k,
{
    if j < k {
        lemma_labels_stay(n, labels, j, (k - 1) as nat, i);
        assert(n.vertices[k - 1] != n.vertices[i]);
    }
}

proof fn lemma_labels_unchanged(n: Network, labels: Map<u64, u64>, k: nat)
    requires
        n.wf(),
        k <= n.vertices.len(),
        labels_after(n, labels, n.vertices.len()) == labels,
        all_labeled(n, labels),
    ensures
        labels_after(n, labels, k) == labels,
        forall|i: int|
            0 <= i < k && n.neighbors(#[trigger] n.vertices[i]).len() > 0 ==> best_label(n.neighbors(n.vertices[i]), labels)
                == labels[n.vertices[i]],
    decreases k,
{
    if k > 0 {
        lemma_labels_unchanged(n, labels, (k - 1) as nat);
        let v = n.vertices[k - 1];
        lemma_labels_stay(n, labels, k, n.vertices.len(), k - 1);
        assert(n.vertices.contains(v));
        assert(n.vertices.to_set().contains(v));
        assert(labels_after(n, labels, k) =~= labels);
    }
}

/// Where a round of label propagation changes nothing, each vertex with neighbors bears the label to which
/// most of its edges lead: no label has more edges to it, and none that has as many is smaller.
pub proof fn settled_labels_are_the_most_frequent(n: Network, labels: Map<u64, u64>, i: int, l: u64)
    requires
        n.wf(),
        labels_after(n, labels, n.vertices.len()) == labels,
        all_labeled(n, labels),
        0 <= i < n.vertices.len(),
        n.neighbors(n.vertices[i]).len() > 0,
    ensures
        ({
            let v = n.vertices[i];
            let own = edges_to(n, labels, v, labels[v]);
            let other = edges_to(n, labels, v, l);
            other < own || other == own && labels[v] <= l
        }),
{
    let v = n.vertices[i];
    let list = n.neighbors(v);
    lemma_labels_unchanged(n, labels, n.vertices.len());
    lemma_best_exists(list, labels);
    lemma_count_is_sum(list, labels, list.len(), labels[v]);
    lemma_count_is_sum(list, labels, list.len(), l);
    neighbors_are_seen_along_edges(n, belongs(labels, labels[v]), v);
    neighbors_are_seen_along_edges(n, belongs(labels, l), v);
    assert(best_label(list, labels) == labels[v]);
    assert(label_count(list, labels, list.len(), l) <= label_count(list, labels, list.len(), labels[v]));
}

} // verus!
