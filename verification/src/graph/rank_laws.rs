//! What a step of the centralities that settle does, in real numbers over the edges of the graph.
use vstd::prelude::*;

use crate::graph::ranks::{authority, both_apart, eigen_step, equal_shares, handed, hits_change, hits_step, hub_score, katz_step, next_rank, rank_step, scaled, scores_around, weakened};
use crate::graph::scores::{apart, change, divided, norm, plain, scores_of, settled, square, total, Scores};
use crate::graph::sums::{at_source, at_target, by_outdegree, edge_sum, edges_are_counted_once, lemma_sources_sum, lemma_sum_concat, lemma_sum_constant, lemma_sum_of_both, lemma_sum_same, lemma_sum_scaled, lemma_targets_sum, lost, lost_in_total, sources_are_counted_by_outdegree, sum_over, sums_by_target, totals_are_sums, values};
use crate::graph::{lemma_targets, Edge, Network};
use crate::quantity::{compared, value, whole, Compared, Numbers, Quantity};

verus! {

/// Whether the numbers of vertices and edges of a graph can be told.
pub open spec fn countable(n: Network) -> bool {
    &&& n.wf()
    &&& 0 < n.vertices.len() <= u64::MAX
    &&& 2 * n.edges.len() + 2 <= u64::MAX
}

/// The numbers that scores stand for.
pub open spec fn ranks_in(m: Numbers, s: Scores) -> spec_fn(u64) -> real {
    |u: u64| value(m, s[u])
}

/// What each edge that leaves a vertex carries: the damped rank of the vertex, shared equally.
pub open spec fn carried(m: Numbers, n: Network, damping: Quantity, s: Scores) -> spec_fn(u64) -> real {
    |u: u64| value(m, damping) * value(m, s[u]) / whole(n.out_of(u).len() as int)
}

/// What every vertex has without any edge.
pub open spec fn base_rank(m: Numbers, n: Network, damping: Quantity) -> real {
    (whole(1) - value(m, damping)) / whole(n.vertices.len() as int)
}

/// How much rounding changes the new rank of a vertex.
pub open spec fn lost_in_rank<B: Fn(&Quantity) -> u64>(m: Numbers, n: Network, bits: B, damping: Quantity, s: Scores) -> spec_fn(u64) -> real {
    |v: u64|
        lost_in_total(m, bits, n.into(v), handed(n, damping, s), n.into(v).len()) + lost(
            m,
            bits,
            Quantity::sum(
                total(bits, n.into(v), handed(n, damping, s), n.into(v).len()),
                Quantity::quotient(
                    Quantity::difference(Quantity::Count(1), damping),
                    Quantity::Count(n.vertices.len() as u64),
                ),
            ),
        )
}

/// A step of PageRank gives a vertex what every vertex has and, along each edge that reaches it, the equal
/// share of the damped rank of the vertex that the edge comes from; an edge gives nothing to any other
/// vertex.
pub proof fn ranks_flow_along_edges<B: Fn(&Quantity) -> u64>(
    m: Numbers,
    n: Network,
    bits: B,
    damping: Quantity,
    s: Scores,
    v: u64,
)
    requires
        countable(n),
    ensures
        value(m, next_rank(n, bits, damping, s)(v)) == base_rank(m, n, damping) + edge_sum(
            n.edges,
            at_target(carried(m, n, damping, s), v),
        ) + lost_in_rank(m, n, bits, damping, s)(v),
{
    reveal_with_fuel(value, 4);
    let list = n.into(v);
    let term = handed(n, damping, s);
    totals_are_sums(m, bits, list, term, list.len());
    assert forall|i: int| 0 <= i < list.len() implies values(m, term)(#[trigger] list[i]) == carried(m, n, damping, s)(list[i]) by {
        let u = list[i];
        lemma_targets(n.edges, v, u);
        lemma_targets(n.edges, u, v);
        assert(list.contains(u));
        assert(n.out_of(u).contains(v));
        assert(n.out_of(u).len() > 0);
    }
    lemma_sum_same(list, values(m, term), list, carried(m, n, damping, s), list.len());
    lemma_sources_sum(n.edges, carried(m, n, damping, s), v);
}

/// A vertex that no edge reaches has, after each step, what every vertex has.
pub proof fn unreached_vertices_have_the_base_rank<B: Fn(&Quantity) -> u64>(
    m: Numbers,
    n: Network,
    bits: B,
    damping: Quantity,
    s: Scores,
    v: u64,
)
    requires
        countable(n),
        forall|i: int| 0 <= i < n.edges.len() ==> (#[trigger] n.edges[i]).to != v,
    ensures
        value(m, next_rank(n, bits, damping, s)(v)) == base_rank(m, n, damping) + lost(
            m,
            bits,
            Quantity::sum(
                Quantity::Count(0),
                Quantity::quotient(
                    Quantity::difference(Quantity::Count(1), damping),
                    Quantity::Count(n.vertices.len() as u64),
                ),
            ),
        ),
{
    reveal_with_fuel(value, 4);
    assert(n.into(v).len() == 0) by {
        if n.into(v).len() > 0 {
            let u = n.into(v)[0];
            lemma_targets(n.edges, v, u);
            assert(n.into(v).contains(u));
            let i = n.edges.index_of(Edge { from: u, to: v });
            assert(n.edges[i].to == v);
        }
    }
}

/// The ranks after a step.
pub open spec fn new_ranks<B: Fn(&Quantity) -> u64>(m: Numbers, n: Network, bits: B, damping: Quantity, s: Scores) -> spec_fn(u64) -> real {
    |v: u64| value(m, next_rank(n, bits, damping, s)(v))
}

/// A step of PageRank hands on all that it damps: where an edge leaves every vertex, ranks that sum to one
/// sum to one after the step, but for what rounding does.
pub proof fn steps_keep_the_sum_of_ranks<B: Fn(&Quantity) -> u64>(
    m: Numbers,
    n: Network,
    bits: B,
    damping: Quantity,
    s: Scores,
)
    requires
        countable(n),
        forall|i: int| 0 <= i < n.vertices.len() ==> n.out_of(#[trigger] n.vertices[i]).len() > 0,
        sum_over(n.vertices, ranks_in(m, s), n.vertices.len()) == whole(1),
    ensures
        sum_over(n.vertices, new_ranks(m, n, bits, damping, s), n.vertices.len()) == whole(1) + sum_over(
            n.vertices,
            lost_in_rank(m, n, bits, damping, s),
            n.vertices.len(),
        ),
{
    let all = n.vertices;
    let k = all.len();
    let d = value(m, damping);
    let share = carried(m, n, damping, s);
    let base = |v: u64| base_rank(m, n, damping);
    let flow = sums_by_target(n.edges, share);
    let exact = |v: u64| base(v) + flow(v);
    let loss = lost_in_rank(m, n, bits, damping, s);
    assert forall|i: int| 0 <= i < k implies new_ranks(m, n, bits, damping, s)(#[trigger] all[i]) == exact(all[i]) + loss(all[i]) by {
        ranks_flow_along_edges(m, n, bits, damping, s, all[i]);
    }
    lemma_sum_of_both(all, exact, loss, new_ranks(m, n, bits, damping, s), k);
    lemma_sum_of_both(all, base, flow, exact, k);
    lemma_sum_constant(all, base, base_rank(m, n, damping), k);
    let count = whole(k as int);
    assert(count * ((whole(1) - d) / count) == whole(1) - d) by (nonlinear_arith)
        requires
            count > 0int as real,
    ;
    edges_are_counted_once(all, n.edges, share);
    sources_are_counted_by_outdegree(all, n.edges, share);
    assert forall|i: int| 0 <= i < k implies by_outdegree(n.edges, share)(#[trigger] all[i]) == d * ranks_in(m, s)(all[i]) by {
        let u = all[i];
        let c = whole(n.out_of(u).len() as int);
        let x = d * value(m, s[u]);
        assert(c * (x / c) == x) by (nonlinear_arith)
            requires
                c > 0int as real,
        ;
    }
    lemma_sum_scaled(all, ranks_in(m, s), d, by_outdegree(n.edges, share), k);
    assert(d * whole(1) == d) by (nonlinear_arith)
        requires
            whole(1) == 1int as real,
    ;
}

/// Equal shares sum to one.
pub proof fn shares_sum_to_one(m: Numbers, n: Network)
    requires
        countable(n),
    ensures
        sum_over(n.vertices, ranks_in(m, scores_of(n, equal_shares(n))), n.vertices.len()) == whole(1),
{
    reveal_with_fuel(value, 3);
    let k = n.vertices.len();
    let c = whole(1) / whole(k as int);
    assert forall|i: int| 0 <= i < k implies ranks_in(m, scores_of(n, equal_shares(n)))(#[trigger] n.vertices[i]) == c by {
        assert(n.vertices.contains(n.vertices[i]));
    }
    lemma_sum_constant(n.vertices, ranks_in(m, scores_of(n, equal_shares(n))), c, k);
    let count = whole(k as int);
    assert(count * (whole(1) / count) == whole(1)) by (nonlinear_arith)
        requires
            count > 0int as real,
    ;
}

/// The scores that a vertex sees along the edges that leave it and those that reach it.
pub open spec fn seen(n: Network, f: spec_fn(u64) -> real, v: u64) -> real {
    edge_sum(n.edges, at_source(f, v)) + edge_sum(n.edges, at_target(f, v))
}

/// A sum over the neighbors of a vertex is a sum over the edges at it, each seen from the vertex.
pub proof fn neighbors_are_seen_along_edges(n: Network, f: spec_fn(u64) -> real, v: u64)
    ensures
        sum_over(n.neighbors(v), f, n.neighbors(v).len()) == seen(n, f, v),
{
    lemma_sum_concat(n.out_of(v), n.into(v), f, n.into(v).len());
    lemma_targets_sum(n.edges, f, v);
    lemma_sources_sum(n.edges, f, v);
}

/// A step of eigenvector centrality, before scaling, adds up the scores at the other ends of the edges at
/// a vertex; a step of Katz centrality weakens that sum by `alpha` and adds one.
pub proof fn scores_spread_along_edges<B: Fn(&Quantity) -> u64>(m: Numbers, n: Network, bits: B, alpha: Quantity, s: Scores, v: u64)
    ensures
        value(m, scores_around(n, bits, s)(v)) == seen(n, ranks_in(m, s), v) + lost_in_total(
            m,
            bits,
            n.neighbors(v),
            plain(s),
            n.neighbors(v).len(),
        ),
        value(m, weakened(n, bits, alpha, s)(v)) == whole(1) + value(m, alpha) * value(m, scores_around(n, bits, s)(v)) + lost(
            m,
            bits,
            Quantity::sum(Quantity::product(alpha, scores_around(n, bits, s)(v)), Quantity::Count(1)),
        ),
{
    reveal_with_fuel(value, 3);
    let list = n.neighbors(v);
    totals_are_sums(m, bits, list, plain(s), list.len());
    lemma_sum_same(list, values(m, plain(s)), list, ranks_in(m, s), list.len());
    neighbors_are_seen_along_edges(n, ranks_in(m, s), v);
}

/// The authority of a vertex adds up the hub scores along the edges that reach it, and its hub score the
/// authorities along the edges that leave it.
pub proof fn hubs_point_to_authorities<B: Fn(&Quantity) -> u64>(m: Numbers, n: Network, bits: B, s: Scores, v: u64)
    ensures
        value(m, authority(n, bits, s)(v)) == edge_sum(n.edges, at_target(ranks_in(m, s), v)) + lost_in_total(
            m,
            bits,
            n.into(v),
            plain(s),
            n.into(v).len(),
        ),
        value(m, hub_score(n, bits, s)(v)) == edge_sum(n.edges, at_source(ranks_in(m, s), v)) + lost_in_total(
            m,
            bits,
            n.out_of(v),
            plain(s),
            n.out_of(v).len(),
        ),
{
    let a = n.into(v);
    let b = n.out_of(v);
    totals_are_sums(m, bits, a, plain(s), a.len());
    totals_are_sums(m, bits, b, plain(s), b.len());
    lemma_sum_same(a, values(m, plain(s)), a, ranks_in(m, s), a.len());
    lemma_sum_same(b, values(m, plain(s)), b, ranks_in(m, s), b.len());
    lemma_sources_sum(n.edges, ranks_in(m, s), v);
    lemma_targets_sum(n.edges, ranks_in(m, s), v);
}

/// A number times itself.
pub open spec fn squares_in(m: Numbers, s: Scores) -> spec_fn(u64) -> real {
    |u: u64| value(m, s[u]) * value(m, s[u])
}

/// How far two scores of a vertex are apart.
pub open spec fn distances_in(m: Numbers, s: Scores, t: Scores) -> spec_fn(u64) -> real {
    |u: u64|
        if value(m, t[u]) >= value(m, s[u]) {
            value(m, t[u]) - value(m, s[u])
        } else {
            value(m, s[u]) - value(m, t[u])
        }
}

/// The length of scores is the root of the sum of their squares, scaling divides each score, and a change
/// is the sum of the distances between old and new scores.
pub proof fn lengths_and_changes<B: Fn(&Quantity) -> u64>(m: Numbers, n: Network, bits: B, s: Scores, t: Scores, d: Quantity, u: u64)
    ensures
        value(m, norm(n, bits, s)) == (m.sqrt)(
            sum_over(n.vertices, squares_in(m, s), n.vertices.len()) + lost_in_total(
                m,
                bits,
                n.vertices,
                square(s),
                n.vertices.len(),
            ),
        ) + lost(m, bits, Quantity::sqrt(total(bits, n.vertices, square(s), n.vertices.len()))),
        value(m, divided(bits, s, d)(u)) == value(m, s[u]) / value(m, d) + lost(m, bits, Quantity::quotient(s[u], d)),
        value(m, change(n, bits)(s, t)) == sum_over(n.vertices, distances_in(m, s, t), n.vertices.len()) + lost_in_total(
            m,
            bits,
            n.vertices,
            apart(s, t),
            n.vertices.len(),
        ),
{
    reveal_with_fuel(value, 3);
    let all = n.vertices;
    totals_are_sums(m, bits, all, square(s), all.len());
    totals_are_sums(m, bits, all, apart(s, t), all.len());
    lemma_sum_same(all, values(m, square(s)), all, squares_in(m, s), all.len());
    lemma_sum_same(all, values(m, apart(s, t)), all, distances_in(m, s, t), all.len());
}

/// A state after so many steps, where each step gives a new state.
pub open spec fn after<S>(step: spec_fn(S) -> Option<S>, s: S, j: nat) -> S
    decreases j,
{
    if j == 0 {
        s
    } else {
        step(after(step, s, (j - 1) as nat))->0
    }
}

/// Whether a run of steps is over after `j` steps: at the limit, where the next step has nothing to give,
/// or where the step before changed less than `epsilon`.
pub open spec fn is_over<S, F: Fn(&Quantity, &Quantity) -> Compared>(
    compare: F,
    step: spec_fn(S) -> Option<S>,
    change: spec_fn(S, S) -> Quantity,
    epsilon: Quantity,
    s: S,
    k: nat,
    j: nat,
) -> bool {
    ||| j == k
    ||| step(after(step, s, j)) is None
    ||| j > 0 && compared(compare, change(after(step, s, (j - 1) as nat), after(step, s, j)), epsilon) is Less
}

proof fn lemma_after_shift<S>(step: spec_fn(S) -> Option<S>, s: S, j: nat)
    ensures
        after(step, step(s)->0, j) == after(step, s, j + 1),
    decreases j,
{
    reveal_with_fuel(after, 2);
    if j > 0 {
        lemma_after_shift(step, s, (j - 1) as nat);
    }
}

/// Settling takes steps until the first point at which the run is over, and no further.
pub proof fn settling_stops_once_over<S, F: Fn(&Quantity, &Quantity) -> Compared>(
    compare: F,
    step: spec_fn(S) -> Option<S>,
    change: spec_fn(S, S) -> Quantity,
    epsilon: Quantity,
    s: S,
    k: nat,
) -> (j: nat)
    ensures
        j <= k,
        settled(compare, step, change, epsilon, s, k) == after(step, s, j),
        is_over(compare, step, change, epsilon, s, k, j),
        forall|i: nat| i < j ==> !#[trigger] is_over(compare, step, change, epsilon, s, k, i),
    decreases k,
{
    if k == 0 {
        0
    } else {
        reveal_with_fuel(after, 2);
        match step(s) {
            None => 0,
            Some(t) => if compared(compare, change(s, t), epsilon) is Less {
                assert(after(step, s, 1) == t);
                assert forall|i: nat| i < 1 implies !#[trigger] is_over(compare, step, change, epsilon, s, k, i) by {
                    assert(after(step, s, 0) == s);
                }
                1
            } else {
                let j = settling_stops_once_over(compare, step, change, epsilon, t, (k - 1) as nat);
                lemma_after_shift(step, s, j);
                if j > 0 {
                    lemma_after_shift(step, s, (j - 1) as nat);
                }
                assert(after(step, t, 0) == t && after(step, s, 1) == t && after(step, s, 0) == s);
                assert forall|i: nat| i < j + 1 implies !#[trigger] is_over(compare, step, change, epsilon, s, k, i) by {
                    if i > 0 {
                        let h = (i - 1) as nat;
                        assert(!is_over(compare, step, change, epsilon, t, (k - 1) as nat, h));
                        lemma_after_shift(step, s, h);
                        if h > 0 {
                            lemma_after_shift(step, s, (h - 1) as nat);
                        }
                    }
                }
                (j + 1) as nat
            },
        }
    }
}

/// A step of PageRank gives each vertex what every vertex has and what flows to it along edges; one of Katz
/// centrality gives it one and what spreads to it, weakened.
pub proof fn steps_reach_every_vertex<B: Fn(&Quantity) -> u64>(
    m: Numbers,
    n: Network,
    bits: B,
    factor: Quantity,
    s: Scores,
    v: u64,
)
    requires
        countable(n),
        n.vertices.contains(v),
    ensures
        rank_step(n, bits, factor)(s) is Some,
        value(m, (rank_step(n, bits, factor)(s)->0)[v]) == base_rank(m, n, factor) + edge_sum(
            n.edges,
            at_target(carried(m, n, factor, s), v),
        ) + lost_in_rank(m, n, bits, factor, s)(v),
        katz_step(n, bits, factor)(s) is Some,
        value(m, (katz_step(n, bits, factor)(s)->0)[v]) == whole(1) + value(m, factor) * (seen(n, ranks_in(m, s), v) + lost_in_total(
            m,
            bits,
            n.neighbors(v),
            plain(s),
            n.neighbors(v).len(),
        )) + lost(
            m,
            bits,
            Quantity::sum(Quantity::product(factor, scores_around(n, bits, s)(v)), Quantity::Count(1)),
        ),
{
    ranks_flow_along_edges(m, n, bits, factor, s, v);
    scores_spread_along_edges(m, n, bits, factor, s, v);
}

/// However many steps PageRank takes, a vertex that no edge reaches ends with what every vertex has.
pub proof fn unreached_vertices_end_with_the_base_rank<F: Fn(&Quantity, &Quantity) -> Compared, B: Fn(&Quantity) -> u64>(
    m: Numbers,
    n: Network,
    compare: F,
    bits: B,
    damping: Quantity,
    epsilon: Quantity,
    k: nat,
    v: u64,
)
    requires
        countable(n),
        k > 0,
        n.vertices.contains(v),
        forall|i: int| 0 <= i < n.edges.len() ==> (#[trigger] n.edges[i]).to != v,
    ensures
        value(
            m,
            settled(compare, rank_step(n, bits, damping), change(n, bits), epsilon, scores_of(n, equal_shares(n)), k)[v],
        ) == base_rank(m, n, damping) + lost(
            m,
            bits,
            Quantity::sum(
                Quantity::Count(0),
                Quantity::quotient(
                    Quantity::difference(Quantity::Count(1), damping),
                    Quantity::Count(n.vertices.len() as u64),
                ),
            ),
        ),
{
    let step = rank_step(n, bits, damping);
    let start = scores_of(n, equal_shares(n));
    let j = settling_stops_once_over(compare, step, change(n, bits), epsilon, start, k);
    assert(j > 0);
    let before = after(step, start, (j - 1) as nat);
    assert(step(before) is Some);
    unreached_vertices_have_the_base_rank(m, n, bits, damping, before, v);
}

/// Scaling divides each score by the length of all, but for what rounding does; where the length is not
/// above zero the scores stay.
pub proof fn scaling_divides_by_the_length<F: Fn(&Quantity, &Quantity) -> Compared, B: Fn(&Quantity) -> u64>(
    m: Numbers,
    n: Network,
    compare: F,
    bits: B,
    s: Scores,
    v: u64,
)
    requires
        n.vertices.contains(v),
        value(m, norm(n, bits, s)) != whole(0),
    ensures
        compared(compare, norm(n, bits, s), Quantity::Count(0)) is Greater ==> (value(m, scaled(n, compare, bits, s)[v]) - lost(
            m,
            bits,
            Quantity::quotient(s[v], norm(n, bits, s)),
        )) * value(m, norm(n, bits, s)) == value(m, s[v]),
        !(compared(compare, norm(n, bits, s), Quantity::Count(0)) is Greater) ==> scaled(n, compare, bits, s)[v] == s[v],
{
    lengths_and_changes(m, n, bits, s, s, norm(n, bits, s), v);
    let a = value(m, s[v]);
    let b = value(m, norm(n, bits, s));
    assert(a / b * b == a) by (nonlinear_arith)
        requires
            b != 0int as real,
    ;
}

/// A step of hubs and authorities: the new authorities are, scaled, the hub scores that reach each vertex,
/// and the new hub scores, scaled, the authorities that each vertex leads to. A step of eigenvector
/// centrality gives, scaled, the scores that each vertex sees, unless their length is next to nothing.
pub proof fn steps_scale_what_is_seen<F: Fn(&Quantity, &Quantity) -> Compared, B: Fn(&Quantity) -> u64>(
    m: Numbers,
    n: Network,
    compare: F,
    bits: B,
    auth: Scores,
    hub: Scores,
    v: u64,
) -> (raw: (Scores, Scores, Scores))
    requires
        n.vertices.contains(v),
    ensures
        hits_step(n, compare, bits)((auth, hub)) == Some(
            (scaled(n, compare, bits, raw.0), scaled(n, compare, bits, raw.1)),
        ),
        value(m, raw.0[v]) == edge_sum(n.edges, at_target(ranks_in(m, hub), v)) + lost_in_total(
            m,
            bits,
            n.into(v),
            plain(hub),
            n.into(v).len(),
        ),
        value(m, raw.1[v]) == edge_sum(n.edges, at_source(ranks_in(m, auth), v)) + lost_in_total(
            m,
            bits,
            n.out_of(v),
            plain(auth),
            n.out_of(v).len(),
        ),
        value(m, raw.2[v]) == seen(n, ranks_in(m, auth), v) + lost_in_total(
            m,
            bits,
            n.neighbors(v),
            plain(auth),
            n.neighbors(v).len(),
        ),
        compared(compare, norm(n, bits, raw.2), Quantity::decimal(1, 10)) is Less ==> eigen_step(n, compare, bits)(auth) is None,
        !(compared(compare, norm(n, bits, raw.2), Quantity::decimal(1, 10)) is Less) ==> {
            &&& eigen_step(n, compare, bits)(auth) is Some
            &&& value(m, (eigen_step(n, compare, bits)(auth)->0)[v]) == value(m, raw.2[v]) / value(m, norm(n, bits, raw.2)) + lost(
                m,
                bits,
                Quantity::quotient(raw.2[v], norm(n, bits, raw.2)),
            )
        },
{
    let a = scores_of(n, authority(n, bits, hub));
    let h = scores_of(n, hub_score(n, bits, auth));
    let e = scores_of(n, scores_around(n, bits, auth));
    hubs_point_to_authorities(m, n, bits, hub, v);
    hubs_point_to_authorities(m, n, bits, auth, v);
    scores_spread_along_edges(m, n, bits, Quantity::Count(0), auth, v);
    lengths_and_changes(m, n, bits, e, e, norm(n, bits, e), v);
    (a, h, e)
}

/// Two distances, added.
pub open spec fn both_distances(m: Numbers, s: (Scores, Scores), t: (Scores, Scores)) -> spec_fn(u64) -> real {
    |u: u64| distances_in(m, s.0, t.0)(u) + distances_in(m, s.1, t.1)(u)
}

/// A change of hubs and authorities is the sum of the distances between old and new scores of both kinds.
pub proof fn changes_of_pairs_add_up<B: Fn(&Quantity) -> u64>(m: Numbers, n: Network, bits: B, s: (Scores, Scores), t: (Scores, Scores))
    ensures
        value(m, hits_change(n, bits)(s, t)) == sum_over(n.vertices, both_distances(m, s, t), n.vertices.len()) + lost_in_total(
            m,
            bits,
            n.vertices,
            both_apart(s, t),
            n.vertices.len(),
        ),
{
    reveal_with_fuel(value, 4);
    let all = n.vertices;
    totals_are_sums(m, bits, all, both_apart(s, t), all.len());
    lemma_sum_same(all, values(m, both_apart(s, t)), all, both_distances(m, s, t), all.len());
}

} // verus!
