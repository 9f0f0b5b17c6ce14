//! Community detection, by labels and by modularity, and a centrality that weighs by degrees.
use std::collections::HashMap;

use vstd::prelude::*;

use crate::graph::centrality::for_each_vertex;
use crate::graph::labels::{is_used, label_count, label_of, labels_settled, own_labels, propagate, take_own_labels};
use crate::graph::partition::twice_edges;
use crate::graph::ranks::{equal_shares, scale, scaled, share_equally};
use crate::graph::scores::{
    add_up, change, covers, find_change, lemma_near_scores, score_all, score_of, scores_of, settled, total, Scores,
};
use crate::graph::{lemma_neighbors, Graph, Network};
use crate::quantity::{compared, decides, reads, Compared, Quantity};

verus! {

broadcast use vstd::std_specs::hash::group_hash_axioms;

/// Label propagation community detection.
/// Returns a map of vertex to community label; of labels that are equally frequent around a vertex
/// it takes the smallest.
pub fn label_propagation(g: &Graph, max_iter: usize) -> (r: HashMap<u64, u64>)
    ensures
        for_each_vertex(g@, r@),
        r@ == labels_settled(g@, own_labels(g@), max_iter as nat),
{
    propagate(g, max_iter)
}

/// The number of edges that leave a vertex and that reach it, each at least one.
pub open spec fn weight_of(n: Network, u: u64) -> u64 {
    let out = if n.out_of(u).len() == 0 {
        1
    } else {
        n.out_of(u).len()
    };
    let into = if n.into(u).len() == 0 {
        1
    } else {
        n.into(u).len()
    };
    (out + into) as u64
}

/// The score of a vertex, by its weight.
pub open spec fn weighed(n: Network, s: Scores) -> spec_fn(u64) -> Quantity {
    |u: u64| Quantity::quotient(s[u], Quantity::Count(weight_of(n, u)))
}

/// The scores around a vertex, each by the weight of its vertex.
pub open spec fn weighed_around<B: Fn(&Quantity) -> u64>(n: Network, bits: B, s: Scores) -> spec_fn(u64) -> Quantity {
    |v: u64| total(bits, n.neighbors(v), weighed(n, s), n.neighbors(v).len())
}

/// A step of the centrality that weighs by degrees.
pub open spec fn weighed_step<F: Fn(&Quantity, &Quantity) -> Compared, B: Fn(&Quantity) -> u64>(
    n: Network,
    compare: F,
    bits: B,
) -> spec_fn(Scores) -> Option<Scores> {
    |s: Scores| Some(scaled(n, compare, bits, scores_of(n, weighed_around(n, bits, s))))
}

/// Whether the degrees of all vertices can be told.
pub open spec fn degrees_fit(n: Network) -> bool {
    2 * n.edges.len() + 2 <= u64::MAX
}

fn find_weight(g: &Graph, u: u64) -> (r: u64)
    requires
        degrees_fit(g@),
    ensures
        r == weight_of(g@, u),
{
    let out: usize = g.out_edges(u).len();
    let into: usize = g.in_edges(u).len();
    proof {
        crate::graph::lemma_targets(g@.edges, u, u);
    }
    let a: u64 = if out == 0 {
        1
    } else {
        out as u64
    };
    let b: u64 = if into == 0 {
        1
    } else {
        into as u64
    };
    a + b
}

fn find_weighed_around<B: Fn(&Quantity) -> u64>(g: &Graph, bits: &B, s: &HashMap<u64, Quantity>, v: u64) -> (r: Quantity)
    requires
        reads(*bits),
        degrees_fit(g@),
        covers(g@, s@),
    ensures
        r == weighed_around(g@, *bits, s@)(v),
{
    let list = g.neighbors(v);
    let term = |u: u64| -> (q: Quantity)
        requires
            s@.contains_key(u),
        ensures
            q == Quantity::quotient(s@[u], Quantity::Count(weight_of(g@, u))),
        { score_of(s, u).over(Quantity::Count(find_weight(g, u))) };
    proof {
        lemma_near_scores(g@, s@, v);
    }
    add_up(bits, &list, &term, Ghost(weighed(g@, s@)))
}

/// Eigenvector centrality by power iteration, where each vertex is weighed by its degree. It ends
/// after `max_iter` steps, or once a step changes less than `epsilon`.
pub fn eigenvector_centrality<F: Fn(&Quantity, &Quantity) -> Compared, B: Fn(&Quantity) -> u64>(
    g: &Graph,
    compare: &F,
    bits: &B,
    max_iter: usize,
    epsilon: &Quantity,
) -> (r: HashMap<u64, Quantity>)
    requires
        decides(*compare),
        reads(*bits),
        degrees_fit(g@),
    ensures
        r@ == settled(
            *compare,
            weighed_step(g@, *compare, *bits),
            change(g@, *bits),
            *epsilon,
            scores_of(g@, equal_shares(g@)),
            max_iter as nat,
        ),
        covers(g@, r@),
{
    let mut s = share_equally(g);
    let ghost step = weighed_step(g@, *compare, *bits);
    let ghost whole = settled(*compare, step, change(g@, *bits), *epsilon, s@, max_iter as nat);
    let mut i: usize = 0;
    while i < max_iter
        invariant
            decides(*compare),
            reads(*bits),
            degrees_fit(g@),
            whole == settled(*compare, step, change(g@, *bits), *epsilon, scores_of(g@, equal_shares(g@)), max_iter as nat),
            i <= max_iter,
            step == weighed_step(g@, *compare, *bits),
            covers(g@, s@),
            whole == settled(*compare, step, change(g@, *bits), *epsilon, s@, (max_iter - i) as nat),
        decreases max_iter - i,
    {
        let value = |v: u64| -> (q: Quantity)
            ensures
                q == weighed_around(g@, *bits, s@)(v),
            { find_weighed_around(g, bits, &s, v) };
        let raw = score_all(g, &value, Ghost(weighed_around(g@, *bits, s@)));
        let t = scale(g, compare, bits, raw);
        let delta = find_change(g, bits, &s, &t);
        assert(step(s@) == Some(t@));
        let c = compare(&delta, epsilon);
        s = t;
        if c == Compared::Less {
            return s;
        }
        i += 1;
    }
    s
}

/// The degree of a vertex that is in a community and is not a given one; nothing for others.
pub open spec fn degree_within(n: Network, labels: Map<u64, u64>, c: u64, except: u64) -> spec_fn(u64) -> Quantity {
    |w: u64|
        Quantity::Count(
            if labels[w] == c && w != except {
                n.degree(w) as u64
            } else {
                0
            },
        )
}

/// How often a community stands around a vertex.
pub open spec fn ties(n: Network, labels: Map<u64, u64>, v: u64, c: u64) -> Quantity {
    Quantity::Count(label_count(n.neighbors(v), labels, n.neighbors(v).len(), c) as u64)
}

/// How much the modularity grows where a vertex moves to a community.
pub open spec fn gain<B: Fn(&Quantity) -> u64>(n: Network, bits: B, labels: Map<u64, u64>, v: u64, c: u64) -> Quantity {
    let m = twice_edges(n);
    let degree = Quantity::Count(n.degree(v) as u64);
    let others = total(bits, n.vertices, degree_within(n, labels, c, v), n.vertices.len());
    if c == labels[v] {
        Quantity::Count(0)
    } else {
        Quantity::sum(
            Quantity::difference(
                Quantity::quotient(Quantity::difference(ties(n, labels, v, c), ties(n, labels, v, labels[v])), m),
                Quantity::quotient(
                    Quantity::product(degree, Quantity::sum(others, degree)),
                    Quantity::product(m, m),
                ),
            ),
            Quantity::quotient(Quantity::product(degree, degree), Quantity::product(m, m)),
        )
    }
}

/// The best community among those of the first `k` vertices around a vertex, and its gain: the first
/// one that gains more than those before it. A vertex stays where nothing gains.
pub open spec fn best_move<F: Fn(&Quantity, &Quantity) -> Compared, B: Fn(&Quantity) -> u64>(
    n: Network,
    compare: F,
    bits: B,
    labels: Map<u64, u64>,
    v: u64,
    k: nat,
) -> (u64, Quantity)
    decreases k,
{
    if k == 0 {
        (labels[v], Quantity::Count(0))
    } else {
        let before = best_move(n, compare, bits, labels, v, (k - 1) as nat);
        let c = labels[n.neighbors(v)[k - 1]];
        let g = gain(n, bits, labels, v, c);
        if compared(compare, g, before.1) is Greater {
            (c, g)
        } else {
            before
        }
    }
}

/// The communities after the first `k` vertices have moved.
pub open spec fn moved<F: Fn(&Quantity, &Quantity) -> Compared, B: Fn(&Quantity) -> u64>(
    n: Network,
    compare: F,
    bits: B,
    labels: Map<u64, u64>,
    k: nat,
) -> Map<u64, u64>
    decreases k,
{
    if k == 0 {
        labels
    } else {
        let before = moved(n, compare, bits, labels, (k - 1) as nat);
        let v = n.vertices[k - 1];
        before.insert(v, best_move(n, compare, bits, before, v, n.neighbors(v).len()).0)
    }
}

/// The communities after up to `k` rounds over all vertices; a round in which no vertex moves is the
/// last.
pub open spec fn moved_until_settled<F: Fn(&Quantity, &Quantity) -> Compared, B: Fn(&Quantity) -> u64>(
    n: Network,
    compare: F,
    bits: B,
    labels: Map<u64, u64>,
    k: nat,
) -> Map<u64, u64>
    decreases k,
{
    if k == 0 {
        labels
    } else {
        let next = moved(n, compare, bits, labels, n.vertices.len());
        if next == labels {
            labels
        } else {
            moved_until_settled(n, compare, bits, next, (k - 1) as nat)
        }
    }
}

/// Whether each vertex of a graph has a label.
pub open spec fn all_labeled(n: Network, labels: Map<u64, u64>) -> bool {
    labels.dom() == n.vertices.to_set()
}

proof fn lemma_labeled(n: Network, labels: Map<u64, u64>)
    requires
        n.wf(),
        all_labeled(n, labels),
    ensures
        forall|i: int| 0 <= i < n.vertices.len() ==> labels.contains_key(#[trigger] n.vertices[i]),
        forall|v: u64, i: int| 0 <= i < n.neighbors(v).len() ==> labels.contains_key(#[trigger] n.neighbors(v)[i]),
{
    assert forall|i: int| 0 <= i < n.vertices.len() implies labels.contains_key(#[trigger] n.vertices[i]) by {
        assert(n.vertices.to_set().contains(n.vertices[i]));
    }
    assert forall|v: u64, i: int| 0 <= i < n.neighbors(v).len() implies labels.contains_key(#[trigger] n.neighbors(v)[i]) by {
        let u = n.neighbors(v)[i];
        lemma_neighbors(n, v, u);
        assert(n.neighbors(v).contains(u));
        assert(n.vertices.to_set().contains(u));
    }
}

fn count_label(list: &Vec<u64>, labels: &HashMap<u64, u64>, c: u64) -> (r: u64)
    requires
        forall|i: int| 0 <= i < list@.len() ==> labels@.contains_key(#[trigger] list@[i]),
    ensures
        r == label_count(list@, labels@, list@.len(), c),
{
    let mut r: u64 = 0;
    let mut i: usize = 0;
    while i < list.len()
        invariant
            forall|j: int| 0 <= j < list@.len() ==> labels@.contains_key(#[trigger] list@[j]),
            i <= list@.len(),
            r == label_count(list@, labels@, i as nat, c),
            r <= i,
        decreases list@.len() - i,
    {
        if label_of(labels, list[i]) == c {
            r += 1;
        }
        i += 1;
    }
    r
}

fn find_ties(list: &Vec<u64>, labels: &HashMap<u64, u64>, c: u64) -> (r: Quantity)
    requires
        forall|i: int| 0 <= i < list@.len() ==> labels@.contains_key(#[trigger] list@[i]),
    ensures
        r == Quantity::Count(label_count(list@, labels@, list@.len(), c) as u64),
{
    Quantity::Count(count_label(list, labels, c))
}

fn find_gain<B: Fn(&Quantity) -> u64>(g: &Graph, bits: &B, labels: &HashMap<u64, u64>, v: u64, c: u64) -> (r: Quantity)
    requires
        reads(*bits),
        all_labeled(g@, labels@),
        labels@.contains_key(v),
    ensures
        r == gain(g@, *bits, labels@, v, c),
{
    let current: u64 = label_of(labels, v);
    if c == current {
        return Quantity::Count(0);
    }
    let all = g.vertices();
    let list = g.neighbors(v);
    let term = |w: u64| -> (q: Quantity)
        requires
            labels@.contains_key(w),
        ensures
            q == degree_within(g@, labels@, c, v)(w),
        {
            Quantity::Count(
                if label_of(labels, w) == c && w != v {
                    g.neighbors(w).len() as u64
                } else {
                    0
                },
            )
        };
    proof {
        lemma_labeled(g@, labels@);
    }
    let others = add_up(bits, all, &term, Ghost(degree_within(g@, labels@, c, v)));
    let here = find_ties(&list, labels, current);
    let there = find_ties(&list, labels, c);
    let m = Quantity::Count(2).times(Quantity::Count(g.edges().len() as u64));
    let degree = Quantity::Count(list.len() as u64);
    let tied = there.minus(here).over(m.clone());
    let apart = degree.clone().times(others.plus(degree.clone())).over(m.clone().times(m.clone()));
    let own = degree.clone().times(degree).over(m.clone().times(m));
    tied.minus(apart).plus(own)
}

fn find_best_move<F: Fn(&Quantity, &Quantity) -> Compared, B: Fn(&Quantity) -> u64>(
    g: &Graph,
    compare: &F,
    bits: &B,
    labels: &HashMap<u64, u64>,
    v: u64,
) -> (r: u64)
    requires
        decides(*compare),
        reads(*bits),
        all_labeled(g@, labels@),
        labels@.contains_key(v),
    ensures
        r == best_move(g@, *compare, *bits, labels@, v, g@.neighbors(v).len()).0,
{
    let list = g.neighbors(v);
    let mut best: u64 = label_of(labels, v);
    let mut best_gain = Quantity::Count(0);
    let mut i: usize = 0;
    proof {
        lemma_labeled(g@, labels@);
    }
    while i < list.len()
        invariant
            decides(*compare),
            reads(*bits),
            all_labeled(g@, labels@),
            labels@.contains_key(v),
            list@ == g@.neighbors(v),
            forall|j: int| 0 <= j < list@.len() ==> labels@.contains_key(#[trigger] list@[j]),
            i <= list@.len(),
            (best, best_gain) == best_move(g@, *compare, *bits, labels@, v, i as nat),
        decreases list@.len() - i,
    {
        let c: u64 = label_of(labels, list[i]);
        let found = find_gain(g, bits, labels, v, c);
        if compare(&found, &best_gain) == Compared::Greater {
            best = c;
            best_gain = found;
        }
        i += 1;
    }
    best
}

proof fn lemma_moves_keep_domain<F: Fn(&Quantity, &Quantity) -> Compared, B: Fn(&Quantity) -> u64>(
    n: Network,
    compare: F,
    bits: B,
    labels: Map<u64, u64>,
    k: nat,
)
    requires
        all_labeled(n, labels),
        k <= n.vertices.len(),
    ensures
        all_labeled(n, moved(n, compare, bits, labels, k)),
    decreases k,
{
    if k > 0 {
        lemma_moves_keep_domain(n, compare, bits, labels, (k - 1) as nat);
        let before = moved(n, compare, bits, labels, (k - 1) as nat);
        let v = n.vertices[k - 1];
        assert(n.vertices.contains(v));
        assert(moved(n, compare, bits, labels, k).dom() =~= n.vertices.to_set());
    }
}

/// A vertex that has not yet had its turn stays where it was.
proof fn lemma_move_waits<F: Fn(&Quantity, &Quantity) -> Compared, B: Fn(&Quantity) -> u64>(
    n: Network,
    compare: F,
    bits: B,
    labels: Map<u64, u64>,
    k: nat,
    j: int,
)
    requires
        n.wf(),
        k <= j < n.vertices.len(),
    ensures
        moved(n, compare, bits, labels, k)[n.vertices[j]] == labels[n.vertices[j]],
    decreases k,
{
    if k > 0 {
        lemma_move_waits(n, compare, bits, labels, (k - 1) as nat, j);
    }
}

proof fn lemma_move_is_to_used<F: Fn(&Quantity, &Quantity) -> Compared, B: Fn(&Quantity) -> u64>(
    n: Network,
    compare: F,
    bits: B,
    labels: Map<u64, u64>,
    v: u64,
    k: nat,
)
    requires
        n.wf(),
        all_labeled(n, labels),
        labels.contains_key(v),
        k <= n.neighbors(v).len(),
    ensures
        is_used(labels, best_move(n, compare, bits, labels, v, k).0),
    decreases k,
{
    if k > 0 {
        lemma_move_is_to_used(n, compare, bits, labels, v, (k - 1) as nat);
        lemma_labeled(n, labels);
        assert(labels.contains_key(n.neighbors(v)[k - 1]));
    }
}

/// Moving makes no communities: every community after the first `k` vertices have moved was one
/// before.
pub proof fn moving_makes_no_communities<F: Fn(&Quantity, &Quantity) -> Compared, B: Fn(&Quantity) -> u64>(
    n: Network,
    compare: F,
    bits: B,
    labels: Map<u64, u64>,
    k: nat,
    v: u64,
)
    requires
        n.wf(),
        all_labeled(n, labels),
        k <= n.vertices.len(),
        n.vertices.contains(v),
    ensures
        is_used(labels, moved(n, compare, bits, labels, k)[v]),
    decreases k,
{
    if k == 0 {
        assert(n.vertices.to_set().contains(v));
        assert(labels.contains_key(v));
    } else {
        let before = moved(n, compare, bits, labels, (k - 1) as nat);
        let w = n.vertices[k - 1];
        lemma_moves_keep_domain(n, compare, bits, labels, (k - 1) as nat);
        if v == w {
            assert(n.vertices.to_set().contains(w));
            lemma_move_is_to_used(n, compare, bits, before, w, n.neighbors(w).len());
            let c = best_move(n, compare, bits, before, w, n.neighbors(w).len()).0;
            let x = choose|x: u64| #[trigger] before.contains_key(x) && before[x] == c;
            assert(n.vertices.to_set().contains(x));
            moving_makes_no_communities(n, compare, bits, labels, (k - 1) as nat, x);
        } else {
            moving_makes_no_communities(n, compare, bits, labels, (k - 1) as nat, v);
        }
    }
}

/// Louvain modularity optimization, without the merging of communities: each vertex starts in a
/// community of its own and moves, in turn, to the community around it where the modularity grows
/// most, until no vertex moves or a hundred rounds are over.
pub fn louvain<F: Fn(&Quantity, &Quantity) -> Compared, B: Fn(&Quantity) -> u64>(
    g: &Graph,
    compare: &F,
    bits: &B,
) -> (r: HashMap<u64, u64>)
    requires
        decides(*compare),
        reads(*bits),
    ensures
        r@ == if g@.edges.len() == 0 {
            own_labels(g@)
        } else {
            moved_until_settled(g@, *compare, *bits, own_labels(g@), 100)
        },
        for_each_vertex(g@, r@),
{
    let mut labels = take_own_labels(g);
    if g.edges().len() == 0 {
        return labels;
    }
    let all = g.vertices();
    let ghost n = g@;
    let ghost whole = moved_until_settled(n, *compare, *bits, labels@, 100);
    let mut changed = true;
    let mut round: usize = 0;
    while changed && round < 100
        invariant
            decides(*compare),
            reads(*bits),
            n == g@,
            n.wf(),
            all@ == n.vertices,
            round <= 100,
            all_labeled(n, labels@),
            changed ==> whole == moved_until_settled(n, *compare, *bits, labels@, (100 - round) as nat),
            !changed ==> whole == labels@,
        decreases 100 - round,
    {
        let ghost start = labels@;
        changed = false;
        round += 1;
        let mut i: usize = 0;
        while i < all.len()
            invariant
                decides(*compare),
                reads(*bits),
                n == g@,
                n.wf(),
                all@ == n.vertices,
                i <= all@.len(),
                all_labeled(n, start),
                all_labeled(n, labels@),
                labels@ == moved(n, *compare, *bits, start, i as nat),
                changed <==> labels@ != start,
                changed ==> exists|j: int| 0 <= j < i && labels@[#[trigger] all@[j]] != start[all@[j]],
            decreases all@.len() - i,
        {
            let v: u64 = all[i];
            let ghost before = labels@;
            proof {
                lemma_labeled(n, labels@);
                lemma_move_waits(n, *compare, *bits, start, i as nat, i as int);
                lemma_moves_keep_domain(n, *compare, *bits, start, (i + 1) as nat);
            }
            let best: u64 = find_best_move(g, compare, bits, &labels, v);
            if best != label_of(&labels, v) {
                labels.insert(v, best);
                changed = true;
                assert(labels@[all@[i as int]] != start[all@[i as int]]);
            } else {
                assert(labels@.insert(v, best) =~= labels@);
            }
            proof {
                if before != start {
                    let j = choose|j: int| 0 <= j < i && before[#[trigger] all@[j]] != start[all@[j]];
                    assert(all@[j] != v);
                    assert(labels@[all@[j]] != start[all@[j]]);
                }
            }
            i += 1;
        }
    }
    labels
}

} // verus!
