//! Centrality measures that follow from degrees and distances.
use std::collections::HashMap;

use vstd::prelude::*;

use crate::graph::betweenness::{betweenness, paths_fit};
use crate::graph::distance::{connected, is_distance, lemma_one_distance, search_from, visits_by_distance};
use crate::graph::{Graph, Network};
use crate::quantity::{reads, Quantity};

verus! {

broadcast use vstd::std_specs::hash::group_hash_axioms;

/// Whether a map holds a value for each vertex of a graph and no other.
pub open spec fn for_each_vertex<V>(n: Network, m: Map<u64, V>) -> bool {
    m.dom() == n.vertices.to_set()
}

/// The distance from one vertex to another; zero where they are not connected.
pub open spec fn steps(n: Network, u: u64, v: u64) -> nat {
    if connected(n, u, v) {
        choose|d: nat| is_distance(n, u, v, d)
    } else {
        0
    }
}

/// The sum of the distances from a vertex to the first `k` vertices of a list.
pub open spec fn total_steps(n: Network, s: u64, list: Seq<u64>, k: nat) -> nat
    decreases k,
{
    if k == 0 {
        0
    } else {
        total_steps(n, s, list, (k - 1) as nat) + steps(n, s, list[k - 1])
    }
}

/// The number of vertices other than `s` among the first `k` of a list that are connected to it.
pub open spec fn others_reached(n: Network, s: u64, list: Seq<u64>, k: nat) -> nat
    decreases k,
{
    if k == 0 {
        0
    } else {
        others_reached(n, s, list, (k - 1) as nat) + if list[k - 1] != s && connected(n, s, list[k - 1]) {
            1nat
        } else {
            0nat
        }
    }
}

/// The sum of the distances from a vertex to all vertices.
pub open spec fn steps_to_all(n: Network, s: u64) -> nat {
    total_steps(n, s, n.vertices, n.vertices.len())
}

/// The number of other vertices that are connected to a vertex.
pub open spec fn others_connected(n: Network, s: u64) -> nat {
    others_reached(n, s, n.vertices, n.vertices.len())
}

/// The distance that `steps` names.
pub proof fn lemma_steps(n: Network, u: u64, v: u64, d: nat)
    requires
        is_distance(n, u, v, d),
    ensures
        steps(n, u, v) == d,
{
    assert(connected(n, u, v));
    let c = choose|d: nat| is_distance(n, u, v, d);
    lemma_one_distance(n, u, v, c, d);
}

proof fn lemma_total_grows(n: Network, s: u64, list: Seq<u64>, j: nat, k: nat)
    requires
        j <= k,
    ensures
        total_steps(n, s, list, j) <= total_steps(n, s, list, k),
        others_reached(n, s, list, j) <= others_reached(n, s, list, k),
        others_reached(n, s, list, k) <= k,
    decreases k,
{
    if k > 0 {
        if j < k {
            lemma_total_grows(n, s, list, j, (k - 1) as nat);
        } else {
            lemma_total_grows(n, s, list, (k - 1) as nat, (k - 1) as nat);
        }
    }
}

/// The distances from a vertex, summed, and the number of other vertices that it is connected to.
fn sums_from(g: &Graph, s: u64) -> (r: (usize, usize))
    requires
        steps_to_all(g@, s) <= usize::MAX,
    ensures
        r.0 == steps_to_all(g@, s),
        r.1 == others_connected(g@, s),
{
    let found = search_from(g, s);
    let all = g.vertices();
    let ghost n = g@;
    let mut total: usize = 0;
    let mut count: usize = 0;
    let mut i: usize = 0;
    while i < all.len()
        invariant
            n == g@,
            all@ == n.vertices,
            i <= all@.len(),
            steps_to_all(n, s) <= usize::MAX,
            total == total_steps(n, s, n.vertices, i as nat),
            count == others_reached(n, s, n.vertices, i as nat),
            count <= i,
            forall|v: u64| #[trigger] found.distance@.contains_key(v) <==> connected(n, s, v),
            forall|v: u64| #[trigger] found.distance@.contains_key(v) ==> is_distance(n, s, v, found.distance@[v] as nat),
        decreases all@.len() - i,
    {
        proof {
            lemma_total_grows(n, s, n.vertices, (i + 1) as nat, n.vertices.len());
        }
        if let Some(d) = found.distance.get(&all[i]) {
            proof {
                lemma_steps(n, s, all@[i as int], *d as nat);
            }
            total += *d;
            if all[i] != s {
                count += 1;
            }
        } else {
            assert(!connected(n, s, all@[i as int]));
        }
        i += 1;
    }
    (total, count)
}

/// The sum of the distances from each of the first `k` vertices to all vertices.
pub open spec fn grand_total(n: Network, k: nat) -> nat
    decreases k,
{
    if k == 0 {
        0
    } else {
        grand_total(n, (k - 1) as nat) + steps_to_all(n, n.vertices[k - 1])
    }
}

/// The number of connected pairs that start with one of the first `k` vertices.
pub open spec fn grand_count(n: Network, k: nat) -> nat
    decreases k,
{
    if k == 0 {
        0
    } else {
        grand_count(n, (k - 1) as nat) + others_connected(n, n.vertices[k - 1])
    }
}

proof fn lemma_grand_grows(n: Network, j: nat, k: nat)
    requires
        j <= k,
    ensures
        grand_total(n, j) <= grand_total(n, k),
        grand_count(n, j) <= grand_count(n, k),
    decreases k,
{
    if j < k {
        lemma_grand_grows(n, j, (k - 1) as nat);
    }
}

/// The average over all pairs of different connected vertices of their distance; zero where there is
/// no such pair.
pub open spec fn average_steps(n: Network) -> Quantity {
    let total = grand_total(n, n.vertices.len());
    let count = grand_count(n, n.vertices.len());
    if n.vertices.len() < 2 || count == 0 {
        Quantity::Count(0)
    } else {
        Quantity::quotient(Quantity::Count(total as u64), Quantity::Count(count as u64))
    }
}

/// Average path length (undirected, unweighted). Returns 0 if fewer than 2 vertices.
pub fn average_path_length(g: &Graph) -> (r: Quantity)
    requires
        grand_total(g@, g@.vertices.len()) <= usize::MAX,
        grand_count(g@, g@.vertices.len()) <= usize::MAX,
    ensures
        r == average_steps(g@),
{
    let all = g.vertices();
    let ghost n = g@;
    if all.len() < 2 {
        return Quantity::Count(0);
    }
    let mut total: usize = 0;
    let mut count: usize = 0;
    let mut i: usize = 0;
    while i < all.len()
        invariant
            n == g@,
            all@ == n.vertices,
            i <= all@.len(),
            grand_total(n, n.vertices.len()) <= usize::MAX,
            grand_count(n, n.vertices.len()) <= usize::MAX,
            total == grand_total(n, i as nat),
            count == grand_count(n, i as nat),
        decreases all@.len() - i,
    {
        proof {
            lemma_grand_grows(n, (i + 1) as nat, n.vertices.len());
        }
        let (t, c) = sums_from(g, all[i]);
        total += t;
        count += c;
        i += 1;
    }
    if count == 0 {
        Quantity::Count(0)
    } else {
        Quantity::Count(total as u64).over(Quantity::Count(count as u64))
    }
}

/// The closeness of a vertex: the share of vertices that it reaches, times their number, over the
/// sum of their distances; zero where it reaches none.
pub open spec fn closeness(n: Network, s: u64) -> Quantity {
    let others = others_connected(n, s);
    if n.vertices.len() <= 1 || steps_to_all(n, s) == 0 || others == 0 {
        Quantity::Count(0)
    } else {
        let reached = Quantity::difference(Quantity::Count((others + 1) as u64), Quantity::Count(1));
        let rest = Quantity::difference(Quantity::Count(n.vertices.len() as u64), Quantity::Count(1));
        Quantity::quotient(
            Quantity::product(Quantity::quotient(reached, rest), reached),
            Quantity::Count(steps_to_all(n, s) as u64),
        )
    }
}

/// Closeness centrality for each vertex (undirected, unweighted).
/// Uses the standard definition: (reachable - 1) / (n - 1) * (reachable - 1) / sum_dist.
/// Returns 0 for isolated or unreachable vertices.
pub fn closeness_centrality(g: &Graph) -> (r: HashMap<u64, Quantity>)
    requires
        forall|v: u64| g@.vertices.contains(v) ==> #[trigger] steps_to_all(g@, v) <= usize::MAX,
    ensures
        for_each_vertex(g@, r@),
        forall|v: u64| #[trigger] r@.contains_key(v) ==> r@[v] == closeness(g@, v),
{
    let all = g.vertices();
    let ghost n = g@;
    let mut r: HashMap<u64, Quantity> = HashMap::new();
    let mut i: usize = 0;
    while i < all.len()
        invariant
            n == g@,
            n.wf(),
            all@ == n.vertices,
            i <= all@.len(),
            forall|v: u64| n.vertices.contains(v) ==> #[trigger] steps_to_all(n, v) <= usize::MAX,
            forall|v: u64| #[trigger] r@.contains_key(v) <==> exists|j: int| 0 <= j < i && all@[j] == v,
            forall|v: u64| #[trigger] r@.contains_key(v) ==> r@[v] == closeness(n, v),
        decreases all@.len() - i,
    {
        let s: u64 = all[i];
        assert(n.vertices.contains(s));
        let (total, others) = sums_from(g, s);
        proof {
            lemma_total_grows(n, s, n.vertices, n.vertices.len(), n.vertices.len());
            lemma_others_below(n, s, n.vertices.len());
        }
        let c = if all.len() <= 1 || total == 0 || others == 0 {
            Quantity::Count(0)
        } else {
            let reached = Quantity::Count((others + 1) as u64).minus(Quantity::Count(1));
            let rest = Quantity::Count(all.len() as u64).minus(Quantity::Count(1));
            reached.clone().over(rest).times(reached).over(Quantity::Count(total as u64))
        };
        r.insert(s, c);
        i += 1;
    }
    assert(r@.dom() =~= n.vertices.to_set());
    r
}

/// A vertex of the graph is not among the other vertices that it is connected to.
proof fn lemma_others_below(n: Network, s: u64, k: nat)
    requires
        n.wf(),
        n.vertices.contains(s),
        k <= n.vertices.len(),
    ensures
        others_reached(n, s, n.vertices, k) <= k,
        n.vertices.index_of(s) < k ==> others_reached(n, s, n.vertices, k) < k,
    decreases k,
{
    if k > 0 {
        lemma_others_below(n, s, (k - 1) as nat);
    }
}

/// The sum of the reciprocal distances of the first `k` vertices of an order.
pub open spec fn reciprocal_sum(n: Network, s: u64, order: Seq<u64>, k: nat) -> Quantity
    decreases k,
{
    if k == 0 {
        Quantity::Count(0)
    } else {
        let before = reciprocal_sum(n, s, order, (k - 1) as nat);
        let d = steps(n, s, order[k - 1]);
        if order[k - 1] != s && d > 0 {
            Quantity::sum(before, Quantity::quotient(Quantity::Count(1), Quantity::Count(d as u64)))
        } else {
            before
        }
    }
}

/// Whether a quantity sums the reciprocal distances of all vertices connected to a vertex, nearer
/// vertices first.
pub open spec fn is_harmonic(n: Network, s: u64, q: Quantity) -> bool {
    exists|order: Seq<u64>| #[trigger] visits_by_distance(n, s, order) && q == reciprocal_sum(n, s, order, order.len())
}

fn harmonic_of(g: &Graph, s: u64) -> (r: Quantity)
    ensures
        is_harmonic(g@, s, r),
{
    let order = crate::graph::distance::bfs(g, s);
    let found = search_from(g, s);
    let ghost n = g@;
    let mut r = Quantity::Count(0);
    let mut i: usize = 0;
    while i < order.len()
        invariant
            n == g@,
            i <= order@.len(),
            visits_by_distance(n, s, order@),
            r == reciprocal_sum(n, s, order@, i as nat),
            forall|v: u64| #[trigger] found.distance@.contains_key(v) <==> connected(n, s, v),
            forall|v: u64| #[trigger] found.distance@.contains_key(v) ==> is_distance(n, s, v, found.distance@[v] as nat),
        decreases order@.len() - i,
    {
        let v: u64 = order[i];
        assert(order@.contains(v));
        assert(found.distance@.contains_key(v));
        if let Some(d) = found.distance.get(&v) {
            proof {
                lemma_steps(n, s, v, *d as nat);
            }
            if v != s && *d > 0 {
                r = r.plus(Quantity::Count(1).over(Quantity::Count(*d as u64)));
            }
        }
        i += 1;
    }
    r
}

/// Harmonic centrality: sum of reciprocal distances to all other reachable vertices.
pub fn harmonic_centrality(g: &Graph) -> (r: HashMap<u64, Quantity>)
    ensures
        for_each_vertex(g@, r@),
        forall|v: u64| #[trigger] r@.contains_key(v) ==> is_harmonic(g@, v, r@[v]),
{
    let all = g.vertices();
    let mut r: HashMap<u64, Quantity> = HashMap::new();
    let mut i: usize = 0;
    while i < all.len()
        invariant
            all@ == g@.vertices,
            i <= all@.len(),
            forall|v: u64| #[trigger] r@.contains_key(v) <==> exists|j: int| 0 <= j < i && all@[j] == v,
            forall|v: u64| #[trigger] r@.contains_key(v) ==> is_harmonic(g@, v, r@[v]),
        decreases all@.len() - i,
    {
        let h = harmonic_of(g, all[i]);
        r.insert(all[i], h);
        i += 1;
    }
    assert(r@.dom() =~= g@.vertices.to_set());
    r
}

/// The degree centrality of a vertex: the number of its edges over the number of other vertices.
pub open spec fn degree_share(n: Network, v: u64) -> Quantity {
    if n.vertices.len() <= 1 {
        Quantity::Count(0)
    } else {
        Quantity::quotient(
            Quantity::Count(n.degree(v) as u64),
            Quantity::difference(Quantity::Count(n.vertices.len() as u64), Quantity::Count(1)),
        )
    }
}

/// Degree centrality: fraction of vertices a node is connected to (undirected).
pub fn degree_centrality(g: &Graph) -> (r: HashMap<u64, Quantity>)
    ensures
        for_each_vertex(g@, r@),
        forall|v: u64| #[trigger] r@.contains_key(v) ==> r@[v] == degree_share(g@, v),
{
    let all = g.vertices();
    let mut r: HashMap<u64, Quantity> = HashMap::new();
    let mut i: usize = 0;
    while i < all.len()
        invariant
            all@ == g@.vertices,
            i <= all@.len(),
            forall|v: u64| #[trigger] r@.contains_key(v) <==> exists|j: int| 0 <= j < i && all@[j] == v,
            forall|v: u64| #[trigger] r@.contains_key(v) ==> r@[v] == degree_share(g@, v),
        decreases all@.len() - i,
    {
        let c = if all.len() <= 1 {
            Quantity::Count(0)
        } else {
            let rest = Quantity::Count(all.len() as u64).minus(Quantity::Count(1));
            Quantity::Count(g.neighbors(all[i]).len() as u64).over(rest)
        };
        r.insert(all[i], c);
        i += 1;
    }
    assert(r@.dom() =~= g@.vertices.to_set());
    r
}

/// Betweenness centrality (Brandes' algorithm, unweighted, undirected), where a path and its
/// reverse count once.
pub fn betweenness_centrality<B: Fn(&Quantity) -> u64>(g: &Graph, bits: &B) -> (r: HashMap<u64, Quantity>)
    requires
        reads(*bits),
        paths_fit(g@),
    ensures
        for_each_vertex(g@, r@),
        forall|v: u64| #[trigger]
            r@.contains_key(v) ==> r@[v] == Quantity::quotient(betweenness(*bits, g@, g@.vertices.len())[v], Quantity::Count(2)),
{
    let all = g.vertices();
    let ghost n = g@;
    let cb = crate::graph::betweenness::betweenness_centrality(g, bits);
    let mut r: HashMap<u64, Quantity> = HashMap::new();
    let mut i: usize = 0;
    while i < all.len()
        invariant
            all@ == n.vertices,
            i <= all@.len(),
            for_each_vertex(n, cb@),
            cb@ == betweenness(*bits, n, n.vertices.len()),
            forall|v: u64| #[trigger] r@.contains_key(v) <==> exists|j: int| 0 <= j < i && all@[j] == v,
            forall|v: u64| #[trigger]
                r@.contains_key(v) ==> r@[v] == Quantity::quotient(betweenness(*bits, n, n.vertices.len())[v], Quantity::Count(2)),
        decreases all@.len() - i,
    {
        assert(n.vertices.contains(all@[i as int]));
        assert(n.vertices.to_set().contains(all@[i as int]));
        assert(cb@.contains_key(all@[i as int]));
        let q = match cb.get(&all[i]) {
            Some(q) => q.clone(),
            None => Quantity::Count(0),
        };
        r.insert(all[i], q.over(Quantity::Count(2)));
        i += 1;
    }
    assert(r@.dom() =~= n.vertices.to_set());
    r
}

} // verus!
