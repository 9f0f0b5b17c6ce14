//! How well a partition splits a graph into communities.
use std::collections::HashMap;

use vstd::prelude::*;

use crate::graph::order::holds;
use crate::graph::{lemma_neighbors, Edge, Graph, Network};
use crate::quantity::Quantity;

verus! {

broadcast use vstd::std_specs::hash::group_hash_axioms;

/// How many edges satisfy a condition.
pub open spec fn count_edges(edges: Seq<Edge>, p: spec_fn(Edge) -> bool) -> nat
    decreases edges.len(),
{
    if edges.len() == 0 {
        0
    } else {
        count_edges(edges.drop_last(), p) + if p(edges.last()) {
            1nat
        } else {
            0nat
        }
    }
}

pub proof fn lemma_count_edges_step(edges: Seq<Edge>, p: spec_fn(Edge) -> bool, i: int)
    requires
        0 <= i < edges.len(),
    ensures
        count_edges(edges.take(i + 1), p) == count_edges(edges.take(i), p) + if p(edges[i]) {
            1nat
        } else {
            0nat
        },
        count_edges(edges.take(i), p) <= i,
    decreases i,
{
    assert(edges.take(i + 1).drop_last() =~= edges.take(i));
    if i > 0 {
        lemma_count_edges_step(edges, p, i - 1);
    }
}

/// The community of a vertex, if the partition names one.
pub open spec fn community(part: Map<u64, usize>, v: u64) -> Option<usize> {
    if part.contains_key(v) {
        Some(part[v])
    } else {
        None
    }
}

fn community_of(part: &HashMap<u64, usize>, v: u64) -> (r: Option<usize>)
    ensures
        r == community(part@, v),
{
    match part.get(&v) {
        Some(c) => Some(*c),
        None => None,
    }
}

fn same_community(a: Option<usize>, b: Option<usize>) -> (r: bool)
    ensures
        r == (a == b),
{
    match (a, b) {
        (Some(x), Some(y)) => x == y,
        (None, None) => true,
        _ => false,
    }
}

/// Whether an edge connects two vertices, in either direction.
pub fn has_edge(g: &Graph, from: u64, to: u64) -> (r: bool)
    ensures
        r == g@.adjacent(from, to),
{
    proof {
        lemma_neighbors(g@, from, to);
        lemma_neighbors(g@, to, from);
    }
    holds(&g.out_edges(from), to) || holds(&g.out_edges(to), from)
}

/// What a pair of vertices of one community adds: one if they are adjacent, less the chance that
/// edges between random ends of the same degrees would give them.
pub open spec fn modularity_term(n: Network, u: u64, v: u64) -> Quantity {
    let tied = Quantity::Count(if n.adjacent(u, v) {
        1
    } else {
        0
    });
    let ends = Quantity::product(Quantity::Count(n.degree(u) as u64), Quantity::Count(n.degree(v) as u64));
    Quantity::difference(tied, Quantity::quotient(ends, twice_edges(n)))
}

pub open spec fn twice_edges(n: Network) -> Quantity {
    Quantity::product(Quantity::Count(2), Quantity::Count(n.edges.len() as u64))
}

/// A sum to which a vertex's pairs with the first `k` vertices of its community are added.
pub open spec fn modularity_row(n: Network, part: Map<u64, usize>, u: u64, k: nat, start: Quantity) -> Quantity
    decreases k,
{
    if k == 0 {
        start
    } else {
        let before = modularity_row(n, part, u, (k - 1) as nat, start);
        let v = n.vertices[k - 1];
        if community(part, u) == community(part, v) {
            Quantity::sum(before, modularity_term(n, u, v))
        } else {
            before
        }
    }
}

/// The sum over the pairs of the first `k` vertices with all vertices.
pub open spec fn modularity_sum(n: Network, part: Map<u64, usize>, k: nat) -> Quantity
    decreases k,
{
    if k == 0 {
        Quantity::Count(0)
    } else {
        modularity_row(n, part, n.vertices[k - 1], n.vertices.len(), modularity_sum(n, part, (k - 1) as nat))
    }
}

/// The modularity of a partition; zero below two vertices and without edges.
pub open spec fn modularity_of(n: Network, part: Map<u64, usize>) -> Quantity {
    if n.vertices.len() < 2 || n.edges.len() == 0 {
        Quantity::Count(0)
    } else {
        Quantity::quotient(modularity_sum(n, part, n.vertices.len()), twice_edges(n))
    }
}

/// Modularity of a given community partition.
/// `partition` maps each vertex to a community id.
/// Returns the modularity score Q (Newman-Girvan modularity).
pub fn modularity(g: &Graph, partition: &HashMap<u64, usize>) -> (r: Quantity)
    ensures
        r == modularity_of(g@, partition@),
{
    let all = g.vertices();
    let m: usize = g.edges().len();
    let ghost n = g@;
    let ghost part = partition@;
    if all.len() < 2 || m == 0 {
        return Quantity::Count(0);
    }
    let twice = Quantity::Count(2).times(Quantity::Count(m as u64));
    let mut q = Quantity::Count(0);
    let mut i: usize = 0;
    while i < all.len()
        invariant
            n == g@,
            part == partition@,
            all@ == n.vertices,
            m == n.edges.len(),
            i <= all@.len(),
            twice == twice_edges(n),
            q == modularity_sum(n, part, i as nat),
        decreases all@.len() - i,
    {
        let u: u64 = all[i];
        let cu = community_of(partition, u);
        let du: usize = g.neighbors(u).len();
        let ghost start = q;
        let mut j: usize = 0;
        while j < all.len()
            invariant
                n == g@,
                part == partition@,
                all@ == n.vertices,
                j <= all@.len(),
                cu == community(part, u),
                du == n.degree(u),
                twice == twice_edges(n),
                q == modularity_row(n, part, u, j as nat, start),
            decreases all@.len() - j,
        {
            let v: u64 = all[j];
            if same_community(cu, community_of(partition, v)) {
                let tied = Quantity::Count(if has_edge(g, u, v) {
                    1
                } else {
                    0
                });
                let ends = Quantity::Count(du as u64).times(Quantity::Count(g.neighbors(v).len() as u64));
                q = q.plus(tied.minus(ends.over(twice.clone())));
            }
            j += 1;
        }
        i += 1;
    }
    q.over(twice)
}

/// The edges that leave the vertices of a community.
pub open spec fn leaves(part: Map<u64, usize>, c: usize) -> spec_fn(Edge) -> bool {
    |e: Edge| community(part, e.from) == Some(c)
}

/// The edges that leave a community for a vertex outside of it.
pub open spec fn crosses(part: Map<u64, usize>, c: usize) -> spec_fn(Edge) -> bool {
    |e: Edge| community(part, e.from) == Some(c) && community(part, e.to) != Some(c)
}

/// The number of edges that leave the vertices of a community.
pub open spec fn volume(n: Network, part: Map<u64, usize>, c: usize) -> nat {
    count_edges(n.edges, leaves(part, c))
}

/// The number of edges from a community to the rest.
pub open spec fn cut(n: Network, part: Map<u64, usize>, c: usize) -> nat {
    count_edges(n.edges, crosses(part, c))
}

fn volume_and_cut(g: &Graph, partition: &HashMap<u64, usize>, c: usize) -> (r: (usize, usize))
    ensures
        r.0 == volume(g@, partition@, c),
        r.1 == cut(g@, partition@, c),
        r.0 <= g@.edges.len(),
{
    let edges = g.edges();
    let ghost part = partition@;
    let mut vol: usize = 0;
    let mut cut_edges: usize = 0;
    let mut i: usize = 0;
    assert(edges@.take(0) =~= Seq::empty());
    while i < edges.len()
        invariant
            part == partition@,
            i <= edges@.len(),
            vol == count_edges(edges@.take(i as int), leaves(part, c)),
            cut_edges == count_edges(edges@.take(i as int), crosses(part, c)),
            vol <= i,
            cut_edges <= i,
        decreases edges@.len() - i,
    {
        let e = edges[i];
        proof {
            lemma_count_edges_step(edges@, leaves(part, c), i as int);
            lemma_count_edges_step(edges@, crosses(part, c), i as int);
        }
        if same_community(community_of(partition, e.from), Some(c)) {
            vol += 1;
            if !same_community(community_of(partition, e.to), Some(c)) {
                cut_edges += 1;
            }
        }
        i += 1;
    }
    assert(edges@.take(i as int) =~= edges@);
    (vol, cut_edges)
}

/// Whether a map has an entry for each community of a partition, and none where there is no vertex.
pub open spec fn for_each_community<V>(n: Network, part: Map<u64, usize>, m: Map<usize, V>) -> bool {
    forall|c: usize| #[trigger] m.contains_key(c) <==> n.vertices.len() > 0 && is_community(part, c)
}

pub open spec fn is_community(part: Map<u64, usize>, c: usize) -> bool {
    exists|v: u64| #[trigger] part.contains_key(v) && part[v] == c
}

/// The conductance of a community: the edges from it to the rest, over the smaller of the edges
/// that leave its vertices and those that leave others; zero where either has none.
pub open spec fn conductance_of(n: Network, part: Map<u64, usize>, c: usize) -> Quantity {
    let vol = volume(n, part, c);
    let rest = n.edges.len() - vol;
    let least = if vol <= rest {
        vol as int
    } else {
        rest
    };
    if least == 0 {
        Quantity::Count(0)
    } else {
        Quantity::quotient(Quantity::Count(cut(n, part, c) as u64), Quantity::Count(least as u64))
    }
}

/// Conductance for each community in a partition.
/// Conductance = cut_edges / min(community_volume, rest_volume).
/// Returns a map from community id to conductance value.
pub fn conductance(g: &Graph, partition: &HashMap<u64, usize>) -> (r: HashMap<usize, Quantity>)
    ensures
        for_each_community(g@, partition@, r@),
        forall|c: usize| #[trigger] r@.contains_key(c) ==> r@[c] == conductance_of(g@, partition@, c),
{
    let mut r: HashMap<usize, Quantity> = HashMap::new();
    let ghost n = g@;
    let ghost part = partition@;
    if g.vertices().len() == 0 {
        return r;
    }
    let total: usize = g.edges().len();
    for kv in it: partition.iter()
        invariant
            n == g@,
            part == partition@,
            n.vertices.len() > 0,
            total == n.edges.len(),
            forall|j: int| 0 <= j < it.seq().len() ==> part.contains_key(*(#[trigger] it.seq()[j]).0) && part[*it.seq()[j].0] == *it.seq()[j].1,
            forall|v: u64| #[trigger] part.contains_key(v) ==> exists|j: int| 0 <= j < it.seq().len() && *(#[trigger] it.seq()[j]).0 == v,
            forall|c: usize| #[trigger] r@.contains_key(c) <==> exists|j: int| 0 <= j < it.index() && *(#[trigger] it.seq()[j]).1 == c,
            forall|c: usize| #[trigger] r@.contains_key(c) ==> r@[c] == conductance_of(n, part, c),
    {
        let c: usize = *kv.1;
        assert(*it.seq()[it.index() as int].1 == c);
        let (vol, cut_edges) = volume_and_cut(g, partition, c);
        let rest: usize = total - vol;
        let least: usize = if vol <= rest {
            vol
        } else {
            rest
        };
        let phi = if least == 0 {
            Quantity::Count(0)
        } else {
            Quantity::Count(cut_edges as u64).over(Quantity::Count(least as u64))
        };
        r.insert(c, phi);
    }
    proof {
        assert forall|c: usize| #[trigger] r@.contains_key(c) <==> is_community(part, c) by {
            if is_community(part, c) {
                let v = choose|v: u64| #[trigger] part.contains_key(v) && part[v] == c;
            }
        }
    }
    r
}

/// The normalized cut of a community: the edges from it to the rest, over the edges that leave its
/// vertices, and again over those that leave others; zero where either has none.
pub open spec fn normalized_cut_of(n: Network, part: Map<u64, usize>, c: usize) -> Quantity {
    let vol = volume(n, part, c);
    let rest = n.edges.len() - vol;
    let between = Quantity::Count(cut(n, part, c) as u64);
    if vol == 0 || rest == 0 {
        Quantity::Count(0)
    } else {
        Quantity::sum(
            Quantity::quotient(between, Quantity::Count(vol as u64)),
            Quantity::quotient(between, Quantity::Count(rest as u64)),
        )
    }
}

/// Normalized cut for each community in a partition.
/// Ncut = cut_edges / comm_vol + cut_edges / rest_vol.
pub fn normalized_cut(g: &Graph, partition: &HashMap<u64, usize>) -> (r: HashMap<usize, Quantity>)
    ensures
        for_each_community(g@, partition@, r@),
        forall|c: usize| #[trigger] r@.contains_key(c) ==> r@[c] == normalized_cut_of(g@, partition@, c),
{
    let mut r: HashMap<usize, Quantity> = HashMap::new();
    let ghost n = g@;
    let ghost part = partition@;
    if g.vertices().len() == 0 {
        return r;
    }
    let total: usize = g.edges().len();
    for kv in it: partition.iter()
        invariant
            n == g@,
            part == partition@,
            n.vertices.len() > 0,
            total == n.edges.len(),
            forall|j: int| 0 <= j < it.seq().len() ==> part.contains_key(*(#[trigger] it.seq()[j]).0) && part[*it.seq()[j].0] == *it.seq()[j].1,
            forall|v: u64| #[trigger] part.contains_key(v) ==> exists|j: int| 0 <= j < it.seq().len() && *(#[trigger] it.seq()[j]).0 == v,
            forall|c: usize| #[trigger] r@.contains_key(c) <==> exists|j: int| 0 <= j < it.index() && *(#[trigger] it.seq()[j]).1 == c,
            forall|c: usize| #[trigger] r@.contains_key(c) ==> r@[c] == normalized_cut_of(n, part, c),
    {
        let c: usize = *kv.1;
        assert(*it.seq()[it.index() as int].1 == c);
        let (vol, cut_edges) = volume_and_cut(g, partition, c);
        let rest: usize = total - vol;
        let ncut = if vol == 0 || rest == 0 {
            Quantity::Count(0)
        } else {
            let between = Quantity::Count(cut_edges as u64);
            between.clone().over(Quantity::Count(vol as u64)).plus(between.over(Quantity::Count(rest as u64)))
        };
        r.insert(c, ncut);
    }
    proof {
        assert forall|c: usize| #[trigger] r@.contains_key(c) <==> is_community(part, c) by {
            if is_community(part, c) {
                let v = choose|v: u64| #[trigger] part.contains_key(v) && part[v] == c;
            }
        }
    }
    r
}

} // verus!
