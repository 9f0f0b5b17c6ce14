//! How vertices of high degree are tied to each other.
use std::collections::{HashMap, HashSet};

use vstd::prelude::*;

use crate::graph::order::sorted_neighbors;
use crate::graph::partition::{count_edges, lemma_count_edges_step};
use crate::graph::{Edge, Graph, Network};
use crate::quantity::{compared, decides, Compared, Quantity};

verus! {

broadcast use vstd::std_specs::hash::group_hash_axioms;

/// A sum over the first `k` edges.
pub open spec fn sum_over(edges: Seq<Edge>, f: spec_fn(Edge) -> Quantity, k: nat) -> Quantity
    decreases k,
{
    if k == 0 {
        Quantity::Count(0)
    } else {
        Quantity::sum(sum_over(edges, f, (k - 1) as nat), f(edges[k - 1]))
    }
}

/// The degree of the vertex that an edge leaves.
pub open spec fn tail_degree(n: Network) -> spec_fn(Edge) -> Quantity {
    |e: Edge| Quantity::Count(n.degree(e.from) as u64)
}

/// The degree of the vertex that an edge reaches.
pub open spec fn head_degree(n: Network) -> spec_fn(Edge) -> Quantity {
    |e: Edge| Quantity::Count(n.degree(e.to) as u64)
}

pub open spec fn product_of(f: spec_fn(Edge) -> Quantity, h: spec_fn(Edge) -> Quantity) -> spec_fn(Edge) -> Quantity {
    |e: Edge| Quantity::product(f(e), h(e))
}

/// The number of edges times the sum of a product, less the product of the sums.
pub open spec fn spread(n: Network, f: spec_fn(Edge) -> Quantity, h: spec_fn(Edge) -> Quantity) -> Quantity {
    let m = n.edges.len();
    Quantity::difference(
        Quantity::product(Quantity::Count(m as u64), sum_over(n.edges, product_of(f, h), m)),
        Quantity::product(sum_over(n.edges, f, m), sum_over(n.edges, h, m)),
    )
}

/// The correlation between the degrees at the two ends of the edges; zero below two edges and where
/// the degrees do not vary.
pub open spec fn assortativity<F: Fn(&Quantity, &Quantity) -> Compared>(compare: F, n: Network) -> Quantity {
    let x = tail_degree(n);
    let y = head_degree(n);
    let den = Quantity::sqrt(Quantity::product(spread(n, x, x), spread(n, y, y)));
    if n.edges.len() < 2 || compared(compare, den, Quantity::Count(0)) is Equal {
        Quantity::Count(0)
    } else {
        Quantity::quotient(spread(n, x, y), den)
    }
}

/// Degree assortativity: Pearson correlation coefficient of degrees at either end of edges.
/// Returns 0 for graphs with fewer than 2 edges.
pub fn degree_assortativity<F: Fn(&Quantity, &Quantity) -> Compared>(g: &Graph, compare: &F) -> (r: Quantity)
    requires
        decides(*compare),
    ensures
        r == assortativity(*compare, g@),
{
    let edges = g.edges();
    let ghost n = g@;
    let ghost x = tail_degree(n);
    let ghost y = head_degree(n);
    if edges.len() < 2 {
        return Quantity::Count(0);
    }
    let mut sum_xy = Quantity::Count(0);
    let mut sum_x = Quantity::Count(0);
    let mut sum_y = Quantity::Count(0);
    let mut sum_x2 = Quantity::Count(0);
    let mut sum_y2 = Quantity::Count(0);
    let mut i: usize = 0;
    while i < edges.len()
        invariant
            n == g@,
            x == tail_degree(n),
            y == head_degree(n),
            edges@ == n.edges,
            i <= edges@.len(),
            sum_xy == sum_over(n.edges, product_of(x, y), i as nat),
            sum_x == sum_over(n.edges, x, i as nat),
            sum_y == sum_over(n.edges, y, i as nat),
            sum_x2 == sum_over(n.edges, product_of(x, x), i as nat),
            sum_y2 == sum_over(n.edges, product_of(y, y), i as nat),
        decreases edges@.len() - i,
    {
        let dx = Quantity::Count(g.neighbors(edges[i].from).len() as u64);
        let dy = Quantity::Count(g.neighbors(edges[i].to).len() as u64);
        sum_xy = sum_xy.plus(dx.clone().times(dy.clone()));
        sum_x = sum_x.plus(dx.clone());
        sum_y = sum_y.plus(dy.clone());
        sum_x2 = sum_x2.plus(dx.clone().times(dx));
        sum_y2 = sum_y2.plus(dy.clone().times(dy));
        i += 1;
    }
    let m = Quantity::Count(edges.len() as u64);
    let num = m.clone().times(sum_xy).minus(sum_x.clone().times(sum_y.clone()));
    let vx = m.clone().times(sum_x2).minus(sum_x.clone().times(sum_x));
    let vy = m.times(sum_y2).minus(sum_y.clone().times(sum_y));
    let den = vx.times(vy).square_root();
    if compare(&den, &Quantity::Count(0)) == Compared::Equal {
        Quantity::Count(0)
    } else {
        num.over(den)
    }
}

/// The vertices with more than `k` neighbors.
pub open spec fn rich(n: Network, k: nat) -> Set<u64> {
    Set::new(|v: u64| n.vertices.contains(v) && n.neighbor_set(v).len() > k)
}

/// The edges between different vertices of a set.
pub open spec fn edge_within(s: Set<u64>) -> spec_fn(Edge) -> bool {
    |e: Edge| s.contains(e.from) && s.contains(e.to) && e.to != e.from
}

/// The rich-club coefficient: of the edges that could lead from one vertex with more than `k`
/// neighbors to another, the share that does; zero where there are fewer than two such vertices.
pub open spec fn rich_club(n: Network, k: nat) -> Quantity {
    let s = rich(n, k);
    if s.len() < 2 {
        Quantity::Count(0)
    } else {
        Quantity::quotient(
            Quantity::Count(count_edges(n.edges, edge_within(s)) as u64),
            Quantity::Count((s.len() * (s.len() - 1)) as u64),
        )
    }
}

/// Whether some vertex has at least `k` neighbors.
pub open spec fn reaches_degree(n: Network, k: nat) -> bool {
    exists|v: u64| #[trigger] n.vertices.contains(v) && n.neighbor_set(v).len() >= k
}

fn count_within(edges: &Vec<Edge>, s: &HashSet<u64>) -> (r: usize)
    ensures
        r == count_edges(edges@, edge_within(s@)),
{
    let ghost p = edge_within(s@);
    let mut r: usize = 0;
    let mut i: usize = 0;
    assert(edges@.take(0) =~= Seq::empty());
    while i < edges.len()
        invariant
            p == edge_within(s@),
            i <= edges@.len(),
            r == count_edges(edges@.take(i as int), p),
            r <= i,
        decreases edges@.len() - i,
    {
        let e = edges[i];
        proof {
            lemma_count_edges_step(edges@, p, i as int);
        }
        if s.contains(&e.from) && s.contains(&e.to) && e.to != e.from {
            r += 1;
        }
        i += 1;
    }
    assert(edges@.take(i as int) =~= edges@);
    r
}

fn rich_vertices(g: &Graph, k: usize) -> (r: HashSet<u64>)
    ensures
        r@ == rich(g@, k as nat),
        r@.finite(),
        r@.len() <= g@.vertices.len(),
{
    let all = g.vertices();
    let ghost n = g@;
    let mut r: HashSet<u64> = HashSet::new();
    let mut i: usize = 0;
    while i < all.len()
        invariant
            n == g@,
            all@ == n.vertices,
            i <= all@.len(),
            r@.finite(),
            r@.len() <= i,
            forall|v: u64| #[trigger] r@.contains(v) <==> n.neighbor_set(v).len() > k && exists|j: int| 0 <= j < i && all@[j] == v,
        decreases all@.len() - i,
    {
        let list = sorted_neighbors(g, all[i]);
        proof {
            list@.unique_seq_to_set();
        }
        if list.len() > k {
            r.insert(all[i]);
        }
        i += 1;
    }
    assert(r@ =~= rich(n, k as nat));
    r
}

fn highest_degree(g: &Graph) -> (r: usize)
    requires
        g@.vertices.len() > 0,
    ensures
        forall|k: nat| #[trigger] reaches_degree(g@, k) <==> k <= r,
        r <= g@.vertices.len(),
{
    let all = g.vertices();
    let ghost n = g@;
    let mut r: usize = 0;
    let mut i: usize = 0;
    while i < all.len()
        invariant
            n == g@,
            n.wf(),
            all@ == n.vertices,
            i <= all@.len(),
            r <= n.vertices.len(),
            forall|j: int| 0 <= j < i ==> n.neighbor_set(#[trigger] all@[j]).len() <= r,
            i == 0 ==> r == 0,
            i > 0 ==> exists|v: u64| #[trigger] n.vertices.contains(v) && n.neighbor_set(v).len() == r,
        decreases all@.len() - i,
    {
        let v: u64 = all[i];
        let list = sorted_neighbors(g, v);
        proof {
            assert(n.vertices.contains(v));
            list@.unique_seq_to_set();
            assert(n.neighbor_set(v).subset_of(n.vertices.to_set())) by {
                assert forall|x: u64| n.neighbor_set(v).contains(x) implies n.vertices.to_set().contains(x) by {
                    crate::graph::lemma_neighbors(n, v, x);
                }
            }
            n.vertices.unique_seq_to_set();
            vstd::set_lib::lemma_len_subset(n.neighbor_set(v), n.vertices.to_set());
        }
        if i == 0 || list.len() > r {
            r = list.len();
        }
        i += 1;
    }
    proof {
        assert forall|k: nat| #[trigger] reaches_degree(n, k) <==> k <= r by {
            if reaches_degree(n, k) {
                let v = choose|v: u64| #[trigger] n.vertices.contains(v) && n.neighbor_set(v).len() >= k;
                assert(all@[n.vertices.index_of(v)] == v);
            }
        }
    }
    r
}

/// Rich-club coefficient for each degree threshold k up to a limit.
/// Measures the fraction of edges that exist between nodes with degree > k,
/// compared to the maximum possible edges between them.
/// Returns a map from k to rich-club coefficient.
pub fn rich_club_coefficient(g: &Graph, max_k: usize) -> (r: HashMap<usize, Quantity>)
    requires
        g@.vertices.len() * (g@.vertices.len() - 1) <= usize::MAX,
    ensures
        forall|k: usize| #[trigger] r@.contains_key(k) <==> k <= max_k && reaches_degree(g@, k as nat),
        forall|k: usize| #[trigger] r@.contains_key(k) ==> r@[k] == rich_club(g@, k as nat),
{
    let mut r: HashMap<usize, Quantity> = HashMap::new();
    let all = g.vertices();
    let edges = g.edges();
    let ghost n = g@;
    if all.len() == 0 {
        assert forall|k: usize| !reaches_degree(n, k as nat) by {
            if reaches_degree(n, k as nat) {
                let v = choose|v: u64| #[trigger] n.vertices.contains(v) && n.neighbor_set(v).len() >= k;
            }
        }
        return r;
    }
    let highest: usize = highest_degree(g);
    let limit: usize = if max_k <= highest {
        max_k
    } else {
        highest
    };
    let mut k: usize = 0;
    let mut going = true;
    while going
        invariant
            n == g@,
            edges@ == n.edges,
            n.vertices.len() * (n.vertices.len() - 1) <= usize::MAX,
            k <= limit,
            forall|j: usize| #[trigger] r@.contains_key(j) <==> j < k || (!going && j <= limit),
            forall|j: usize| #[trigger] r@.contains_key(j) ==> r@[j] == rich_club(n, j as nat),
        decreases limit - k, (if going { 1int } else { 0int }),
    {
        let members = rich_vertices(g, k);
        let count: usize = members.len();
        let phi = if count < 2 {
            Quantity::Count(0)
        } else {
            proof {
                let v = n.vertices.len();
                assert(count * (count - 1) <= v * (v - 1)) by (nonlinear_arith)
                    requires
                        2 <= count <= v,
                ;
            }
            Quantity::Count(count_within(edges, &members) as u64).over(Quantity::Count((count * (count - 1)) as u64))
        };
        r.insert(k, phi);
        if k == limit {
            going = false;
        } else {
            k += 1;
        }
    }
    r
}

} // verus!
