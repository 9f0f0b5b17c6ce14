//! Triangles, clustering and density. Edges are taken in both directions.
use std::collections::{HashMap, HashSet};

use vstd::prelude::*;

use crate::graph::centrality::{
    average_path_length, average_steps, for_each_vertex, grand_count, grand_total,
};
use crate::graph::order::{ascending, sorted_neighbors};
use crate::graph::{lemma_neighbors, Graph, Network};
use crate::quantity::{compared, decides, Compared, Quantity};

verus! {

broadcast use vstd::std_specs::hash::group_hash_axioms;

/// Whether no edge leads from a vertex to itself.
pub open spec fn loop_free(n: Network) -> bool {
    forall|v: u64| !#[trigger] n.edge(v, v)
}

/// Two adjacent vertices, the lower first, and a vertex adjacent to both.
pub open spec fn is_tied_triple(n: Network, t: (u64, u64, u64)) -> bool {
    t.0 < t.1 && n.adjacent(t.0, t.1) && n.adjacent(t.0, t.2) && n.adjacent(t.1, t.2)
}

pub open spec fn tied_triples(n: Network) -> Set<(u64, u64, u64)> {
    Set::new(|t: (u64, u64, u64)| is_tied_triple(n, t))
}

/// Three vertices that are adjacent to each other, in ascending order.
pub open spec fn triangles(n: Network) -> Set<(u64, u64, u64)> {
    Set::new(|t: (u64, u64, u64)| is_tied_triple(n, t) && t.1 < t.2)
}

/// Those of a set of vertices that are adjacent to a vertex.
fn count_common(list: &Vec<u64>, near: &HashSet<u64>) -> (r: usize)
    requires
        list@.no_duplicates(),
    ensures
        r == list@.to_set().intersect(near@).len(),
{
    let mut r: usize = 0;
    let mut i: usize = 0;
    assert(list@.take(0).to_set().intersect(near@) =~= Set::<u64>::empty());
    while i < list.len()
        invariant
            list@.no_duplicates(),
            i <= list@.len(),
            r <= i,
            r == list@.take(i as int).to_set().intersect(near@).len(),
        decreases list@.len() - i,
    {
        proof {
            let x = list@[i as int];
            let s = list@.take(i as int);
            let t = list@.take(i + 1);
            assert forall|v: u64| t.to_set().contains(v) <==> s.to_set().insert(x).contains(v) by {
                if s.contains(v) {
                    assert(t[s.index_of(v)] == v);
                }
                assert(t[i as int] == x);
                if t.contains(v) && v != x {
                    assert(s[t.index_of(v)] == v);
                }
            }
            assert(!s.contains(x)) by {
                if s.contains(x) {
                    assert(list@[s.index_of(x)] == x);
                }
            }
            if near@.contains(x) {
                assert(t.to_set().intersect(near@) =~= s.to_set().intersect(near@).insert(x));
            } else {
                assert(t.to_set().intersect(near@) =~= s.to_set().intersect(near@));
            }
        }
        if near.contains(&list[i]) {
            r += 1;
        }
        i += 1;
    }
    assert(list@.take(i as int) =~= list@);
    r
}

/// The triples at the vertices of a list.
spec fn triples_at(n: Network, done: Seq<u64>) -> Set<(u64, u64, u64)> {
    Set::new(|t: (u64, u64, u64)| is_tied_triple(n, t) && done.contains(t.0))
}

/// The triples at a vertex whose second member stands in a list.
spec fn triples_over(n: Network, v: u64, done: Seq<u64>) -> Set<(u64, u64, u64)> {
    Set::new(|t: (u64, u64, u64)| is_tied_triple(n, t) && t.0 == v && done.contains(t.1))
}

/// The triples with two given members.
spec fn triples_of(n: Network, v: u64, w: u64) -> Set<(u64, u64, u64)> {
    Set::new(|t: (u64, u64, u64)| is_tied_triple(n, t) && t.0 == v && t.1 == w)
}

proof fn lemma_triples_of(n: Network, v: u64, w: u64)
    requires
        v < w,
        n.adjacent(v, w),
    ensures
        triples_of(n, v, w).finite(),
        triples_of(n, v, w).len() == n.neighbor_set(v).intersect(n.neighbor_set(w)).len(),
{
    let a = n.neighbor_set(v).intersect(n.neighbor_set(w));
    let f = |c: u64| (v, w, c);
    assert forall|t: (u64, u64, u64)| triples_of(n, v, w).contains(t) <==> a.map(f).contains(t) by {
        lemma_neighbors(n, v, t.2);
        lemma_neighbors(n, w, t.2);
        if triples_of(n, v, w).contains(t) {
            assert(a.contains(t.2));
            assert(f(t.2) == t);
        }
        if a.map(f).contains(t) {
            let c = choose|c: u64| a.contains(c) && f(c) == t;
            assert(c == t.2);
        }
    }
    assert(triples_of(n, v, w) =~= a.map(f));
    a.lemma_map_finite(f);
    vstd::set_lib::lemma_map_size(a, a.map(f), f);
}

/// The sum over the neighbors above a vertex of the number of neighbors that the two share.
fn count_over(g: &Graph, v: u64, limit: usize) -> (r: usize)
    requires
        g@.vertices.contains(v),
        triples_at(g@, seq![v]).len() <= limit,
        triples_at(g@, seq![v]).finite(),
    ensures
        r == triples_at(g@, seq![v]).len(),
{
    let ghost n = g@;
    let list = sorted_neighbors(g, v);
    let ghost whole = triples_at(n, seq![v]);
    let mut r: usize = 0;
    let mut i: usize = 0;
    assert(triples_over(n, v, list@.take(0)) =~= Set::empty());
    while i < list.len()
        invariant
            n == g@,
            n.wf(),
            ascending(list@),
            list@.no_duplicates(),
            list@.to_set() == n.neighbor_set(v),
            i <= list@.len(),
            whole == triples_at(n, seq![v]),
            whole.finite(),
            whole.len() <= limit,
            triples_over(n, v, list@.take(i as int)).finite(),
            r == triples_over(n, v, list@.take(i as int)).len(),
        decreases list@.len() - i,
    {
        let w: u64 = list[i];
        let ghost a = triples_over(n, v, list@.take(i as int));
        let ghost b = triples_over(n, v, list@.take(i + 1));
        proof {
            let s = list@.take(i as int);
            let t = list@.take(i + 1);
            assert forall|x: u64| t.contains(x) <==> s.contains(x) || x == w by {
                if s.contains(x) {
                    assert(t[s.index_of(x)] == x);
                }
                assert(t[i as int] == w);
                if t.contains(x) && x != w {
                    assert(s[t.index_of(x)] == x);
                }
            }
            assert(!s.contains(w)) by {
                if s.contains(w) {
                    assert(list@[s.index_of(w)] == w);
                }
            }
            lemma_neighbors(n, v, w);
            assert(list@.contains(w));
            assert(n.neighbor_set(v).contains(w));
            if w > v {
                let c = triples_of(n, v, w);
                lemma_triples_of(n, v, w);
                assert(b =~= a + c);
                assert(a.disjoint(c));
                vstd::set_lib::lemma_set_disjoint_lens(a, c);
                assert(b.subset_of(whole)) by {
                    assert forall|t: (u64, u64, u64)| b.contains(t) implies whole.contains(t) by {
                        assert(seq![v][0] == v);
                    }
                }
                vstd::set_lib::lemma_len_subset(b, whole);
            } else {
                assert(b =~= a);
            }
        }
        if w > v {
            r += count_common(&list, &g.neighbor_set(w));
        }
        i += 1;
    }
    proof {
        assert(list@.take(i as int) =~= list@);
        assert forall|t: (u64, u64, u64)| triples_over(n, v, list@).contains(t) <==> whole.contains(t) by {
            assert(seq![v][0] == v);
            lemma_neighbors(n, v, t.1);
            if whole.contains(t) {
                assert(t.0 == v);
                assert(list@.to_set().contains(t.1));
            }
        }
        assert(triples_over(n, v, list@) =~= whole);
    }
    r
}

proof fn lemma_triples_finite(n: Network)
    requires
        n.wf(),
    ensures
        tied_triples(n).finite(),
{
    let v = n.vertices.to_set();
    lemma_product_finite(v, v);
    let triples = Set::new(|p: ((u64, u64), u64)| product(v, v).contains(p.0) && v.contains(p.1));
    lemma_product_finite(product(v, v), v);
    assert(product(product(v, v), v) =~= triples);
    let f = |p: ((u64, u64), u64)| (p.0.0, p.0.1, p.1);
    triples.lemma_map_finite(f);
    assert(tied_triples(n).subset_of(triples.map(f))) by {
        assert forall|t: (u64, u64, u64)| tied_triples(n).contains(t) implies triples.map(f).contains(t) by {
            lemma_neighbors(n, t.0, t.1);
            lemma_neighbors(n, t.0, t.2);
            let p = ((t.0, t.1), t.2);
            assert(product(v, v).contains(p.0));
            assert(triples.contains(p) && f(p) == t);
        }
    }
    vstd::set_lib::lemma_set_subset_finite(triples.map(f), tied_triples(n));
}

spec fn product<A, B>(a: Set<A>, b: Set<B>) -> Set<(A, B)> {
    Set::new(|p: (A, B)| a.contains(p.0) && b.contains(p.1))
}

proof fn lemma_product_finite<A, B>(a: Set<A>, b: Set<B>)
    requires
        a.finite(),
        b.finite(),
    ensures
        product(a, b).finite(),
    decreases a.len(),
{
    if a.len() == 0 {
        assert(product(a, b) =~= Set::empty());
    } else {
        let x = a.choose();
        lemma_product_finite(a.remove(x), b);
        let f = |y: B| (x, y);
        b.lemma_map_finite(f);
        assert forall|p: (A, B)| product(a, b).contains(p) <==> (product(a.remove(x), b) + b.map(f)).contains(p) by {
            if product(a, b).contains(p) && p.0 == x {
                assert(f(p.1) == p);
            }
        }
        assert(product(a, b) =~= product(a.remove(x), b) + b.map(f));
        vstd::set_lib::lemma_set_union_finite_iff(product(a.remove(x), b), b.map(f));
    }
}

/// The number of triangles: a third of the number of vertices that close a pair of adjacent ones.
pub fn triangle_count(g: &Graph) -> (r: usize)
    requires
        tied_triples(g@).len() <= usize::MAX,
    ensures
        r == tied_triples(g@).len() / 3,
{
    let all = g.vertices();
    let ghost n = g@;
    let ghost whole = tied_triples(n);
    proof {
        lemma_triples_finite(n);
        assert(triples_at(n, all@.take(0)) =~= Set::empty());
    }
    let mut count: usize = 0;
    let mut i: usize = 0;
    while i < all.len()
        invariant
            n == g@,
            n.wf(),
            all@ == n.vertices,
            i <= all@.len(),
            whole == tied_triples(n),
            whole.finite(),
            whole.len() <= usize::MAX,
            triples_at(n, all@.take(i as int)).finite(),
            count == triples_at(n, all@.take(i as int)).len(),
        decreases all@.len() - i,
    {
        let v: u64 = all[i];
        proof {
            let s = all@.take(i as int);
            let t = all@.take(i + 1);
            assert(n.vertices.contains(v));
            assert forall|x: u64| t.contains(x) <==> s.contains(x) || x == v by {
                if s.contains(x) {
                    assert(t[s.index_of(x)] == x);
                }
                assert(t[i as int] == v);
                if t.contains(x) && x != v {
                    assert(s[t.index_of(x)] == x);
                }
            }
            assert(!s.contains(v)) by {
                if s.contains(v) {
                    assert(all@[s.index_of(v)] == v);
                }
            }
            let a = triples_at(n, s);
            let b = triples_at(n, seq![v]);
            assert(seq![v][0] == v);
            assert(b.subset_of(whole));
            vstd::set_lib::lemma_set_subset_finite(whole, b);
            assert(triples_at(n, t) =~= a + b);
            assert(a.disjoint(b));
            vstd::set_lib::lemma_set_disjoint_lens(a, b);
            assert((a + b).subset_of(whole));
            vstd::set_lib::lemma_len_subset(a + b, whole);
        }
        count += count_over(g, v, usize::MAX - count);
        i += 1;
    }
    proof {
        assert(all@.take(i as int) =~= all@);
        assert forall|t: (u64, u64, u64)| whole.contains(t) implies triples_at(n, all@).contains(t) by {
            lemma_neighbors(n, t.0, t.1);
        }
        assert(triples_at(n, all@) =~= whole);
    }
    count / 3
}

proof fn lemma_turned(n: Network, part: Set<(u64, u64, u64)>, f: spec_fn((u64, u64, u64)) -> (u64, u64, u64))
    requires
        triangles(n).finite(),
        part == triangles(n).map(f),
        vstd::relations::injective(f),
    ensures
        part.finite(),
        part.len() == triangles(n).len(),
{
    triangles(n).lemma_map_finite(f);
    vstd::set_lib::lemma_map_size(triangles(n), part, f);
}

/// Where no edge leads from a vertex to itself, each triangle closes three pairs: the count of
/// triangles is exact.
pub proof fn each_triangle_is_counted_thrice(n: Network)
    requires
        n.wf(),
        loop_free(n),
    ensures
        tied_triples(n).len() == 3 * triangles(n).len(),
        tied_triples(n).len() / 3 == triangles(n).len(),
{
    lemma_triples_finite(n);
    let all = tied_triples(n);
    let t = triangles(n);
    assert(t.subset_of(all));
    vstd::set_lib::lemma_set_subset_finite(all, t);
    let mid = Set::new(|p: (u64, u64, u64)| is_tied_triple(n, p) && p.0 < p.2 < p.1);
    let low = Set::new(|p: (u64, u64, u64)| is_tied_triple(n, p) && p.2 < p.0);
    let f = |p: (u64, u64, u64)| (p.0, p.2, p.1);
    let h = |p: (u64, u64, u64)| (p.1, p.2, p.0);
    assert forall|p: (u64, u64, u64)| mid.contains(p) <==> t.map(f).contains(p) by {
        if mid.contains(p) {
            lemma_neighbors(n, p.1, p.2);
            let q = (p.0, p.2, p.1);
            assert(t.contains(q) && f(q) == p);
        }
        if t.map(f).contains(p) {
            let q = choose|q: (u64, u64, u64)| t.contains(q) && f(q) == p;
            lemma_neighbors(n, q.1, q.2);
        }
    }
    assert(mid =~= t.map(f));
    assert forall|p: (u64, u64, u64)| low.contains(p) <==> t.map(h).contains(p) by {
        if low.contains(p) {
            lemma_neighbors(n, p.0, p.2);
            lemma_neighbors(n, p.1, p.2);
            let q = (p.2, p.0, p.1);
            assert(t.contains(q) && h(q) == p);
        }
        if t.map(h).contains(p) {
            let q = choose|q: (u64, u64, u64)| t.contains(q) && h(q) == p;
            lemma_neighbors(n, q.0, q.2);
            lemma_neighbors(n, q.0, q.1);
        }
    }
    assert(low =~= t.map(h));
    lemma_turned(n, mid, f);
    lemma_turned(n, low, h);
    assert forall|p: (u64, u64, u64)| all.contains(p) <==> (t + mid + low).contains(p) by {
        if all.contains(p) {
            assert(!n.edge(p.0, p.0));
            assert(!n.edge(p.1, p.1));
        }
    }
    assert(all =~= t + mid + low);
    vstd::set_lib::lemma_set_disjoint_lens(t, mid);
    vstd::set_lib::lemma_set_disjoint_lens(t + mid, low);
}

/// Two adjacent members of a set, the lower first.
pub open spec fn is_tied_pair(n: Network, s: Set<u64>, p: (u64, u64)) -> bool {
    p.0 < p.1 && s.contains(p.0) && s.contains(p.1) && n.adjacent(p.0, p.1)
}

pub open spec fn tied_pairs(n: Network, s: Set<u64>) -> Set<(u64, u64)> {
    Set::new(|p: (u64, u64)| is_tied_pair(n, s, p))
}

/// The local clustering coefficient of a vertex: of the pairs of its neighbors, the share that is
/// adjacent; zero where it has fewer than two neighbors.
pub open spec fn local_clustering(n: Network, v: u64) -> Quantity {
    let s = n.neighbor_set(v);
    if s.len() < 2 {
        Quantity::Count(0)
    } else {
        Quantity::quotient(
            Quantity::Count(tied_pairs(n, s).len() as u64),
            Quantity::Count((s.len() * (s.len() - 1) / 2) as u64),
        )
    }
}

/// The tied pairs whose higher member stands in a list.
spec fn pairs_below(n: Network, s: Set<u64>, done: Seq<u64>) -> Set<(u64, u64)> {
    Set::new(|p: (u64, u64)| is_tied_pair(n, s, p) && done.contains(p.1))
}

fn count_tied_pairs(g: &Graph, list: &Vec<u64>) -> (r: usize)
    requires
        ascending(list@),
        list@.len() * (list@.len() - 1) <= usize::MAX,
    ensures
        r == tied_pairs(g@, list@.to_set()).len(),
{
    let ghost n = g@;
    let ghost s = list@.to_set();
    let mut r: usize = 0;
    let mut j: usize = 0;
    assert(pairs_below(n, s, list@.take(0)) =~= Set::empty());
    while j < list.len()
        invariant
            n == g@,
            ascending(list@),
            s == list@.to_set(),
            list@.len() * (list@.len() - 1) <= usize::MAX,
            j <= list@.len(),
            r <= j * (j - 1),
            pairs_below(n, s, list@.take(j as int)).finite(),
            r == pairs_below(n, s, list@.take(j as int)).len(),
        decreases list@.len() - j,
    {
        let b: u64 = list[j];
        let near = g.neighbor_set(b);
        let mut head: Vec<u64> = Vec::new();
        let mut i: usize = 0;
        while i < j
            invariant
                i <= j < list@.len(),
                head@ == list@.take(i as int),
            decreases j - i,
        {
            head.push(list[i]);
            assert(list@.take(i + 1) =~= head@);
            i += 1;
        }
        let c: usize = count_common(&head, &near);
        proof {
            let before = list@.take(j as int);
            let after = list@.take(j + 1);
            assert forall|x: u64| after.contains(x) <==> before.contains(x) || x == b by {
                if before.contains(x) {
                    assert(after[before.index_of(x)] == x);
                }
                assert(after[j as int] == b);
                if after.contains(x) && x != b {
                    assert(before[after.index_of(x)] == x);
                }
            }
            let low = head@.to_set().intersect(near@);
            let f = |a: u64| (a, b);
            let x = pairs_below(n, s, before);
            let y = low.map(f);
            low.lemma_map_finite(f);
            vstd::set_lib::lemma_map_size(low, y, f);
            assert forall|p: (u64, u64)| pairs_below(n, s, after).contains(p) <==> (x + y).contains(p) by {
                lemma_neighbors(n, b, p.0);
                if pairs_below(n, s, after).contains(p) && p.1 == b {
                    let k = list@.index_of(p.0);
                    assert(list@[k] == p.0);
                    assert(k < j);
                    assert(before[k] == p.0);
                    assert(low.contains(p.0));
                    assert(f(p.0) == p);
                }
                if y.contains(p) {
                    let a = choose|a: u64| low.contains(a) && f(a) == p;
                    let k = before.index_of(a);
                    assert(list@[k] == a);
                    assert(list@.contains(a));
                    assert(list@.contains(b));
                    assert(is_tied_pair(n, s, p));
                }
            }
            assert(pairs_below(n, s, after) =~= x + y);
            assert(x.disjoint(y)) by {
                assert forall|p: (u64, u64)| !(x.contains(p) && y.contains(p)) by {
                    if x.contains(p) && y.contains(p) {
                        let k = before.index_of(p.1);
                        assert(list@[k] == p.1);
                    }
                }
            }
            vstd::set_lib::lemma_set_disjoint_lens(x, y);
            vstd::set_lib::lemma_set_union_finite_iff(x, y);
            head@.unique_seq_to_set();
            vstd::set_lib::lemma_len_intersect(head@.to_set(), near@);
            assert(c <= j);
            assert(j * (j - 1) + j <= (j + 1) * j) by (nonlinear_arith);
            assert((j + 1) * j <= list@.len() * (list@.len() - 1)) by (nonlinear_arith)
                requires
                    0 <= j < list@.len(),
            ;
        }
        r += c;
        j += 1;
    }
    proof {
        assert(list@.take(j as int) =~= list@);
        assert(pairs_below(n, s, list@) =~= tied_pairs(n, s));
    }
    r
}

/// Local clustering coefficient for each vertex.
pub fn clustering_coefficient(g: &Graph) -> (r: HashMap<u64, Quantity>)
    requires
        forall|v: u64| #[trigger] g@.vertices.contains(v) ==> g@.neighbor_set(v).len() * (g@.neighbor_set(v).len() - 1) <= usize::MAX,
    ensures
        for_each_vertex(g@, r@),
        forall|v: u64| #[trigger] r@.contains_key(v) ==> r@[v] == local_clustering(g@, v),
{
    let all = g.vertices();
    let ghost n = g@;
    let mut r: HashMap<u64, Quantity> = HashMap::new();
    let mut i: usize = 0;
    while i < all.len()
        invariant
            n == g@,
            all@ == n.vertices,
            i <= all@.len(),
            forall|v: u64| #[trigger] n.vertices.contains(v) ==> n.neighbor_set(v).len() * (n.neighbor_set(v).len() - 1) <= usize::MAX,
            forall|v: u64| #[trigger] r@.contains_key(v) <==> exists|j: int| 0 <= j < i && all@[j] == v,
            forall|v: u64| #[trigger] r@.contains_key(v) ==> r@[v] == local_clustering(n, v),
        decreases all@.len() - i,
    {
        let v: u64 = all[i];
        assert(n.vertices.contains(v));
        let list = sorted_neighbors(g, v);
        let k: usize = list.len();
        proof {
            list@.unique_seq_to_set();
        }
        let c = if k < 2 {
            Quantity::Count(0)
        } else {
            let tied: usize = count_tied_pairs(g, &list);
            Quantity::Count(tied as u64).over(Quantity::Count((k * (k - 1) / 2) as u64))
        };
        r.insert(v, c);
        i += 1;
    }
    assert(r@.dom() =~= n.vertices.to_set());
    r
}

/// How many of the first `k` entries of a list differ from a vertex and are adjacent to it.
pub open spec fn tied_entries(n: Network, list: Seq<u64>, k: nat, b: u64) -> nat
    decreases k,
{
    if k == 0 {
        0
    } else {
        tied_entries(n, list, (k - 1) as nat, b) + if list[k - 1] != b && n.adjacent(list[k - 1], b) {
            1nat
        } else {
            0nat
        }
    }
}

/// How many pairs among the first `k` entries of a list are different, adjacent vertices.
pub open spec fn tied_entry_pairs(n: Network, list: Seq<u64>, k: nat) -> nat
    decreases k,
{
    if k == 0 {
        0
    } else {
        tied_entry_pairs(n, list, (k - 1) as nat) + tied_entries(n, list, (k - 1) as nat, list[k - 1])
    }
}

/// The pairs of edge ends at the first `k` vertices.
pub open spec fn triplets(n: Network, k: nat) -> nat
    decreases k,
{
    if k == 0 {
        0
    } else {
        let d = n.degree(n.vertices[k - 1]);
        triplets(n, (k - 1) as nat) + if d < 2 {
            0nat
        } else {
            (d * (d - 1) / 2) as nat
        }
    }
}

/// The pairs of edge ends at the first `k` vertices whose far ends are adjacent.
pub open spec fn closed_triplets(n: Network, k: nat) -> nat
    decreases k,
{
    if k == 0 {
        0
    } else {
        let list = n.neighbors(n.vertices[k - 1]);
        closed_triplets(n, (k - 1) as nat) + tied_entry_pairs(n, list, list.len())
    }
}

/// The ratio of closed triplets to all triplets; zero where there are none.
pub open spec fn transitivity(n: Network) -> Quantity {
    let open = triplets(n, n.vertices.len());
    if open == 0 {
        Quantity::Count(0)
    } else {
        Quantity::quotient(Quantity::Count(closed_triplets(n, n.vertices.len()) as u64), Quantity::Count(open as u64))
    }
}

proof fn lemma_triplets_grow(n: Network, j: nat, k: nat)
    requires
        j <= k,
    ensures
        triplets(n, j) <= triplets(n, k),
    decreases k - j,
{
    if j < k {
        lemma_triplets_grow(n, j, (k - 1) as nat);
        let d = n.degree(n.vertices[k - 1]);
        if d >= 2 {
            assert(d * (d - 1) >= 0) by (nonlinear_arith)
                requires
                    d >= 2,
            ;
        }
    }
}

proof fn lemma_half_step(k: nat)
    ensures
        (k + 1) * k / 2 == k * (k - 1) / 2 + k,
{
    assert((k + 1) * k == k * (k - 1) + 2 * k) by (nonlinear_arith);
}

proof fn lemma_half_grows(j: nat, k: nat)
    requires
        j <= k,
    ensures
        j * (j - 1) / 2 <= k * (k - 1) / 2,
{
    assert(j * (j - 1) <= k * (k - 1)) by (nonlinear_arith)
        requires
            0 <= j <= k,
    ;
}

fn count_tied_entry_pairs(g: &Graph, list: &Vec<u64>) -> (r: usize)
    requires
        list@.len() * (list@.len() - 1) / 2 <= usize::MAX,
    ensures
        r == tied_entry_pairs(g@, list@, list@.len()),
        r <= list@.len() * (list@.len() - 1) / 2,
{
    let ghost n = g@;
    let mut r: usize = 0;
    let mut j: usize = 0;
    while j < list.len()
        invariant
            n == g@,
            list@.len() * (list@.len() - 1) / 2 <= usize::MAX,
            j <= list@.len(),
            r == tied_entry_pairs(n, list@, j as nat),
            r <= j * (j - 1) / 2,
        decreases list@.len() - j,
    {
        let b: u64 = list[j];
        let near = g.neighbor_set(b);
        let mut c: usize = 0;
        let mut i: usize = 0;
        while i < j
            invariant
                n == g@,
                n.wf(),
                i <= j < list@.len(),
                near@ == n.neighbor_set(b),
                c == tied_entries(n, list@, i as nat, b),
                c <= i,
            decreases j - i,
        {
            let a: u64 = list[i];
            proof {
                lemma_neighbors(n, b, a);
            }
            if a != b && near.contains(&a) {
                c += 1;
            }
            i += 1;
        }
        proof {
            lemma_half_step(j as nat);
            lemma_half_grows((j + 1) as nat, list@.len());
        }
        r += c;
        j += 1;
    }
    r
}

/// Global clustering coefficient (transitivity): ratio of closed triplets to all triplets.
/// Returns 0 for graphs with fewer than 3 vertices.
pub fn global_clustering_coefficient(g: &Graph) -> (r: Quantity)
    requires
        triplets(g@, g@.vertices.len()) <= usize::MAX,
        forall|v: u64| #[trigger] g@.vertices.contains(v) ==> g@.degree(v) * (g@.degree(v) - 1) <= usize::MAX,
    ensures
        r == transitivity(g@),
{
    let all = g.vertices();
    let ghost n = g@;
    let mut open: usize = 0;
    let mut closed: usize = 0;
    let mut i: usize = 0;
    while i < all.len()
        invariant
            n == g@,
            n.wf(),
            all@ == n.vertices,
            i <= all@.len(),
            triplets(n, n.vertices.len()) <= usize::MAX,
            forall|v: u64| #[trigger] n.vertices.contains(v) ==> n.degree(v) * (n.degree(v) - 1) <= usize::MAX,
            open == triplets(n, i as nat),
            closed == closed_triplets(n, i as nat),
            closed <= open,
        decreases all@.len() - i,
    {
        let v: u64 = all[i];
        assert(n.vertices.contains(v));
        let list = g.neighbors(v);
        let k: usize = list.len();
        proof {
            lemma_triplets_grow(n, (i + 1) as nat, n.vertices.len());
        }
        if k >= 2 {
            open += k * (k - 1) / 2;
            closed += count_tied_entry_pairs(g, &list);
        } else {
            proof {
                reveal_with_fuel(tied_entry_pairs, 2);
                reveal_with_fuel(tied_entries, 2);
            }
        }
        i += 1;
    }
    if open == 0 {
        Quantity::Count(0)
    } else {
        Quantity::Count(closed as u64).over(Quantity::Count(open as u64))
    }
}

/// The share of the possible edges that a graph has; zero below two vertices.
pub open spec fn density(n: Network) -> Quantity {
    let k = n.vertices.len();
    if k < 2 {
        Quantity::Count(0)
    } else {
        Quantity::quotient(Quantity::Count(n.edges.len() as u64), Quantity::Count((k * (k - 1)) as u64))
    }
}

/// Graph density: ratio of actual edges to possible edges.
/// For a directed graph with n vertices, max edges = n*(n-1).
/// Returns 0 for graphs with fewer than 2 vertices.
pub fn graph_density(g: &Graph) -> (r: Quantity)
    requires
        g@.vertices.len() * (g@.vertices.len() - 1) <= usize::MAX,
    ensures
        r == density(g@),
{
    let k: usize = g.vertices().len();
    if k < 2 {
        return Quantity::Count(0);
    }
    let m: usize = g.edges().len();
    Quantity::Count(m as u64).over(Quantity::Count((k * (k - 1)) as u64))
}

/// The path length of a random graph with as many vertices and edges.
pub open spec fn random_path_length<F: Fn(&Quantity, &Quantity) -> Compared>(compare: F, n: Network) -> Quantity {
    let k = Quantity::Count(n.vertices.len() as u64);
    if compared(compare, density(n), Quantity::Count(0)) is Greater {
        Quantity::quotient(Quantity::ln(k), Quantity::ln(Quantity::product(k, density(n))))
    } else {
        Quantity::Count(0)
    }
}

/// The small-world coefficient: how much more the graph clusters than a random one, over how much
/// longer its paths are; zero where it cannot be told.
pub open spec fn small_world<F: Fn(&Quantity, &Quantity) -> Compared>(compare: F, n: Network) -> Quantity {
    let zero = Quantity::Count(0);
    let random = random_path_length(compare, n);
    if n.vertices.len() < 3 || compared(compare, average_steps(n), zero) is Equal || compared(compare, density(n), zero) is Equal
        || compared(compare, random, zero) is Equal {
        zero
    } else {
        Quantity::quotient(
            Quantity::quotient(transitivity(n), density(n)),
            Quantity::quotient(average_steps(n), random),
        )
    }
}

/// Small-world coefficient (sigma): ratio of clustering coefficient ratio to path length ratio,
/// compared to an equivalent random graph. Uses a simple approximation for the random graph.
/// Returns > 1 if the graph exhibits small-world characteristics.
pub fn small_world_coefficient<F: Fn(&Quantity, &Quantity) -> Compared>(g: &Graph, compare: &F) -> (r: Quantity)
    requires
        decides(*compare),
        g@.vertices.len() * (g@.vertices.len() - 1) <= usize::MAX,
        triplets(g@, g@.vertices.len()) <= usize::MAX,
        forall|v: u64| #[trigger] g@.vertices.contains(v) ==> g@.degree(v) * (g@.degree(v) - 1) <= usize::MAX,
        grand_total(g@, g@.vertices.len()) <= usize::MAX,
        grand_count(g@, g@.vertices.len()) <= usize::MAX,
    ensures
        r == small_world(*compare, g@),
{
    let k: usize = g.vertices().len();
    let zero = Quantity::Count(0);
    if k < 3 {
        return zero;
    }
    let clustering = global_clustering_coefficient(g);
    let length = average_path_length(g);
    if compare(&length, &zero) == Compared::Equal {
        return zero;
    }
    let p = graph_density(g);
    let random = if compare(&p, &zero) == Compared::Greater {
        let k = Quantity::Count(k as u64);
        k.clone().natural_log().over(k.times(p.clone()).natural_log())
    } else {
        Quantity::Count(0)
    };
    if compare(&p, &zero) == Compared::Equal || compare(&random, &zero) == Compared::Equal {
        return zero;
    }
    clustering.over(p).over(length.over(random))
}

} // verus!
