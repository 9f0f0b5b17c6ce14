//! Cycles and topological orders. Edges are followed in their direction.
use std::collections::{HashMap, VecDeque};

use vstd::prelude::*;

use crate::graph::{lemma_neighbors, lemma_targets, sources, targets, Edge, Graph, Network};

verus! {

broadcast use vstd::std_specs::hash::group_hash_axioms;

/// Whether `k` edges, each followed in its direction, lead from one vertex to another.
pub open spec fn directed_walk(n: Network, u: u64, v: u64, k: nat) -> bool
    decreases k,
{
    if k == 0 {
        u == v
    } else {
        exists|w: u64| directed_walk(n, u, w, (k - 1) as nat) && #[trigger] n.edge(w, v)
    }
}

/// Whether edges lead from some vertex back to it.
pub open spec fn cyclic(n: Network) -> bool {
    exists|v: u64, k: nat| k > 0 && #[trigger] directed_walk(n, v, v, k)
}

/// Whether an order holds every vertex once, and each edge leads from an earlier to a later one.
pub open spec fn is_topological(n: Network, order: Seq<u64>) -> bool {
    &&& order.no_duplicates()
    &&& order.to_set() == n.vertices.to_set()
    &&& forall|i: int, j: int|
        0 <= i < order.len() && 0 <= j < order.len() && n.edge(#[trigger] order[i], #[trigger] order[j]) ==> i < j
}

pub proof fn lemma_directed_step(n: Network, u: u64, w: u64, v: u64, k: nat)
    requires
        directed_walk(n, u, w, k),
        n.edge(w, v),
    ensures
        directed_walk(n, u, v, k + 1),
{
    assert(directed_walk(n, u, w, ((k + 1) - 1) as nat) && n.edge(w, v));
}

pub proof fn lemma_directed_last(n: Network, u: u64, v: u64, k: nat) -> (w: u64)
    requires
        k > 0,
        directed_walk(n, u, v, k),
    ensures
        directed_walk(n, u, w, (k - 1) as nat),
        n.edge(w, v),
{
    choose|w: u64| directed_walk(n, u, w, (k - 1) as nat) && #[trigger] n.edge(w, v)
}

/// Whether each vertex of a sequence has an edge to the next.
spec fn follows_edges(n: Network, p: Seq<u64>) -> bool {
    forall|i: int, j: int| 0 <= i && j == i + 1 && j < p.len() ==> n.edge(#[trigger] p[i], #[trigger] p[j])
}

proof fn lemma_segment(n: Network, p: Seq<u64>, i: int, j: int)
    requires
        follows_edges(n, p),
        0 <= i <= j < p.len(),
    ensures
        directed_walk(n, p[i], p[j], (j - i) as nat),
    decreases j - i,
{
    if i < j {
        lemma_segment(n, p, i, j - 1);
        assert(n.edge(p[j - 1], p[j]));
        lemma_directed_step(n, p[i], p[j - 1], p[j], (j - 1 - i) as nat);
    }
}

/// Where every vertex of a finite set has an edge from a vertex of the set, there is a cycle.
proof fn lemma_predecessors_cycle(n: Network, set: Set<u64>, p: Seq<u64>)
    requires
        set.finite(),
        p.len() > 0,
        follows_edges(n, p),
        forall|i: int| 0 <= i < p.len() ==> set.contains(#[trigger] p[i]),
        forall|v: u64| #[trigger] set.contains(v) ==> has_predecessor(n, set, v),
    ensures
        cyclic(n),
    decreases set.len() + 1 - p.len(),
{
    if p.no_duplicates() {
        p.unique_seq_to_set();
        assert(p.to_set().subset_of(set)) by {
            assert forall|v: u64| p.to_set().contains(v) implies set.contains(v) by {
                let i = p.index_of(v);
                assert(set.contains(p[i]));
            }
        }
        vstd::set_lib::lemma_len_subset(p.to_set(), set);
        assert(set.contains(p[0]));
        assert(has_predecessor(n, set, p[0]));
        let u = choose|u: u64| #[trigger] set.contains(u) && n.edge(u, p[0]);
        let q = seq![u] + p;
        assert forall|i: int, j: int| 0 <= i && j == i + 1 && j < q.len() implies n.edge(#[trigger] q[i], #[trigger] q[j]) by {
            if i > 0 {
                assert(n.edge(p[i - 1], p[j - 1]));
            }
        }
        assert forall|i: int| 0 <= i < q.len() implies set.contains(#[trigger] q[i]) by {
            if i > 0 {
                assert(set.contains(p[i - 1]));
            }
        }
        lemma_predecessors_cycle(n, set, q);
    } else {
        let (i, j) = choose|i: int, j: int| 0 <= i < j < p.len() && p[i] == p[j];
        lemma_segment(n, p, i, j);
        assert(directed_walk(n, p[i], p[i], (j - i) as nat));
    }
}

spec fn has_predecessor(n: Network, set: Set<u64>, v: u64) -> bool {
    exists|u: u64| #[trigger] set.contains(u) && n.edge(u, v)
}

/// Along directed walks positions in a topological order grow.
proof fn lemma_positions_grow(n: Network, order: Seq<u64>, u: u64, v: u64, k: nat)
    requires
        n.wf(),
        is_topological(n, order),
        directed_walk(n, u, v, k),
        order.contains(u),
    ensures
        order.contains(v),
        order.index_of(u) + k <= order.index_of(v),
    decreases k,
{
    if k > 0 {
        let w = lemma_directed_last(n, u, v, k);
        lemma_positions_grow(n, order, u, w, (k - 1) as nat);
        lemma_neighbors(n, w, v);
        assert(n.vertices.to_set().contains(v));
        assert(order.to_set().contains(v));
        let i = order.index_of(w);
        let j = order.index_of(v);
        assert(n.edge(order[i], order[j]));
    }
}

/// A graph with a topological order has no cycle.
pub proof fn topological_order_excludes_cycles(n: Network, order: Seq<u64>)
    requires
        n.wf(),
        is_topological(n, order),
    ensures
        !cyclic(n),
{
    if cyclic(n) {
        let (v, k) = choose|v: u64, k: nat| k > 0 && #[trigger] directed_walk(n, v, v, k);
        let w = lemma_directed_last(n, v, v, k);
        lemma_neighbors(n, w, v);
        assert(n.vertices.to_set().contains(v));
        assert(order.to_set().contains(v));
        lemma_positions_grow(n, order, v, v, k);
    }
}

/// How often a value occurs in a sequence.
pub open spec fn occurrences(s: Seq<u64>, w: u64) -> nat
    decreases s.len(),
{
    if s.len() == 0 {
        0
    } else {
        occurrences(s.drop_last(), w) + if s.last() == w {
            1nat
        } else {
            0nat
        }
    }
}

/// The number of edges to a vertex that do not come from a set.
spec fn pending(edges: Seq<Edge>, done: Set<u64>, w: u64) -> nat
    decreases edges.len(),
{
    if edges.len() == 0 {
        0
    } else {
        pending(edges.drop_last(), done, w) + if edges.last().to == w && !done.contains(edges.last().from) {
            1nat
        } else {
            0nat
        }
    }
}

proof fn lemma_pending_shrinks(edges: Seq<Edge>, done: Set<u64>, v: u64, w: u64)
    requires
        !done.contains(v),
    ensures
        pending(edges, done.insert(v), w) + occurrences(targets(edges, v), w) == pending(edges, done, w),
    decreases edges.len(),
{
    if edges.len() > 0 {
        lemma_pending_shrinks(edges.drop_last(), done, v, w);
        if edges.last().from == v {
            let t = targets(edges.drop_last(), v);
            assert(t.push(edges.last().to).drop_last() =~= t);
        }
    }
}

proof fn lemma_pending_zero(edges: Seq<Edge>, done: Set<u64>, w: u64)
    ensures
        pending(edges, done, w) == 0 <==> forall|i: int|
            0 <= i < edges.len() && (#[trigger] edges[i]).to == w ==> done.contains(edges[i].from),
    decreases edges.len(),
{
    if edges.len() > 0 {
        let e = edges.drop_last();
        lemma_pending_zero(e, done, w);
        if pending(edges, done, w) == 0 {
            assert forall|i: int| 0 <= i < edges.len() && (#[trigger] edges[i]).to == w implies done.contains(edges[i].from) by {
                if i < e.len() {
                    assert(e[i] == edges[i]);
                }
            }
        }
        if forall|i: int| 0 <= i < edges.len() && (#[trigger] edges[i]).to == w ==> done.contains(edges[i].from) {
            assert forall|i: int| 0 <= i < e.len() && (#[trigger] e[i]).to == w implies done.contains(e[i].from) by {
                assert(edges[i] == e[i]);
            }
            assert(edges[edges.len() - 1] == edges.last());
        }
    }
}

proof fn lemma_pending_all(edges: Seq<Edge>, w: u64)
    ensures
        pending(edges, Set::empty(), w) == sources(edges, w).len(),
    decreases edges.len(),
{
    if edges.len() > 0 {
        lemma_pending_all(edges.drop_last(), w);
    }
}

pub proof fn lemma_occurrences_prefix(s: Seq<u64>, i: int, w: u64)
    requires
        0 <= i < s.len(),
    ensures
        occurrences(s.take(i + 1), w) == occurrences(s.take(i), w) + if s[i] == w {
            1nat
        } else {
            0nat
        },
        occurrences(s.take(i + 1), w) <= occurrences(s, w),
    decreases s.len() - i,
{
    assert(s.take(i + 1).drop_last() =~= s.take(i));
    if i + 1 < s.len() {
        lemma_occurrences_prefix(s, i + 1, w);
    } else {
        assert(s.take(i + 1) =~= s);
    }
}

/// What is known while vertices are sorted: `line` holds the sorted vertices and then the queue.
spec fn sorting(n: Network, line: Seq<u64>, degree: Map<u64, usize>) -> bool {
    &&& line.no_duplicates()
    &&& forall|i: int| 0 <= i < line.len() ==> n.vertices.contains(#[trigger] line[i])
    &&& degree.dom() == n.vertices.to_set()
    &&& forall|w: u64| #[trigger] n.vertices.contains(w) ==> (degree[w] == 0 <==> line.contains(w))
}

/// Whether the edges to a vertex come from the first `i` vertices of a sequence.
spec fn comes_after(n: Network, sorted: Seq<u64>, i: int, v: u64) -> bool {
    forall|u: u64| #[trigger] n.edge(u, v) ==> sorted.take(i).contains(u)
}

fn decrement(degree: &mut HashMap<u64, usize>, key: u64) -> (r: usize)
    requires
        old(degree)@.contains_key(key),
        old(degree)@[key] > 0,
    ensures
        final(degree)@ == old(degree)@.insert(key, (old(degree)@[key] - 1) as usize),
        r == old(degree)@[key] - 1,
{
    let d: usize = match degree.get(&key) {
        Some(d) => *d,
        None => 1,
    };
    degree.insert(key, d - 1);
    d - 1
}

fn in_degrees(g: &Graph) -> (r: HashMap<u64, usize>)
    ensures
        r@.dom() == g@.vertices.to_set(),
        forall|w: u64| #[trigger] g@.vertices.contains(w) ==> r@[w] == pending(g@.edges, Set::empty(), w),
{
    let all = g.vertices();
    let ghost n = g@;
    let mut r: HashMap<u64, usize> = HashMap::new();
    let mut i: usize = 0;
    while i < all.len()
        invariant
            n == g@,
            n.wf(),
            all@ == n.vertices,
            i <= all@.len(),
            forall|v: u64| #[trigger] r@.contains_key(v) <==> exists|j: int| 0 <= j < i && all@[j] == v,
            forall|v: u64| #[trigger] r@.contains_key(v) ==> r@[v] == pending(n.edges, Set::empty(), v),
        decreases all@.len() - i,
    {
        let d: usize = g.in_edges(all[i]).len();
        proof {
            lemma_pending_all(n.edges, all@[i as int]);
        }
        r.insert(all[i], d);
        i += 1;
    }
    assert(r@.dom() =~= n.vertices.to_set());
    assert forall|w: u64| #[trigger] n.vertices.contains(w) implies r@[w] == pending(n.edges, Set::empty(), w) by {
        assert(r@.dom().contains(w));
        assert(r@.contains_key(w));
    }
    r
}

/// Topological sort (Kahn's algorithm). Returns None if a cycle exists.
pub fn topological_sort(g: &Graph) -> (r: Option<Vec<u64>>)
    ensures
        r is Some <==> !cyclic(g@),
        r matches Some(order) ==> is_topological(g@, order@),
{
    let all = g.vertices();
    let ghost n = g@;
    let mut degree = in_degrees(g);
    let mut queue: VecDeque<u64> = VecDeque::new();
    let mut i: usize = 0;
    while i < all.len()
        invariant
            n == g@,
            n.wf(),
            all@ == n.vertices,
            i <= all@.len(),
            degree@.dom() == n.vertices.to_set(),
            queue@.no_duplicates(),
            forall|v: u64| #[trigger] queue@.contains(v) <==> exists|j: int| 0 <= j < i && all@[j] == v && degree@[v] == 0,
        decreases all@.len() - i,
    {
        let v: u64 = all[i];
        assert(n.vertices.to_set().contains(v)) by {
            assert(n.vertices.contains(v));
        }
        assert(degree@.contains_key(v));
        let zero = match degree.get(&v) {
            Some(d) => *d == 0,
            None => false,
        };
        let ghost q0 = queue@;
        if zero {
            queue.push_back(v);
        }
        proof {
            if zero {
                assert(queue@ =~= q0.push(v));
                assert(!q0.contains(v));
                assert forall|x: u64| #[trigger] queue@.contains(x) <==> exists|j: int|
                    0 <= j < i + 1 && all@[j] == x && degree@[x] == 0 by {
                    if q0.contains(x) {
                        assert(queue@[q0.index_of(x)] == x);
                    }
                    if x == v {
                        assert(queue@[q0.len() as int] == v);
                        assert(all@[i as int] == v);
                    }
                    if queue@.contains(x) && x != v {
                        let k = queue@.index_of(x);
                        assert(q0[k] == x);
                        assert(q0.contains(x));
                    }
                }
            }
        }
        i += 1;
    }
    let mut sorted: Vec<u64> = Vec::new();
    let ghost edges = n.edges;
    proof {
        assert(sorted@.to_set() =~= Set::empty());
        assert(sorted@ + queue@ =~= queue@);
        assert forall|w: u64| #[trigger] n.vertices.contains(w) implies (degree@[w] == 0 <==> queue@.contains(w)) by {
            let j = n.vertices.index_of(w);
            assert(all@[j] == w);
        }
        assert forall|j: int| 0 <= j < queue@.len() implies n.vertices.contains(#[trigger] queue@[j]) by {
            assert(queue@.contains(queue@[j]));
        }
    }
    while queue.len() > 0
        invariant
            n == g@,
            n.wf(),
            all@ == n.vertices,
            edges == n.edges,
            sorting(n, sorted@ + queue@, degree@),
            forall|w: u64| #[trigger] n.vertices.contains(w) ==> degree@[w] == pending(edges, sorted@.to_set(), w),
            forall|j: int| 0 <= j < sorted@.len() ==> comes_after(n, sorted@, j, #[trigger] sorted@[j]),
            sorted@.len() <= n.vertices.len(),
        decreases n.vertices.len() - sorted@.len(),
    {
        let ghost q0 = queue@;
        let ghost s0 = sorted@;
        let ghost done0 = sorted@.to_set();
        let v: u64 = match queue.pop_front() {
            Some(v) => v,
            None => 0,
        };
        assert(v == q0[0]);
        assert(queue@ =~= q0.skip(1));
        let list = g.out_edges(v);
        sorted.push(v);
        proof {
            let line = s0 + q0;
            assert(line[s0.len() as int] == v);
            assert(sorted@ + queue@ =~= line);
            assert(n.vertices.contains(v));
            assert(line.contains(v));
            assert(degree@[v] == 0);
            assert(!s0.contains(v)) by {
                if s0.contains(v) {
                    let k = s0.index_of(v);
                    assert(line[k] == v);
                }
            }
            assert(!done0.contains(v));
            lemma_pending_zero(edges, done0, v);
            assert forall|u: u64| #[trigger] n.edge(u, v) implies s0.contains(u) by {
                let k = edges.index_of(Edge { from: u, to: v });
                assert(edges[k].to == v);
                assert(done0.contains(u));
            }
            assert(sorted@.to_set() =~= done0.insert(v)) by {
                assert forall|x: u64| sorted@.to_set().contains(x) <==> done0.insert(v).contains(x) by {
                    if s0.contains(x) {
                        assert(sorted@[s0.index_of(x)] == x);
                    }
                    if x == v {
                        assert(sorted@[s0.len() as int] == v);
                    }
                    if sorted@.contains(x) && x != v {
                        let k = sorted@.index_of(x);
                        assert(s0[k] == x);
                    }
                }
            }
            assert forall|j: int| 0 <= j < sorted@.len() implies comes_after(n, sorted@, j, #[trigger] sorted@[j]) by {
                assert(sorted@.take(j) =~= s0.take(j));
                if j < s0.len() {
                    assert(comes_after(n, s0, j, s0[j]));
                } else {
                    assert(s0.take(j) =~= s0);
                }
            }
            assert(list@.take(0) =~= Seq::empty());
            lemma_line_short(n, line);
        }
        let mut i: usize = 0;
        while i < list.len()
            invariant
                n == g@,
                n.wf(),
                edges == n.edges,
                list@ == targets(edges, v),
                i <= list@.len(),
                !done0.contains(v),
                sorting(n, sorted@ + queue@, degree@),
                forall|w: u64| #[trigger]
                    n.vertices.contains(w) ==> degree@[w] + occurrences(list@.take(i as int), w) == pending(edges, done0, w),
            decreases list@.len() - i,
        {
            let w: u64 = list[i];
            let ghost line0 = sorted@ + queue@;
            let ghost degree0 = degree@;
            let ghost queue0 = queue@;
            proof {
                lemma_targets(edges, v, w);
                assert(list@.contains(w));
                assert(n.edge(v, w));
                lemma_neighbors(n, v, w);
                lemma_pending_shrinks(edges, done0, v, w);
                lemma_occurrences_prefix(list@, i as int, w);
                assert(n.vertices.contains(w));
                assert(degree0[w] > 0);
                assert(degree@.dom().contains(w));
                assert(!line0.contains(w));
            }
            let d: usize = decrement(&mut degree, w);
            if d == 0 {
                queue.push_back(w);
            }
            proof {
                let line = sorted@ + queue@;
                if d == 0 {
                    assert(queue@ =~= queue0.push(w));
                    assert(line =~= line0.push(w));
                }
                assert(degree@.dom() =~= n.vertices.to_set());
                assert forall|x: u64| #[trigger] n.vertices.contains(x) implies (degree@[x] == 0 <==> line.contains(x)) by {
                    if line0.contains(x) {
                        assert(line[line0.index_of(x)] == x);
                    }
                    if x == w && d == 0 {
                        assert(line[line0.len() as int] == w);
                    }
                    if line.contains(x) && x != w {
                        let k = line.index_of(x);
                        assert(line0[k] == x);
                    }
                    assert(degree0[x] == 0 <==> line0.contains(x));
                }
                assert forall|x: u64| #[trigger] n.vertices.contains(x) implies degree@[x] + occurrences(list@.take(i + 1), x)
                    == pending(edges, done0, x) by {
                    lemma_occurrences_prefix(list@, i as int, x);
                }
            }
            i += 1;
        }
        proof {
            assert(list@.take(i as int) =~= list@);
            assert forall|w: u64| #[trigger] n.vertices.contains(w) implies degree@[w] == pending(edges, sorted@.to_set(), w) by {
                lemma_pending_shrinks(edges, done0, v, w);
            }
        }
    }
    assert(sorted@ + queue@ =~= sorted@);
    if sorted.len() == all.len() {
        proof {
            lemma_full_line(n, sorted@);
            assert forall|i: int, j: int|
                0 <= i < sorted@.len() && 0 <= j < sorted@.len() && n.edge(#[trigger] sorted@[i], #[trigger] sorted@[j]) implies i < j by {
                assert(comes_after(n, sorted@, j, sorted@[j]));
                let k = sorted@.take(j).index_of(sorted@[i]);
                assert(sorted@[k] == sorted@[i]);
            }
            topological_order_excludes_cycles(n, sorted@);
        }
        Some(sorted)
    } else {
        proof {
            let rest = n.vertices.to_set().difference(sorted@.to_set());
            lemma_line_short(n, sorted@);
            let x = lemma_missing(n, sorted@);
            assert forall|v: u64| #[trigger] rest.contains(v) implies has_predecessor(n, rest, v) by {
                assert(n.vertices.contains(v));
                assert(!sorted@.contains(v));
                assert(degree@[v] != 0);
                lemma_pending_zero(edges, sorted@.to_set(), v);
                let k = choose|k: int| 0 <= k < edges.len() && (#[trigger] edges[k]).to == v && !sorted@.to_set().contains(edges[k].from);
                let u = edges[k].from;
                assert(edges[k] == Edge { from: u, to: v });
                assert(n.edge(u, v));
                assert(n.vertices.contains(u));
                assert(rest.contains(u));
            }
            assert(rest.contains(x));
            let p = seq![x];
            assert(follows_edges(n, p));
            lemma_predecessors_cycle(n, rest, p);
        }
        None
    }
}

/// No sequence of different vertices is longer than the list of all.
proof fn lemma_line_short(n: Network, line: Seq<u64>)
    requires
        n.wf(),
        line.no_duplicates(),
        forall|i: int| 0 <= i < line.len() ==> n.vertices.contains(#[trigger] line[i]),
    ensures
        line.len() <= n.vertices.len(),
        line.to_set().subset_of(n.vertices.to_set()),
{
    line.unique_seq_to_set();
    n.vertices.unique_seq_to_set();
    assert(line.to_set().subset_of(n.vertices.to_set())) by {
        assert forall|v: u64| line.to_set().contains(v) implies n.vertices.to_set().contains(v) by {
            let i = line.index_of(v);
            assert(n.vertices.contains(line[i]));
        }
    }
    vstd::set_lib::lemma_len_subset(line.to_set(), n.vertices.to_set());
}

/// A sequence of different vertices that is as long as the list of all holds all.
proof fn lemma_full_line(n: Network, line: Seq<u64>)
    requires
        n.wf(),
        line.no_duplicates(),
        forall|i: int| 0 <= i < line.len() ==> n.vertices.contains(#[trigger] line[i]),
        line.len() == n.vertices.len(),
    ensures
        line.to_set() == n.vertices.to_set(),
{
    lemma_line_short(n, line);
    line.unique_seq_to_set();
    n.vertices.unique_seq_to_set();
    vstd::set_lib::lemma_subset_equality(line.to_set(), n.vertices.to_set());
}

/// A shorter sequence of different vertices misses one.
proof fn lemma_missing(n: Network, line: Seq<u64>) -> (x: u64)
    requires
        n.wf(),
        line.no_duplicates(),
        line.len() < n.vertices.len(),
    ensures
        n.vertices.to_set().contains(x),
        !line.to_set().contains(x),
{
    line.unique_seq_to_set();
    n.vertices.unique_seq_to_set();
    if forall|x: u64| n.vertices.to_set().contains(x) ==> #[trigger] line.to_set().contains(x) {
        assert(n.vertices.to_set().subset_of(line.to_set()));
        vstd::set_lib::lemma_len_subset(n.vertices.to_set(), line.to_set());
    }
    choose|x: u64| n.vertices.to_set().contains(x) && !#[trigger] line.to_set().contains(x)
}

/// Detect if the graph contains any cycle (for directed graphs).
pub fn has_cycle(g: &Graph) -> (r: bool)
    ensures
        r == cyclic(g@),
{
    topological_sort(g).is_none()
}

} // verus!
