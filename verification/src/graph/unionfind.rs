//! Connected components by union-find.
use std::collections::HashMap;

use vstd::prelude::*;

use crate::graph::centrality::for_each_vertex;
use crate::graph::components::tells_components;
use crate::graph::distance::{connected, connected_is_equivalence, lemma_walk_last, lemma_walk_step, walk};
use crate::graph::{lemma_neighbors, Graph, Network};

verus! {

broadcast use vstd::std_specs::hash::group_hash_axioms;

/// The pairs of a vertex with each of its neighbors.
pub open spec fn pairs_of(n: Network, v: u64) -> Seq<(u64, u64)> {
    Seq::new(n.neighbors(v).len(), |i: int| (v, n.neighbors(v)[i]))
}

/// The pairs that are united for the first `k` vertices.
pub open spec fn united_pairs(n: Network, k: nat) -> Seq<(u64, u64)>
    decreases k,
{
    if k == 0 {
        Seq::empty()
    } else {
        united_pairs(n, (k - 1) as nat) + pairs_of(n, n.vertices[k - 1])
    }
}

/// The representative of a vertex once the first `k` pairs were united: the class of the first of a
/// pair takes the representative of the second.
pub open spec fn representative(pairs: Seq<(u64, u64)>, k: nat, x: u64) -> u64
    decreases k,
{
    if k == 0 {
        x
    } else {
        let before = representative(pairs, (k - 1) as nat, x);
        if before == representative(pairs, (k - 1) as nat, pairs[k - 1].0) {
            representative(pairs, (k - 1) as nat, pairs[k - 1].1)
        } else {
            before
        }
    }
}

/// Whether the parents of a vertex lead to its representative: `rank` grows along parents and stays
/// within `bound`.
spec fn leads(
    dom: Set<u64>,
    parent: Map<u64, u64>,
    root: spec_fn(u64) -> u64,
    rank: spec_fn(u64) -> nat,
    bound: nat,
    x: u64,
) -> bool {
    &&& dom.contains(parent[x])
    &&& dom.contains(root(x))
    &&& rank(x) <= bound
    &&& rank(x) <= rank(root(x))
    &&& parent[x] != x ==> rank(x) < rank(parent[x])
    &&& root(parent[x]) == root(x)
    &&& parent[root(x)] == root(x)
    &&& parent[x] == x ==> root(x) == x
}

/// Whether the parents of every vertex lead to its representative.
spec fn leads_to(
    dom: Set<u64>,
    parent: Map<u64, u64>,
    root: spec_fn(u64) -> u64,
    rank: spec_fn(u64) -> nat,
    bound: nat,
) -> bool {
    &&& parent.dom() == dom
    &&& forall|x: u64| dom.contains(x) ==> #[trigger] leads(dom, parent, root, rank, bound, x)
}

/// The representative of a vertex; the vertices on the way there are led straight to it.
fn find(
    parent: &mut HashMap<u64, u64>,
    x: u64,
    Ghost(dom): Ghost<Set<u64>>,
    Ghost(root): Ghost<spec_fn(u64) -> u64>,
    Ghost(rank): Ghost<spec_fn(u64) -> nat>,
    Ghost(bound): Ghost<nat>,
) -> (r: u64)
    requires
        leads_to(dom, old(parent)@, root, rank, bound),
        dom.contains(x),
    ensures
        leads_to(dom, final(parent)@, root, rank, bound),
        r == root(x),
    decreases bound - rank(x),
{
    let ghost parent0 = parent@;
    assert(parent@.contains_key(x));
    assert(leads(dom, parent0, root, rank, bound, x));
    let p: u64 = match parent.get(&x) {
        Some(p) => *p,
        None => x,
    };
    if p != x {
        assert(leads(dom, parent0, root, rank, bound, p));
        let r: u64 = find(parent, p, Ghost(dom), Ghost(root), Ghost(rank), Ghost(bound));
        let ghost parent1 = parent@;
        assert(leads(dom, parent1, root, rank, bound, x));
        assert(leads(dom, parent1, root, rank, bound, r));
        parent.insert(x, r);
        proof {
            assert(parent@.dom() =~= dom);
            assert forall|y: u64| dom.contains(y) implies #[trigger] leads(dom, parent@, root, rank, bound, y) by {
                assert(leads(dom, parent1, root, rank, bound, y));
            }
        }
        r
    } else {
        x
    }
}

/// Unites the classes of two vertices.
fn union(
    parent: &mut HashMap<u64, u64>,
    a: u64,
    b: u64,
    Ghost(dom): Ghost<Set<u64>>,
    Ghost(root): Ghost<spec_fn(u64) -> u64>,
    Ghost(rank): Ghost<spec_fn(u64) -> nat>,
    Ghost(bound): Ghost<nat>,
)
    requires
        leads_to(dom, old(parent)@, root, rank, bound),
        dom.contains(a),
        dom.contains(b),
    ensures
        exists|rank1: spec_fn(u64) -> nat, bound1: nat| #[trigger]
            leads_to(dom, final(parent)@, merged(root, a, b), rank1, bound1),
{
    let ra: u64 = find(parent, a, Ghost(dom), Ghost(root), Ghost(rank), Ghost(bound));
    let rb: u64 = find(parent, b, Ghost(dom), Ghost(root), Ghost(rank), Ghost(bound));
    let ghost parent0 = parent@;
    let ghost root1 = merged(root, a, b);
    proof {
        assert(leads(dom, parent0, root, rank, bound, a));
        assert(leads(dom, parent0, root, rank, bound, b));
        assert(leads(dom, parent0, root, rank, bound, ra));
        assert(leads(dom, parent0, root, rank, bound, rb));
    }
    if ra != rb {
        parent.insert(ra, rb);
        proof {
            let rank1 = |x: u64|
                if x == rb && rank(rb) <= rank(ra) {
                    rank(ra) + 1
                } else {
                    rank(x)
                };
            assert(parent@.dom() =~= dom);
            assert forall|x: u64| dom.contains(x) implies #[trigger] leads(dom, parent@, root1, rank1, bound + 1, x) by {
                assert(leads(dom, parent0, root, rank, bound, x));
            }
            assert(leads_to(dom, parent@, root1, rank1, bound + 1));
        }
    } else {
        proof {
            assert forall|x: u64| dom.contains(x) implies #[trigger] leads(dom, parent@, root1, rank, bound, x) by {
                assert(leads(dom, parent0, root, rank, bound, x));
            }
            assert(leads_to(dom, parent@, root1, rank, bound));
        }
    }
}

/// The representatives once two vertices were united.
spec fn merged(root: spec_fn(u64) -> u64, a: u64, b: u64) -> spec_fn(u64) -> u64 {
    |x: u64|
        if root(x) == root(a) {
            root(b)
        } else {
            root(x)
        }
}

/// The representatives after the first `k` pairs.
spec fn representatives(pairs: Seq<(u64, u64)>, k: nat) -> spec_fn(u64) -> u64 {
    |x: u64| representative(pairs, k, x)
}

/// Representatives depend only on the pairs that were united.
proof fn lemma_same_prefix(p: Seq<(u64, u64)>, q: Seq<(u64, u64)>, k: nat, x: u64)
    requires
        k <= p.len(),
        k <= q.len(),
        forall|i: int| 0 <= i < k ==> p[i] == q[i],
    ensures
        representative(p, k, x) == representative(q, k, x),
    decreases k,
{
    if k > 0 {
        lemma_same_prefix(p, q, (k - 1) as nat, x);
        lemma_same_prefix(p, q, (k - 1) as nat, p[k - 1].0);
        lemma_same_prefix(p, q, (k - 1) as nat, p[k - 1].1);
    }
}

/// Vertices with one representative keep having one.
proof fn lemma_stay_united(pairs: Seq<(u64, u64)>, j: nat, k: nat, x: u64, y: u64)
    requires
        j <= k,
        representative(pairs, j, x) == representative(pairs, j, y),
    ensures
        representative(pairs, k, x) == representative(pairs, k, y),
    decreases k,
{
    if j < k {
        lemma_stay_united(pairs, j, (k - 1) as nat, x, y);
    }
}

/// The two vertices of a pair have one representative.
proof fn lemma_pair_united(pairs: Seq<(u64, u64)>, i: nat, k: nat)
    requires
        i < k,
    ensures
        representative(pairs, k, pairs[i as int].0) == representative(pairs, k, pairs[i as int].1),
{
    lemma_stay_united(pairs, i + 1, k, pairs[i as int].0, pairs[i as int].1);
}

/// Where pairs are adjacent, a vertex is connected to its representative.
proof fn lemma_representative_connected(n: Network, pairs: Seq<(u64, u64)>, k: nat, x: u64)
    requires
        k <= pairs.len(),
        forall|i: int| 0 <= i < pairs.len() ==> n.adjacent((#[trigger] pairs[i]).0, pairs[i].1),
    ensures
        connected(n, x, representative(pairs, k, x)),
    decreases k,
{
    assert(walk(n, x, x, 0));
    if k > 0 {
        let (a, b) = pairs[k - 1];
        let ra = representative(pairs, (k - 1) as nat, a);
        let rb = representative(pairs, (k - 1) as nat, b);
        lemma_representative_connected(n, pairs, (k - 1) as nat, x);
        if representative(pairs, (k - 1) as nat, x) == ra {
            lemma_representative_connected(n, pairs, (k - 1) as nat, a);
            lemma_representative_connected(n, pairs, (k - 1) as nat, b);
            connected_is_equivalence(n, a, ra, a);
            connected_is_equivalence(n, x, ra, a);
            assert(n.adjacent(pairs[k - 1].0, pairs[k - 1].1));
            assert(walk(n, a, a, 0));
            lemma_walk_step(n, a, a, b, 0);
            assert(connected(n, a, b));
            connected_is_equivalence(n, x, a, b);
            connected_is_equivalence(n, x, b, rb);
        }
    }
}

/// The united pairs are adjacent, and every adjacent pair is among them.
proof fn lemma_united_pairs(n: Network, k: nat)
    requires
        n.wf(),
        k <= n.vertices.len(),
    ensures
        forall|i: int| 0 <= i < united_pairs(n, k).len() ==> n.adjacent((#[trigger] united_pairs(n, k)[i]).0, united_pairs(n, k)[i].1),
        forall|j: int, w: u64|
            0 <= j < k && #[trigger] n.adjacent(n.vertices[j], w) ==> united_pairs(n, k).contains((n.vertices[j], w)),
    decreases k,
{
    if k > 0 {
        lemma_united_pairs(n, (k - 1) as nat);
        let before = united_pairs(n, (k - 1) as nat);
        let v = n.vertices[k - 1];
        let more = pairs_of(n, v);
        let all = united_pairs(n, k);
        assert forall|i: int| 0 <= i < all.len() implies n.adjacent((#[trigger] all[i]).0, all[i].1) by {
            if i < before.len() {
                assert(all[i] == before[i]);
            } else {
                let w = n.neighbors(v)[i - before.len()];
                assert(all[i] == (v, w));
                assert(n.neighbors(v).contains(w));
                lemma_neighbors(n, v, w);
            }
        }
        assert forall|j: int, w: u64| 0 <= j < k && #[trigger] n.adjacent(n.vertices[j], w) implies all.contains(
            (n.vertices[j], w),
        ) by {
            if j < k - 1 {
                let i = before.index_of((n.vertices[j], w));
                assert(all[i] == before[i]);
            } else {
                lemma_neighbors(n, v, w);
                let i = n.neighbors(v).index_of(w);
                assert(all[before.len() + i] == (v, w));
            }
        }
    }
}

/// Vertices have one representative exactly if they are connected.
pub proof fn representatives_tell_components(n: Network, u: u64, v: u64)
    requires
        n.wf(),
    ensures
        ({
            let pairs = united_pairs(n, n.vertices.len());
            (representative(pairs, pairs.len(), u) == representative(pairs, pairs.len(), v)) == connected(n, u, v)
        }),
{
    let pairs = united_pairs(n, n.vertices.len());
    let k = pairs.len();
    lemma_united_pairs(n, n.vertices.len());
    if connected(n, u, v) {
        let d = choose|d: nat| walk(n, u, v, d);
        lemma_walk_united(n, u, v, d);
    }
    if representative(pairs, k, u) == representative(pairs, k, v) {
        lemma_representative_connected(n, pairs, k, u);
        lemma_representative_connected(n, pairs, k, v);
        let r = representative(pairs, k, u);
        connected_is_equivalence(n, v, r, v);
        connected_is_equivalence(n, u, r, v);
    }
}

proof fn lemma_walk_united(n: Network, u: u64, v: u64, d: nat)
    requires
        n.wf(),
        walk(n, u, v, d),
    ensures
        ({
            let pairs = united_pairs(n, n.vertices.len());
            representative(pairs, pairs.len(), u) == representative(pairs, pairs.len(), v)
        }),
    decreases d,
{
    if d > 0 {
        let pairs = united_pairs(n, n.vertices.len());
        lemma_united_pairs(n, n.vertices.len());
        let w = lemma_walk_last(n, u, v, d);
        lemma_walk_united(n, u, w, (d - 1) as nat);
        lemma_neighbors(n, w, v);
        let j = n.vertices.index_of(w);
        assert(n.adjacent(n.vertices[j], v));
        assert(pairs.contains((w, v)));
        lemma_pair_united(pairs, pairs.index_of((w, v)) as nat, pairs.len());
    }
}

/// Weakly connected components via union-find: maps each vertex to the representative of its
/// component.
pub fn connected_components(g: &Graph) -> (r: HashMap<u64, u64>)
    ensures
        for_each_vertex(g@, r@),
        tells_components(g@, r@),
        forall|v: u64| #[trigger]
            r@.contains_key(v) ==> r@[v] == representative(
                united_pairs(g@, g@.vertices.len()),
                united_pairs(g@, g@.vertices.len()).len(),
                v,
            ),
{
    let all = g.vertices();
    let ghost n = g@;
    let ghost dom = n.vertices.to_set();
    let mut parent: HashMap<u64, u64> = HashMap::new();
    let mut i: usize = 0;
    while i < all.len()
        invariant
            n == g@,
            all@ == n.vertices,
            i <= all@.len(),
            forall|v: u64| #[trigger] parent@.contains_key(v) <==> exists|j: int| 0 <= j < i && all@[j] == v,
            forall|v: u64| #[trigger] parent@.contains_key(v) ==> parent@[v] == v,
        decreases all@.len() - i,
    {
        parent.insert(all[i], all[i]);
        i += 1;
    }
    let ghost mut rank: spec_fn(u64) -> nat = |x: u64| 0nat;
    let ghost mut bound: nat = 0;
    let ghost pairs = united_pairs(n, n.vertices.len());
    proof {
        assert(parent@.dom() =~= dom);
        assert forall|x: u64| dom.contains(x) implies #[trigger] leads(
            dom,
            parent@,
            representatives(united_pairs(n, 0), 0),
            rank,
            bound,
            x,
        ) by {
            assert(parent@.contains_key(x));
        }
        assert(leads_to(dom, parent@, representatives(united_pairs(n, 0), 0), rank, bound));
    }
    let mut i: usize = 0;
    while i < all.len()
        invariant
            n == g@,
            n.wf(),
            all@ == n.vertices,
            dom == n.vertices.to_set(),
            i <= all@.len(),
            leads_to(
                dom,
                parent@,
                representatives(united_pairs(n, i as nat), united_pairs(n, i as nat).len()),
                rank,
                bound,
            ),
        decreases all@.len() - i,
    {
        let v: u64 = all[i];
        let list = g.neighbors(v);
        let ghost before = united_pairs(n, i as nat);
        let ghost now = united_pairs(n, (i + 1) as nat);
        let mut j: usize = 0;
        proof {
            assert(now =~= before + pairs_of(n, v));
            assert(dom.contains(v)) by {
                assert(n.vertices.contains(v));
            }
            lemma_representatives_extend(dom, parent@, before, now, before.len(), rank, bound);
        }
        while j < list.len()
            invariant
                n == g@,
                n.wf(),
                dom == n.vertices.to_set(),
                list@ == n.neighbors(v),
                j <= list@.len(),
                dom.contains(v),
                now == before + pairs_of(n, v),
                leads_to(dom, parent@, representatives(now, (before.len() + j) as nat), rank, bound),
            decreases list@.len() - j,
        {
            let w: u64 = list[j];
            proof {
                assert(n.neighbors(v).contains(w));
                lemma_neighbors(n, v, w);
                assert(n.vertices.contains(w));
                assert(now[before.len() + j] == (v, w));
            }
            let ghost k = (before.len() + j) as nat;
            union(&mut parent, v, w, Ghost(dom), Ghost(representatives(now, k)), Ghost(rank), Ghost(bound));
            proof {
                let (rank1, bound1) = choose|rank1: spec_fn(u64) -> nat, bound1: nat| #[trigger]
                    leads_to(dom, parent@, merged(representatives(now, k), v, w), rank1, bound1);
                rank = rank1;
                bound = bound1;
                assert forall|x: u64| #[trigger]
                    merged(representatives(now, k), v, w)(x) == representatives(now, k + 1)(x) by {}
                lemma_same_roots(
                    dom,
                    parent@,
                    merged(representatives(now, k), v, w),
                    representatives(now, k + 1),
                    rank,
                    bound,
                );
            }
            j += 1;
        }
        i += 1;
    }
    let mut r: HashMap<u64, u64> = HashMap::new();
    let mut i: usize = 0;
    while i < all.len()
        invariant
            n == g@,
            all@ == n.vertices,
            dom == n.vertices.to_set(),
            pairs == united_pairs(n, n.vertices.len()),
            i <= all@.len(),
            leads_to(dom, parent@, representatives(pairs, pairs.len()), rank, bound),
            forall|v: u64| #[trigger] r@.contains_key(v) <==> exists|j: int| 0 <= j < i && all@[j] == v,
            forall|v: u64| #[trigger] r@.contains_key(v) ==> r@[v] == representative(pairs, pairs.len(), v),
        decreases all@.len() - i,
    {
        assert(dom.contains(all@[i as int])) by {
            assert(n.vertices.contains(all@[i as int]));
        }
        let c: u64 = find(
            &mut parent,
            all[i],
            Ghost(dom),
            Ghost(representatives(pairs, pairs.len())),
            Ghost(rank),
            Ghost(bound),
        );
        r.insert(all[i], c);
        i += 1;
    }
    proof {
        assert(r@.dom() =~= n.vertices.to_set());
        assert forall|u: u64, v: u64| #[trigger] r@.contains_key(u) && #[trigger] r@.contains_key(v) implies (r@[u] == r@[v]
            <==> connected(n, u, v)) by {
            representatives_tell_components(n, u, v);
        }
    }
    r
}

/// Parents lead to representatives by whatever name these go.
proof fn lemma_same_roots(
    dom: Set<u64>,
    parent: Map<u64, u64>,
    root: spec_fn(u64) -> u64,
    other: spec_fn(u64) -> u64,
    rank: spec_fn(u64) -> nat,
    bound: nat,
)
    requires
        leads_to(dom, parent, root, rank, bound),
        forall|x: u64| #[trigger] root(x) == other(x),
    ensures
        leads_to(dom, parent, other, rank, bound),
{
    assert forall|x: u64| dom.contains(x) implies #[trigger] leads(dom, parent, other, rank, bound, x) by {
        assert(leads(dom, parent, root, rank, bound, x));
        assert(root(x) == other(x));
        assert(root(parent[x]) == other(parent[x]));
    }
}

/// More pairs behind those that were united change nothing.
proof fn lemma_representatives_extend(
    dom: Set<u64>,
    parent: Map<u64, u64>,
    before: Seq<(u64, u64)>,
    now: Seq<(u64, u64)>,
    k: nat,
    rank: spec_fn(u64) -> nat,
    bound: nat,
)
    requires
        leads_to(dom, parent, representatives(before, k), rank, bound),
        k <= before.len(),
        k <= now.len(),
        forall|i: int| 0 <= i < k ==> before[i] == now[i],
    ensures
        leads_to(dom, parent, representatives(now, k), rank, bound),
{
    assert forall|x: u64| #[trigger] representatives(before, k)(x) == representatives(now, k)(x) by {
        lemma_same_prefix(before, now, k, x);
    }
    lemma_same_roots(dom, parent, representatives(before, k), representatives(now, k), rank, bound);
}

} // verus!
