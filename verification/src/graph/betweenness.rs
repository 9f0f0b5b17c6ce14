//! Betweenness centrality (Brandes' algorithm). Edges are followed in both directions.
//!
//! Each sum is rounded to a double as soon as it is made, by the function that reads quantities.
use std::collections::HashMap;

use vstd::prelude::*;

use crate::graph::centrality::{for_each_vertex, lemma_steps, steps};
use crate::graph::dag::{lemma_occurrences_prefix, occurrences};
use crate::graph::distance::{connected, is_distance, search_from, search_order};
use crate::graph::scores::{round, rounded};
use crate::graph::{append_to, copy_of, lemma_neighbors, list_of, Graph, Network};
use crate::quantity::{reads, Quantity};

verus! {

broadcast use vstd::std_specs::hash::group_hash_axioms;

/// A value, repeated.
pub open spec fn repeated(v: u64, k: nat) -> Seq<u64> {
    Seq::new(k, |i: int| v)
}

/// The vertices among the first `k` of a search that stand one step before a vertex, each as often
/// as edges connect the two.
pub open spec fn steps_before(n: Network, s: u64, w: u64, k: nat) -> Seq<u64>
    decreases k,
{
    if k == 0 {
        Seq::empty()
    } else {
        let before = steps_before(n, s, w, (k - 1) as nat);
        let v = search_order(n, s)[k - 1];
        if steps(n, s, w) == steps(n, s, v) + 1 {
            before + repeated(v, occurrences(n.neighbors(v), w))
        } else {
            before
        }
    }
}

/// The vertices one step before a vertex, in the order of the search.
pub open spec fn predecessors(n: Network, s: u64, w: u64) -> Seq<u64> {
    steps_before(n, s, w, search_order(n, s).len())
}

/// The number of shortest paths from one vertex to another.
pub open spec fn shortest_paths(n: Network, s: u64, w: u64) -> nat
    decreases steps(n, s, w), 1int, 0nat,
{
    if w == s {
        1
    } else {
        paths_via(n, s, w, predecessors(n, s, w).len())
    }
}

/// The number of shortest paths to a vertex by way of its first `k` predecessors.
pub open spec fn paths_via(n: Network, s: u64, w: u64, k: nat) -> nat
    decreases steps(n, s, w), 0int, k,
{
    if k == 0 {
        0
    } else {
        let p = predecessors(n, s, w)[k - 1];
        paths_via(n, s, w, (k - 1) as nat) + if steps(n, s, p) < steps(n, s, w) {
            shortest_paths(n, s, p)
        } else {
            0
        }
    }
}

/// What a vertex hands on to a predecessor: the share of its paths that lead through it, times one
/// and what it has itself.
pub open spec fn handed_on(n: Network, s: u64, delta: Map<u64, Quantity>, w: u64, p: u64) -> Quantity {
    Quantity::product(
        Quantity::quotient(
            Quantity::Count(shortest_paths(n, s, p) as u64),
            Quantity::Count(shortest_paths(n, s, w) as u64),
        ),
        Quantity::sum(Quantity::Count(1), delta[w]),
    )
}

/// What the vertices have once a vertex has handed on to its first `k` predecessors.
pub open spec fn credited<B: Fn(&Quantity) -> u64>(
    bits: B,
    n: Network,
    s: u64,
    delta: Map<u64, Quantity>,
    w: u64,
    k: nat,
) -> Map<u64, Quantity>
    decreases k,
{
    if k == 0 {
        delta
    } else {
        let before = credited(bits, n, s, delta, w, (k - 1) as nat);
        let p = predecessors(n, s, w)[k - 1];
        before.insert(p, rounded(bits, Quantity::sum(before[p], handed_on(n, s, before, w, p))))
    }
}

/// Nothing for each vertex.
pub open spec fn nothing(n: Network) -> Map<u64, Quantity> {
    Map::new(|v: u64| n.vertices.contains(v), |v: u64| Quantity::Count(0))
}

/// What the vertices have once the last `k` of a search have handed on, the farthest first.
pub open spec fn dependencies<B: Fn(&Quantity) -> u64>(bits: B, n: Network, s: u64, k: nat) -> Map<u64, Quantity>
    decreases k,
{
    if k == 0 {
        nothing(n)
    } else {
        let order = search_order(n, s);
        let w = order[order.len() - k];
        credited(bits, n, s, dependencies(bits, n, s, (k - 1) as nat), w, predecessors(n, s, w).len())
    }
}

/// The centrality of each vertex from the paths that start at the first `k` vertices.
pub open spec fn betweenness<B: Fn(&Quantity) -> u64>(bits: B, n: Network, k: nat) -> Map<u64, Quantity>
    decreases k,
{
    if k == 0 {
        nothing(n)
    } else {
        let before = betweenness(bits, n, (k - 1) as nat);
        let s = n.vertices[k - 1];
        let order = search_order(n, s);
        Map::new(
            |v: u64| n.vertices.contains(v),
            |v: u64|
                if v != s && order.contains(v) {
                    rounded(bits, Quantity::sum(before[v], dependencies(bits, n, s, order.len())[v]))
                } else {
                    before[v]
                },
        )
    }
}

/// Whether the numbers of shortest paths fit in a machine word.
pub open spec fn paths_fit(n: Network) -> bool {
    forall|s: u64, w: u64|
        n.vertices.contains(s) && n.vertices.contains(w) ==> #[trigger] shortest_paths(n, s, w) <= usize::MAX
}

/// What is known of a finished search.
spec fn searched(n: Network, s: u64, order: Seq<u64>, dist: Map<u64, usize>) -> bool {
    &&& n.wf()
    &&& n.vertices.contains(s)
    &&& order == search_order(n, s)
    &&& order.no_duplicates()
    &&& forall|v: u64| #[trigger] dist.contains_key(v) <==> order.contains(v)
    &&& forall|v: u64| #[trigger] dist.contains_key(v) ==> dist[v] == steps(n, s, v) && n.vertices.contains(v)
    &&& forall|i: int, j: int| 0 <= i < j < order.len() ==> dist[#[trigger] order[i]] <= dist[#[trigger] order[j]]
    &&& forall|v: u64, w: u64| dist.contains_key(v) && #[trigger] n.adjacent(v, w) ==> dist.contains_key(w)
    &&& order.len() > 0 && order[0] == s
    &&& dist.contains_key(s) && dist[s] == 0
}

/// Predecessors stand one step before, among the searched vertices.
pub proof fn lemma_predecessors(n: Network, s: u64, w: u64, k: nat, j: int)
    requires
        k <= search_order(n, s).len(),
        0 <= j < steps_before(n, s, w, k).len(),
    ensures
        search_order(n, s).contains(steps_before(n, s, w, k)[j]),
        steps(n, s, w) == steps(n, s, steps_before(n, s, w, k)[j]) + 1,
    decreases k,
{
    let before = steps_before(n, s, w, (k - 1) as nat);
    let v = search_order(n, s)[k - 1];
    assert(search_order(n, s).contains(v));
    if j < before.len() {
        lemma_predecessors(n, s, w, (k - 1) as nat, j);
    }
}

/// Vertices that are searched later add no predecessors to one that is searched earlier.
proof fn lemma_predecessors_complete(n: Network, s: u64, order: Seq<u64>, dist: Map<u64, usize>, i: int, k: nat)
    requires
        searched(n, s, order, dist),
        0 <= i < order.len(),
        i <= k <= order.len(),
    ensures
        steps_before(n, s, order[i], k) == steps_before(n, s, order[i], i as nat),
    decreases k,
{
    if k > i {
        lemma_predecessors_complete(n, s, order, dist, i, (k - 1) as nat);
        let v = order[k - 1];
        assert(order.contains(v) && order.contains(order[i]));
        assert(dist.contains_key(v) && dist.contains_key(order[i]));
        if i < k - 1 {
            assert(dist[order[i]] <= dist[order[k - 1]]);
        }
    }
}

proof fn lemma_predecessors_grow(n: Network, s: u64, w: u64, j: nat, k: nat)
    requires
        j <= k,
    ensures
        steps_before(n, s, w, j).len() <= steps_before(n, s, w, k).len(),
        steps_before(n, s, w, j) == steps_before(n, s, w, k).take(steps_before(n, s, w, j).len() as int),
    decreases k - j,
{
    if j < k {
        lemma_predecessors_grow(n, s, w, j, (k - 1) as nat);
        let a = steps_before(n, s, w, j);
        let b = steps_before(n, s, w, (k - 1) as nat);
        let c = steps_before(n, s, w, k);
        assert(b =~= c.take(b.len() as int));
        assert(a =~= c.take(a.len() as int));
    } else {
        let a = steps_before(n, s, w, j);
        assert(a =~= a.take(a.len() as int));
    }
}

proof fn lemma_paths_via_grow(n: Network, s: u64, w: u64, j: nat, k: nat)
    requires
        j <= k,
    ensures
        paths_via(n, s, w, j) <= paths_via(n, s, w, k),
    decreases k - j,
{
    if j < k {
        lemma_paths_via_grow(n, s, w, j, (k - 1) as nat);
    }
}

/// The predecessors of the vertices, and the numbers of shortest paths that are known so far.
struct Paths {
    pred: HashMap<u64, Vec<u64>>,
    sigma: HashMap<u64, usize>,
}

spec fn sigma_of(m: Map<u64, usize>, v: u64) -> nat {
    if m.contains_key(v) {
        m[v] as nat
    } else {
        0
    }
}

/// Whether the paths by way of the predecessors on a list have been counted.
spec fn counted(n: Network, s: u64, pred: Seq<u64>, sigma: nat, w: u64) -> bool {
    if w == s {
        sigma == 1 && pred.len() == 0
    } else {
        &&& pred.len() <= predecessors(n, s, w).len()
        &&& pred == predecessors(n, s, w).take(pred.len() as int)
        &&& sigma == paths_via(n, s, w, pred.len())
    }
}

proof fn lemma_start(n: Network, s: u64, order: Seq<u64>, dist: Map<u64, usize>)
    requires
        searched(n, s, order, dist),
    ensures
        steps(n, s, s) == 0,
        predecessors(n, s, s).len() == 0,
{
    assert(dist.contains_key(s));
    if predecessors(n, s, s).len() > 0 {
        lemma_predecessors(n, s, s, order.len(), 0);
    }
}

/// A predecessor more on the list of a vertex.
proof fn lemma_count_one(n: Network, s: u64, order: Seq<u64>, dist: Map<u64, usize>, i: int, j: nat, w: u64, pred: Seq<u64>, sigma: nat)
    requires
        searched(n, s, order, dist),
        0 <= i < order.len(),
        steps(n, s, w) == steps(n, s, order[i]) + 1,
        w != s,
        j < occurrences(n.neighbors(order[i]), w),
        pred == steps_before(n, s, w, i as nat) + repeated(order[i], j),
        counted(n, s, pred, sigma, w),
    ensures
        counted(n, s, pred.push(order[i]), sigma + shortest_paths(n, s, order[i]), w),
        pred.push(order[i]) == steps_before(n, s, w, i as nat) + repeated(order[i], j + 1),
{
    let v = order[i];
    let next = pred.push(v);
    let full = predecessors(n, s, w);
    assert(next =~= steps_before(n, s, w, i as nat) + repeated(v, j + 1));
    let after = steps_before(n, s, w, (i + 1) as nat);
    lemma_predecessors_grow(n, s, w, (i + 1) as nat, order.len());
    assert(next =~= after.take(next.len() as int));
    assert(next =~= full.take(next.len() as int));
    assert(next[pred.len() as int] == v);
    assert(full.take(next.len() as int)[pred.len() as int] == full[pred.len() as int]);
    assert(order.contains(v));
    assert(dist.contains_key(v));
}

fn count_paths(g: &Graph, s: u64, order: &Vec<u64>, dist: &HashMap<u64, usize>) -> (r: Paths)
    requires
        searched(g@, s, order@, dist@),
        paths_fit(g@),
    ensures
        forall|w: u64| #[trigger] dist@.contains_key(w) ==> list_of(r.pred@, w) == predecessors(g@, s, w),
        forall|w: u64| #[trigger] dist@.contains_key(w) ==> sigma_of(r.sigma@, w) == shortest_paths(g@, s, w),
{
    let ghost n = g@;
    let mut pred: HashMap<u64, Vec<u64>> = HashMap::new();
    let mut sigma: HashMap<u64, usize> = HashMap::new();
    sigma.insert(s, 1);
    proof {
        lemma_start(n, s, order@, dist@);
        assert forall|w: u64| #[trigger] dist@.contains_key(w) implies list_of(pred@, w) == steps_before(n, s, w, 0)
            && counted(n, s, list_of(pred@, w), sigma_of(sigma@, w), w) by {
            assert(list_of(pred@, w) =~= predecessors(n, s, w).take(0));
        }
    }
    let mut i: usize = 0;
    while i < order.len()
        invariant
            n == g@,
            searched(n, s, order@, dist@),
            paths_fit(n),
            i <= order@.len(),
            forall|w: u64| #[trigger] dist@.contains_key(w) ==> list_of(pred@, w) == steps_before(n, s, w, i as nat) && counted(
                n,
                s,
                list_of(pred@, w),
                sigma_of(sigma@, w),
                w,
            ),
        decreases order@.len() - i,
    {
        let v: u64 = order[i];
        proof {
            assert(order@.contains(v));
            assert(dist@.contains_key(v));
            lemma_start(n, s, order@, dist@);
            lemma_predecessors_complete(n, s, order@, dist@, i as int, order@.len());
            assert(list_of(pred@, v) == predecessors(n, s, v));
            assert(sigma_of(sigma@, v) == shortest_paths(n, s, v));
        }
        let sv: usize = match sigma.get(&v) {
            Some(x) => *x,
            None => 0,
        };
        let dv: usize = match dist.get(&v) {
            Some(x) => *x,
            None => 0,
        };
        let list = g.neighbors(v);
        let mut j: usize = 0;
        assert(list@.take(0) =~= Seq::empty());
        proof {
            assert forall|w: u64| #[trigger] dist@.contains_key(w) implies list_of(pred@, w) == entered(n, s, w, i as nat, list@.take(0)) by {
                assert(repeated(v, 0) =~= Seq::empty());
                assert(steps_before(n, s, w, i as nat) + repeated(v, 0) =~= steps_before(n, s, w, i as nat));
            }
        }
        while j < list.len()
            invariant
                n == g@,
                searched(n, s, order@, dist@),
                paths_fit(n),
                i < order@.len(),
                v == order@[i as int],
                dist@.contains_key(v),
                sv == shortest_paths(n, s, v),
                dv == steps(n, s, v),
                list@ == n.neighbors(v),
                j <= list@.len(),
                forall|w: u64| #[trigger]
                    dist@.contains_key(w) ==> list_of(pred@, w) == entered(n, s, w, i as nat, list@.take(j as int)) && counted(
                        n,
                        s,
                        list_of(pred@, w),
                        sigma_of(sigma@, w),
                        w,
                    ),
            decreases list@.len() - j,
        {
            let w: u64 = list[j];
            let ghost pred0 = pred@;
            let ghost sigma0 = sigma@;
            proof {
                lemma_neighbors(n, v, w);
                assert(list@.contains(w));
                assert(n.adjacent(v, w));
                assert(dist@.contains_key(w));
            }
            let dw: usize = match dist.get(&w) {
                Some(x) => *x,
                None => 0,
            };
            if dw > 0 && dw - 1 == dv {
                let sw: usize = match sigma.get(&w) {
                    Some(x) => *x,
                    None => 0,
                };
                proof {
                    lemma_occurrences_prefix(list@, j as int, w);
                    lemma_count_one(
                        n,
                        s,
                        order@,
                        dist@,
                        i as int,
                        occurrences(list@.take(j as int), w),
                        w,
                        list_of(pred0, w),
                        sigma_of(sigma0, w),
                    );
                    lemma_paths_via_grow(n, s, w, list_of(pred0, w).len() + 1, predecessors(n, s, w).len());
                    assert(shortest_paths(n, s, w) <= usize::MAX);
                }
                append_to(&mut pred, w, v);
                sigma.insert(w, sw + sv);
            }
            proof {
                assert forall|x: u64| #[trigger] dist@.contains_key(x) implies list_of(pred@, x) == entered(
                    n,
                    s,
                    x,
                    i as nat,
                    list@.take(j + 1),
                ) && counted(n, s, list_of(pred@, x), sigma_of(sigma@, x), x) by {
                    lemma_occurrences_prefix(list@, j as int, x);
                    assert(list_of(pred0, x) == entered(n, s, x, i as nat, list@.take(j as int)));
                    assert(counted(n, s, list_of(pred0, x), sigma_of(sigma0, x), x));
                }
            }
            j += 1;
        }
        proof {
            assert(list@.take(j as int) =~= list@);
        }
        i += 1;
    }
    proof {
        assert forall|w: u64| #[trigger] dist@.contains_key(w) implies sigma_of(sigma@, w) == shortest_paths(n, s, w)
            && list_of(pred@, w) == predecessors(n, s, w) by {
            lemma_start(n, s, order@, dist@);
            assert(list_of(pred@, w) == predecessors(n, s, w));
        }
    }
    Paths { pred, sigma }
}

/// The predecessors of a vertex once some of the edge ends of the vertex at a position are through.
spec fn entered(n: Network, s: u64, w: u64, i: nat, part: Seq<u64>) -> Seq<u64> {
    let v = search_order(n, s)[i as int];
    if steps(n, s, w) == steps(n, s, v) + 1 {
        steps_before(n, s, w, i) + repeated(v, occurrences(part, w))
    } else {
        steps_before(n, s, w, i)
    }
}

fn look_up(m: &HashMap<u64, usize>, v: u64) -> (r: usize)
    ensures
        r == sigma_of(m@, v),
{
    match m.get(&v) {
        Some(x) => *x,
        None => 0,
    }
}

fn take_out(m: &mut HashMap<u64, Quantity>, v: u64) -> (r: Quantity)
    requires
        old(m)@.contains_key(v),
    ensures
        final(m)@ == old(m)@.remove(v),
        r == old(m)@[v],
{
    match m.remove(&v) {
        Some(q) => q,
        None => Quantity::Count(0),
    }
}

fn zeros(g: &Graph) -> (r: HashMap<u64, Quantity>)
    ensures
        r@ == nothing(g@),
        g@.wf(),
{
    let all = g.vertices();
    let ghost n = g@;
    let mut r: HashMap<u64, Quantity> = HashMap::new();
    let mut i: usize = 0;
    while i < all.len()
        invariant
            all@ == n.vertices,
            i <= all@.len(),
            forall|v: u64| #[trigger] r@.contains_key(v) <==> exists|j: int| 0 <= j < i && all@[j] == v,
            forall|v: u64| #[trigger] r@.contains_key(v) ==> r@[v] == Quantity::Count(0),
        decreases all@.len() - i,
    {
        r.insert(all[i], Quantity::Count(0));
        i += 1;
    }
    assert(r@ =~= nothing(n));
    r
}

proof fn lemma_credited_domain<B: Fn(&Quantity) -> u64>(
    bits: B,
    n: Network,
    s: u64,
    order: Seq<u64>,
    dist: Map<u64, usize>,
    delta: Map<u64, Quantity>,
    w: u64,
    k: nat,
)
    requires
        searched(n, s, order, dist),
        forall|v: u64| #[trigger] delta.contains_key(v) <==> n.vertices.contains(v),
        k <= predecessors(n, s, w).len(),
    ensures
        forall|v: u64| #[trigger] credited(bits, n, s, delta, w, k).contains_key(v) <==> n.vertices.contains(v),
    decreases k,
{
    if k > 0 {
        lemma_credited_domain(bits, n, s, order, dist, delta, w, (k - 1) as nat);
        lemma_predecessors(n, s, w, order.len(), k - 1);
        let p = predecessors(n, s, w)[k - 1];
        let before = credited(bits, n, s, delta, w, (k - 1) as nat);
        assert(dist.contains_key(p));
        assert forall|v: u64| #[trigger] credited(bits, n, s, delta, w, k).contains_key(v) <==> n.vertices.contains(v) by {
            assert(before.contains_key(v) <==> n.vertices.contains(v));
        }
    }
}

fn dependencies_of<B: Fn(&Quantity) -> u64>(
    g: &Graph,
    bits: &B,
    s: u64,
    order: &Vec<u64>,
    dist: &HashMap<u64, usize>,
    paths: &Paths,
) -> (delta: HashMap<u64, Quantity>)
    requires
        reads(*bits),
        searched(g@, s, order@, dist@),
        paths_fit(g@),
        forall|w: u64| #[trigger] dist@.contains_key(w) ==> list_of(paths.pred@, w) == predecessors(g@, s, w),
        forall|w: u64| #[trigger] dist@.contains_key(w) ==> sigma_of(paths.sigma@, w) == shortest_paths(g@, s, w),
    ensures
        delta@ == dependencies(*bits, g@, s, order@.len()),
        forall|v: u64| #[trigger] delta@.contains_key(v) <==> g@.vertices.contains(v),
{
    let ghost n = g@;
    let mut delta = zeros(g);
    let mut i: usize = order.len();
    while i > 0
        invariant
            n == g@,
            reads(*bits),
            searched(n, s, order@, dist@),
            i <= order@.len(),
            forall|w: u64| #[trigger] dist@.contains_key(w) ==> list_of(paths.pred@, w) == predecessors(n, s, w),
            forall|w: u64| #[trigger] dist@.contains_key(w) ==> sigma_of(paths.sigma@, w) == shortest_paths(n, s, w),
            delta@ == dependencies(*bits, n, s, (order@.len() - i) as nat),
            forall|v: u64| #[trigger] delta@.contains_key(v) <==> n.vertices.contains(v),
        decreases i,
    {
        i -= 1;
        let w: u64 = order[i];
        let ghost start = delta@;
        proof {
            assert(order@.contains(w));
            assert(dist@.contains_key(w));
        }
        let list = copy_of(&paths.pred, w);
        let sw: usize = look_up(&paths.sigma, w);
        let mut j: usize = 0;
        while j < list.len()
            invariant
                n == g@,
                reads(*bits),
                searched(n, s, order@, dist@),
                dist@.contains_key(w),
                list@ == predecessors(n, s, w),
                sw == shortest_paths(n, s, w),
                forall|x: u64| #[trigger] dist@.contains_key(x) ==> sigma_of(paths.sigma@, x) == shortest_paths(n, s, x),
                forall|v: u64| #[trigger] start.contains_key(v) <==> n.vertices.contains(v),
                j <= list@.len(),
                delta@ == credited(*bits, n, s, start, w, j as nat),
                forall|v: u64| #[trigger] delta@.contains_key(v) <==> n.vertices.contains(v),
            decreases list@.len() - j,
        {
            let p: u64 = list[j];
            let ghost before = delta@;
            proof {
                lemma_predecessors(n, s, w, order@.len(), j as int);
                assert(dist@.contains_key(p));
                assert(n.vertices.contains(p) && n.vertices.contains(w));
                lemma_credited_domain(*bits, n, s, order@, dist@, start, w, (j + 1) as nat);
            }
            let sp: usize = look_up(&paths.sigma, p);
            let own = match delta.get(&w) {
                Some(q) => q.clone(),
                None => Quantity::Count(0),
            };
            let part = Quantity::Count(sp as u64).over(Quantity::Count(sw as u64)).times(Quantity::Count(1).plus(own));
            let had = take_out(&mut delta, p);
            delta.insert(p, round(bits, had.plus(part)));
            assert(delta@ =~= credited(*bits, n, s, start, w, (j + 1) as nat));
            j += 1;
        }
    }
    delta
}

/// Betweenness centrality (Brandes' algorithm, unweighted, undirected).
pub fn betweenness_centrality<B: Fn(&Quantity) -> u64>(g: &Graph, bits: &B) -> (cb: HashMap<u64, Quantity>)
    requires
        reads(*bits),
        paths_fit(g@),
    ensures
        for_each_vertex(g@, cb@),
        cb@ == betweenness(*bits, g@, g@.vertices.len()),
{
    let all = g.vertices();
    let ghost n = g@;
    let mut cb = zeros(g);
    let mut i: usize = 0;
    while i < all.len()
        invariant
            n == g@,
            n.wf(),
            reads(*bits),
            paths_fit(n),
            all@ == n.vertices,
            i <= all@.len(),
            cb@ == betweenness(*bits, n, i as nat),
            forall|v: u64| #[trigger] cb@.contains_key(v) <==> n.vertices.contains(v),
        decreases all@.len() - i,
    {
        let s: u64 = all[i];
        let found = search_from(g, s);
        let order = found.order;
        let dist = found.distance;
        proof {
            assert(n.vertices.contains(s));
            lemma_searched(n, s, order@, dist@);
        }
        let paths = count_paths(g, s, &order, &dist);
        let mut delta = dependencies_of(g, bits, s, &order, &dist, &paths);
        let ghost start = cb@;
        let ghost gained = delta@;
        let mut j: usize = 0;
        proof {
            assert forall|k: int| 0 <= k < order@.len() implies delta@.contains_key(#[trigger] order@[k]) by {
                assert(order@.contains(order@[k]));
                assert(dist@.contains_key(order@[k]));
            }
        }
        while j < order.len()
            invariant
                n == g@,
                reads(*bits),
                searched(n, s, order@, dist@),
                j <= order@.len(),
                forall|v: u64| #[trigger] start.contains_key(v) <==> n.vertices.contains(v),
                forall|v: u64| #[trigger] gained.contains_key(v) <==> n.vertices.contains(v),
                forall|v: u64| #[trigger] cb@.contains_key(v) <==> n.vertices.contains(v),
                forall|k: int| j <= k < order@.len() ==> delta@.contains_key(#[trigger] order@[k]) && delta@[order@[k]] == gained[order@[k]],
                forall|v: u64| #[trigger]
                    cb@.contains_key(v) ==> cb@[v] == if v != s && order@.take(j as int).contains(v) {
                        rounded(*bits, Quantity::sum(start[v], gained[v]))
                    } else {
                        start[v]
                    },
            decreases order@.len() - j,
        {
            let v: u64 = order[j];
            let ghost cb0 = cb@;
            proof {
                assert(order@.contains(v));
                assert(dist@.contains_key(v));
                assert(delta@.contains_key(order@[j as int]));
            }
            let q = take_out(&mut delta, v);
            if v != s {
                let had = take_out(&mut cb, v);
                proof {
                    if order@.take(j as int).contains(v) {
                        let k = order@.take(j as int).index_of(v);
                        assert(order@[k] == v);
                    }
                    assert(cb0.contains_key(v));
                    assert(had == start[v]);
                }
                cb.insert(v, round(bits, had.plus(q)));
            }
            proof {
                assert forall|x: u64| #[trigger] cb@.contains_key(x) implies cb@[x] == if x != s && order@.take(j + 1).contains(x) {
                    rounded(*bits, Quantity::sum(start[x], gained[x]))
                } else {
                    start[x]
                } by {
                    let a = order@.take(j as int);
                    let b = order@.take(j + 1);
                    assert(b[j as int] == v);
                    if a.contains(x) {
                        assert(b[a.index_of(x)] == x);
                    }
                    if b.contains(x) && x != v {
                        assert(a[b.index_of(x)] == x);
                    }
                    assert(cb0.contains_key(x));
                }
            }
            j += 1;
        }
        proof {
            assert(order@.take(j as int) =~= order@);
            assert(cb@ =~= betweenness(*bits, n, (i + 1) as nat));
        }
        i += 1;
    }
    assert(cb@.dom() =~= n.vertices.to_set());
    cb
}

proof fn lemma_searched(n: Network, s: u64, order: Seq<u64>, dist: Map<u64, usize>)
    requires
        n.wf(),
        n.vertices.contains(s),
        order == search_order(n, s),
        crate::graph::distance::in_line(dist, s, order),
        forall|v: u64| #[trigger] dist.contains_key(v) <==> connected(n, s, v),
        forall|v: u64| #[trigger] dist.contains_key(v) ==> is_distance(n, s, v, dist[v] as nat),
    ensures
        searched(n, s, order, dist),
{
    assert forall|v: u64| #[trigger] dist.contains_key(v) implies dist[v] == steps(n, s, v) && n.vertices.contains(v) by {
        lemma_steps(n, s, v, dist[v] as nat);
        crate::graph::distance::lemma_connected_is_vertex(n, s, v);
    }
    assert forall|v: u64, w: u64| dist.contains_key(v) && #[trigger] n.adjacent(v, w) implies dist.contains_key(w) by {
        crate::graph::distance::lemma_walk_step(n, s, v, w, dist[v] as nat);
        assert(connected(n, s, w));
    }
    assert(order.contains(order[0]));
    assert(dist.contains_key(s));
    assert(crate::graph::distance::walk(n, s, s, 0));
}

} // verus!
