//! Bridges and articulation points. Edges are followed in both directions.
use std::collections::{HashMap, HashSet};

use vstd::prelude::*;

use crate::graph::distance::{connected, lemma_walk_last, lemma_walk_step, walk};
use crate::graph::{lemma_neighbors, Edge, Graph, Network};

verus! {

broadcast use vstd::std_specs::hash::group_hash_axioms;

/// A relation between vertices: which one can be stepped to from which.
pub type Step = spec_fn(u64, u64) -> bool;

/// Whether `k` steps lead from one vertex to another.
pub open spec fn walk_by(step: Step, a: u64, b: u64, k: nat) -> bool
    decreases k,
{
    if k == 0 {
        a == b
    } else {
        exists|w: u64| walk_by(step, a, w, (k - 1) as nat) && #[trigger] step(w, b)
    }
}

/// Whether steps lead from one vertex to another.
pub open spec fn linked(step: Step, a: u64, b: u64) -> bool {
    exists|k: nat| walk_by(step, a, b, k)
}

/// Along edges between vertices of a set.
pub open spec fn within(n: Network, s: Set<u64>) -> Step {
    |x: u64, y: u64| n.adjacent(x, y) && s.contains(x) && s.contains(y)
}

/// Along edges that do not touch a vertex.
pub open spec fn without_vertex(n: Network, c: u64) -> Step {
    |x: u64, y: u64| n.adjacent(x, y) && x != c && y != c
}

/// Along edges that do not connect two given vertices.
spec fn without_pair(n: Network, u: u64, v: u64) -> Step {
    |x: u64, y: u64| n.adjacent(x, y) && !(x == u && y == v) && !(x == v && y == u)
}

/// Whether an edge connects two vertices, in either direction.
pub open spec fn joins(e: Edge, u: u64, v: u64) -> bool {
    (e.from == u && e.to == v) || (e.from == v && e.to == u)
}

/// Along the edges other than the one at a position.
pub open spec fn without_edge(n: Network, i: int) -> Step {
    |x: u64, y: u64| exists|j: int| 0 <= j < n.edges.len() && j != i && joins(#[trigger] n.edges[j], x, y)
}

/// Whether two vertices are connected by an edge, and no longer once that edge is taken out.
pub open spec fn is_bridge(n: Network, u: u64, v: u64) -> bool {
    u != v && exists|i: int|
        0 <= i < n.edges.len() && joins(#[trigger] n.edges[i], u, v) && !linked(without_edge(n, i), u, v)
}

/// Whether two adjacent vertices are connected by no other way than the edges between them.
spec fn parts_pair(n: Network, u: u64, v: u64) -> bool {
    u != v && n.adjacent(u, v) && !linked(without_pair(n, u, v), u, v)
}

/// Whether two other vertices are connected only by way of a vertex.
pub open spec fn is_articulation_point(n: Network, c: u64) -> bool {
    n.vertices.contains(c) && exists|a: u64, b: u64|
        a != c && b != c && #[trigger] connected(n, a, b) && !#[trigger] linked(without_vertex(n, c), a, b)
}

spec fn symmetric(step: Step) -> bool {
    forall|x: u64, y: u64| #[trigger] step(x, y) ==> step(y, x)
}

proof fn lemma_linked_self(step: Step, a: u64)
    ensures
        linked(step, a, a),
{
    assert(walk_by(step, a, a, 0));
}

proof fn lemma_linked_step(step: Step, a: u64, w: u64, b: u64)
    requires
        linked(step, a, w),
        step(w, b),
    ensures
        linked(step, a, b),
{
    let k = choose|k: nat| walk_by(step, a, w, k);
    assert(walk_by(step, a, w, ((k + 1) - 1) as nat) && step(w, b));
    assert(walk_by(step, a, b, k + 1));
}

proof fn lemma_walk_by_join(step: Step, a: u64, w: u64, b: u64, j: nat, k: nat)
    requires
        walk_by(step, a, w, j),
        walk_by(step, w, b, k),
    ensures
        linked(step, a, b),
    decreases k,
{
    if k > 0 {
        let x = choose|x: u64| walk_by(step, w, x, (k - 1) as nat) && #[trigger] step(x, b);
        lemma_walk_by_join(step, a, w, x, j, (k - 1) as nat);
        lemma_linked_step(step, a, x, b);
    }
}

proof fn lemma_linked_join(step: Step, a: u64, w: u64, b: u64)
    requires
        linked(step, a, w),
        linked(step, w, b),
    ensures
        linked(step, a, b),
{
    let j = choose|k: nat| walk_by(step, a, w, k);
    let k = choose|k: nat| walk_by(step, w, b, k);
    lemma_walk_by_join(step, a, w, b, j, k);
}

proof fn lemma_walk_by_back(step: Step, a: u64, b: u64, k: nat)
    requires
        symmetric(step),
        walk_by(step, a, b, k),
    ensures
        linked(step, b, a),
    decreases k,
{
    if k == 0 {
        lemma_linked_self(step, a);
    } else {
        let x = choose|x: u64| walk_by(step, a, x, (k - 1) as nat) && #[trigger] step(x, b);
        lemma_walk_by_back(step, a, x, (k - 1) as nat);
        lemma_linked_self(step, b);
        assert(step(b, x));
        lemma_linked_step(step, b, b, x);
        lemma_linked_join(step, b, x, a);
    }
}

proof fn lemma_linked_back(step: Step, a: u64, b: u64)
    requires
        symmetric(step),
        linked(step, a, b),
    ensures
        linked(step, b, a),
{
    let k = choose|k: nat| walk_by(step, a, b, k);
    lemma_walk_by_back(step, a, b, k);
}

proof fn lemma_walk_by_more(step: Step, more: Step, a: u64, b: u64, k: nat)
    requires
        forall|x: u64, y: u64| #[trigger] step(x, y) ==> more(x, y),
        walk_by(step, a, b, k),
    ensures
        linked(more, a, b),
    decreases k,
{
    if k == 0 {
        lemma_linked_self(more, a);
    } else {
        let x = choose|x: u64| walk_by(step, a, x, (k - 1) as nat) && #[trigger] step(x, b);
        lemma_walk_by_more(step, more, a, x, (k - 1) as nat);
        lemma_linked_step(more, a, x, b);
    }
}

/// What is linked stays linked where more steps are allowed.
proof fn lemma_linked_more(step: Step, more: Step, a: u64, b: u64)
    requires
        forall|x: u64, y: u64| #[trigger] step(x, y) ==> more(x, y),
        linked(step, a, b),
    ensures
        linked(more, a, b),
{
    let k = choose|k: nat| walk_by(step, a, b, k);
    lemma_walk_by_more(step, more, a, b, k);
}

proof fn lemma_walk_by_closed(step: Step, s: Set<u64>, a: u64, b: u64, k: nat)
    requires
        s.contains(a),
        forall|x: u64, y: u64| s.contains(x) && #[trigger] step(x, y) ==> s.contains(y),
        walk_by(step, a, b, k),
    ensures
        s.contains(b),
    decreases k,
{
    if k > 0 {
        let x = choose|x: u64| walk_by(step, a, x, (k - 1) as nat) && #[trigger] step(x, b);
        lemma_walk_by_closed(step, s, a, x, (k - 1) as nat);
    }
}

/// Steps do not leave a set that is closed under them.
proof fn lemma_linked_closed(step: Step, s: Set<u64>, a: u64, b: u64)
    requires
        s.contains(a),
        forall|x: u64, y: u64| s.contains(x) && #[trigger] step(x, y) ==> s.contains(y),
        linked(step, a, b),
    ensures
        s.contains(b),
{
    let k = choose|k: nat| walk_by(step, a, b, k);
    lemma_walk_by_closed(step, s, a, b, k);
}

proof fn lemma_symmetric(n: Network, s: Set<u64>, u: u64, v: u64)
    ensures
        symmetric(within(n, s)),
        symmetric(without_vertex(n, u)),
        symmetric(without_pair(n, u, v)),
{
}

/// What was found so far: when each vertex was visited, the bridges, and the articulation points.
struct Cuts {
    time: usize,
    disc: HashMap<u64, usize>,
    bridges: Vec<(u64, u64)>,
    points: HashSet<u64>,
}

pub open spec fn listed(bridges: Seq<(u64, u64)>, u: u64, v: u64) -> bool {
    bridges.contains((u, v)) || bridges.contains((v, u))
}

/// Which vertices are visited. Those under way stand on `path`, each after the one it was reached
/// from.
spec fn visiting(n: Network, s: Cuts, path: Seq<u64>) -> bool {
    &&& n.wf()
    &&& s.disc@.dom().finite()
    &&& s.time == s.disc@.dom().len()
    &&& forall|v: u64| #[trigger] s.disc@.contains_key(v) ==> n.vertices.contains(v) && s.disc@[v] <= s.time
    &&& forall|i: int| 0 <= i < path.len() ==> s.disc@.contains_key(#[trigger] path[i])
}

#[verifier::opaque]
spec fn is_line(n: Network, disc: Map<u64, usize>, path: Seq<u64>) -> bool {
    &&& forall|i: int, j: int| 0 <= i < j < path.len() ==> disc[#[trigger] path[i]] < disc[#[trigger] path[j]]
    &&& forall|i: int, j: int| 0 <= i && j == i + 1 && j < path.len() ==> n.adjacent(#[trigger] path[i], #[trigger] path[j])
}

/// Whether the neighbors of each visited vertex that is no longer under way are visited.
#[verifier::opaque]
spec fn closed_off(n: Network, disc: Map<u64, usize>, path: Seq<u64>) -> bool {
    forall|x: u64, w: u64| disc.contains_key(x) && !path.contains(x) && #[trigger] n.adjacent(x, w) ==> disc.contains_key(w)
}

/// Whether what was found is right.
#[verifier::opaque]
spec fn sound(n: Network, s: Cuts) -> bool {
    &&& forall|i: int|
        0 <= i < s.bridges@.len() ==> {
            let e = #[trigger] s.bridges@[i];
            parts_pair(n, e.0, e.1) && s.disc@.contains_key(e.0) && s.disc@.contains_key(e.1) && s.disc@[e.0] < s.disc@[e.1]
        }
    &&& forall|i: int, j: int| 0 <= i < j < s.bridges@.len() ==> (#[trigger] s.bridges@[i]).1 != (#[trigger] s.bridges@[j]).1
    &&& forall|c: u64| #[trigger] s.points@.contains(c) ==> is_articulation_point(n, c)
}

spec fn searching(n: Network, s: Cuts, path: Seq<u64>) -> bool {
    &&& visiting(n, s, path)
    &&& is_line(n, s.disc@, path)
    &&& closed_off(n, s.disc@, path)
    &&& sound(n, s)
}

/// The vertices that were visited since an earlier moment.
spec fn visited_since(a: Cuts, b: Cuts) -> Set<u64> {
    b.disc@.dom().difference(a.disc@.dom())
}

/// What a search keeps of what was there before.
spec fn extends(a: Cuts, b: Cuts) -> bool {
    &&& a.time <= b.time
    &&& forall|v: u64| #[trigger] a.disc@.contains_key(v) ==> b.disc@.contains_key(v) && b.disc@[v] == a.disc@[v]
    &&& forall|v: u64| #[trigger] b.disc@.contains_key(v) && !a.disc@.contains_key(v) ==> b.disc@[v] > a.time
    &&& a.bridges@.len() <= b.bridges@.len()
    &&& b.bridges@.take(a.bridges@.len() as int) == a.bridges@
    &&& a.points@.subset_of(b.points@)
}

/// Whether a vertex was reached from another.
spec fn is_parent(path: Seq<u64>, w: u64) -> bool {
    path.len() > 0 && path.last() == w
}

/// Whether the vertices below one have their neighbors among themselves and on the path.
#[verifier::opaque]
spec fn fenced(n: Network, t: Set<u64>, path: Seq<u64>, u: u64) -> bool {
    forall|x: u64, w: u64| t.contains(x) && x != u && #[trigger] n.adjacent(x, w) ==> t.contains(w) || path.contains(w)
}

/// Whether each vertex below one is linked to it by way of the others.
#[verifier::opaque]
spec fn tied(n: Network, t: Set<u64>, u: u64) -> bool {
    forall|x: u64| #[trigger] t.contains(x) ==> linked(within(n, t), u, x)
}

/// Whether the vertices below one have no edges to the path that lead before a moment; and neither
/// has the vertex itself, along its first edges, but to the one it was reached from.
#[verifier::opaque]
spec fn low_bound(n: Network, disc: Map<u64, usize>, t: Set<u64>, path: Seq<u64>, u: u64, own: Seq<u64>, low: usize) -> bool {
    &&& forall|x: u64, i: int|
        #![trigger n.adjacent(x, path[i])]
        t.contains(x) && x != u && 0 <= i < path.len() && n.adjacent(x, path[i]) ==> low <= disc[path[i]]
    &&& forall|k: int, i: int|
        0 <= k < own.len() && 0 <= i < path.len() && #[trigger] own[k] == #[trigger] path[i] && !is_parent(path, own[k]) ==> low
            <= disc[path[i]]
}

/// An edge from a vertex to one on the path, other than that along which the search came.
spec fn is_back_edge(n: Network, path: Seq<u64>, u: u64, x: u64, i: int) -> bool {
    0 <= i < path.len() && n.adjacent(x, path[i]) && !(x == u && is_parent(path, path[i]))
}

/// Whether a moment is that of a vertex, or that to which an edge leads back from it or from below.
#[verifier::opaque]
spec fn low_met(n: Network, disc: Map<u64, usize>, t: Set<u64>, path: Seq<u64>, u: u64, low: usize) -> bool {
    low == disc[u] || exists|x: u64, i: int| t.contains(x) && #[trigger] is_back_edge(n, path, u, x, i) && disc[path[i]] == low
}

spec fn told(n: Network, bridges: Seq<(u64, u64)>, u: u64, v: u64) -> bool {
    parts_pair(n, u, v) ==> listed(bridges, u, v)
}

/// Whether the bridges below a vertex have been found, and those among its first edges.
#[verifier::opaque]
spec fn judged(n: Network, bridges: Seq<(u64, u64)>, t: Set<u64>, path: Seq<u64>, u: u64, own: Seq<u64>) -> bool {
    &&& forall|x: u64, w: u64| t.contains(x) && x != u && #[trigger] n.adjacent(x, w) ==> told(n, bridges, x, w)
    &&& forall|k: int| 0 <= k < own.len() && !is_parent(path, #[trigger] own[k]) ==> told(n, bridges, u, own[k])
}

/// Whether all vertices of a set are linked to one, without a vertex.
spec fn linked_without(n: Network, t: Set<u64>, c: u64, h: u64) -> bool {
    forall|x: u64| #[trigger] t.contains(x) && x != c ==> linked(without_vertex(n, c), x, h)
}

/// Whether each vertex below one was found to be an articulation point, or is none.
#[verifier::opaque]
spec fn spared(n: Network, points: Set<u64>, t: Set<u64>, u: u64) -> bool {
    forall|c: u64| #[trigger] t.contains(c) && c != u ==> points.contains(c) || linked_without(n, t, c, u)
}

/// Whether a vertex was found to be an articulation point, or what is below it is linked to the one
/// it was reached from without it.
spec fn self_spared(n: Network, points: Set<u64>, t: Set<u64>, path: Seq<u64>, u: u64) -> bool {
    path.len() > 0 ==> points.contains(u) || linked_without(n, t, u, path.last())
}

/// What is known below a vertex, once its first edges have been followed.
spec fn explored(n: Network, s: Cuts, t: Set<u64>, path: Seq<u64>, u: u64, own: Seq<u64>, low: usize) -> bool {
    &&& t.contains(u)
    &&& fenced(n, t, path, u)
    &&& tied(n, t, u)
    &&& low_bound(n, s.disc@, t, path, u, own, low)
    &&& low <= s.disc@[u]
    &&& low_met(n, s.disc@, t, path, u, low)
    &&& judged(n, s.bridges@, t, path, u, own)
    &&& spared(n, s.points@, t, u)
}

/// Two vertices on a line are linked along it.
proof fn lemma_along(step: Step, path: Seq<u64>, i: int, j: int)
    requires
        0 <= i <= j < path.len(),
        forall|a: int, b: int| i <= a && b == a + 1 && b <= j ==> step(#[trigger] path[a], #[trigger] path[b]),
    ensures
        linked(step, path[i], path[j]),
    decreases j - i,
{
    if i == j {
        lemma_linked_self(step, path[i]);
    } else {
        lemma_along(step, path, i, j - 1);
        assert(step(path[j - 1], path[j]));
        lemma_linked_step(step, path[i], path[j - 1], path[j]);
    }
}

/// Without a vertex that is not on the line, all vertices of the line are linked.
proof fn lemma_line_without(n: Network, disc: Map<u64, usize>, path: Seq<u64>, c: u64, i: int)
    requires
        is_line(n, disc, path),
        !path.contains(c),
        0 <= i < path.len(),
    ensures
        linked(without_vertex(n, c), path[i], path.last()),
{
    reveal(is_line);
    assert forall|a: int, b: int| i <= a && b == a + 1 && b <= path.len() - 1 implies without_vertex(n, c)(
        #[trigger] path[a],
        #[trigger] path[b],
    ) by {
        assert(path.contains(path[a]) && path.contains(path[b]));
    }
    lemma_along(without_vertex(n, c), path, i, path.len() - 1);
}

/// An edge back to the line is no bridge.
proof fn lemma_back_edge(n: Network, disc: Map<u64, usize>, path: Seq<u64>, u: u64, i: int)
    requires
        is_line(n, disc, path),
        0 <= i < path.len() - 1,
        !path.contains(u),
        n.adjacent(path.last(), u),
    ensures
        !parts_pair(n, u, path[i]),
        !parts_pair(n, path[i], u),
{
    reveal(is_line);
    let w = path[i];
    let step = without_pair(n, u, w);
    let line = path.push(u);
    assert forall|a: int, b: int| i <= a && b == a + 1 && b <= path.len() implies step(#[trigger] line[a], #[trigger] line[b]) by {
        assert(path.contains(path[a]));
        if b < path.len() {
            assert(path.contains(path[b]));
            assert(n.adjacent(path[a], path[b]));
        } else {
            assert(disc[path[i]] < disc[path[path.len() - 1]]);
        }
    }
    lemma_along(step, line, i, path.len() as int);
    lemma_symmetric(n, Set::empty(), u, w);
    lemma_linked_back(step, w, u);
    assert(linked(without_pair(n, u, w), u, w));
    let other = without_pair(n, w, u);
    lemma_linked_more(step, other, w, u);
}

/// What is below a child has no other way out than by the child's edge: that is a bridge.
proof fn lemma_bridge(n: Network, disc: Map<u64, usize>, t: Set<u64>, path: Seq<u64>, v: u64, own: Seq<u64>, low: usize)
    requires
        path.len() > 0,
        is_line(n, disc, path),
        t.contains(v),
        n.adjacent(path.last(), v),
        forall|i: int| 0 <= i < path.len() ==> !t.contains(#[trigger] path[i]),
        fenced(n, t, path, v),
        low_bound(n, disc, t, path, v, own, low),
        own == n.neighbors(v),
        forall|w: u64| n.adjacent(v, w) ==> t.contains(w) || #[trigger] path.contains(w),
        low > disc[path.last()],
    ensures
        parts_pair(n, path.last(), v),
{
    reveal(is_line);
    reveal(fenced);
    reveal(low_bound);
    let u = path.last();
    let step = without_pair(n, u, v);
    assert(!t.contains(path[path.len() - 1]));
    assert forall|x: u64, y: u64| t.contains(x) && #[trigger] step(x, y) implies t.contains(y) by {
        if !t.contains(y) {
            lemma_neighbors(n, x, y);
            assert(path.contains(y));
            let i = path.index_of(y);
            assert(n.adjacent(x, path[i]));
            if i < path.len() - 1 {
                assert(disc[path[i]] < disc[path[path.len() - 1]]);
            }
            if x == v {
                let k = own.index_of(y);
                assert(own[k] == path[i]);
            }
        }
    }
    lemma_symmetric(n, t, u, v);
    if linked(step, u, v) {
        lemma_linked_back(step, u, v);
        lemma_linked_closed(step, t, v, u);
    }
}

/// An edge back from below a child: its edge is no bridge, and what is below it is linked to the
/// line without the vertex that it was reached from.
proof fn lemma_no_bridge(n: Network, disc: Map<u64, usize>, t: Set<u64>, path: Seq<u64>, v: u64, low: usize)
    requires
        path.len() > 0,
        is_line(n, disc, path),
        t.contains(v),
        forall|i: int| 0 <= i < path.len() ==> !t.contains(#[trigger] path[i]),
        tied(n, t, v),
        low_met(n, disc, t, path, v, low),
        low <= disc[path.last()],
        disc[path.last()] < disc[v],
    ensures
        !parts_pair(n, path.last(), v),
        !parts_pair(n, v, path.last()),
        path.len() > 1 && low < disc[path.last()] ==> linked_without(n, t, path.last(), path[path.len() - 2]),
{
    reveal(is_line);
    reveal(low_met);
    reveal(tied);
    let u = path.last();
    let (x, i) = choose|x: u64, i: int| t.contains(x) && #[trigger] is_back_edge(n, path, v, x, i) && disc[path[i]] == low;
    let w = path[i];
    assert(!t.contains(path[path.len() - 1]));
    assert(!t.contains(path[i]));
    let step = without_pair(n, u, v);
    assert forall|a: u64, b: u64| #[trigger] within(n, t)(a, b) implies step(a, b) by {}
    lemma_linked_more(within(n, t), step, v, x);
    assert(step(x, w));
    lemma_linked_step(step, v, x, w);
    assert forall|a: int, b: int| i <= a && b == a + 1 && b <= path.len() - 1 implies step(#[trigger] path[a], #[trigger] path[b]) by {
        assert(n.adjacent(path[a], path[b]));
        assert(!t.contains(path[a]) && !t.contains(path[b]));
    }
    lemma_along(step, path, i, path.len() - 1);
    lemma_linked_join(step, v, w, u);
    lemma_symmetric(n, t, u, v);
    lemma_linked_back(step, v, u);
    let other = without_pair(n, v, u);
    lemma_linked_more(step, other, v, u);
    if path.len() > 1 && low < disc[u] {
        let p = path[path.len() - 2];
        let free = without_vertex(n, u);
        let line = path.drop_last();
        assert(i < path.len() - 1);
        lemma_symmetric(n, t, u, v);
        assert(is_line(n, disc, line)) by {
            assert forall|a: int, b: int| 0 <= a < b < line.len() implies disc[#[trigger] line[a]] < disc[#[trigger] line[b]] by {
                assert(disc[path[a]] < disc[path[b]]);
            }
            assert forall|a: int, b: int| 0 <= a && b == a + 1 && b < line.len() implies n.adjacent(
                #[trigger] line[a],
                #[trigger] line[b],
            ) by {
                assert(n.adjacent(path[a], path[b]));
            }
        }
        assert(!line.contains(u)) by {
            if line.contains(u) {
                let k = line.index_of(u);
                assert(disc[path[k]] < disc[path[path.len() - 1]]);
            }
        }
        lemma_line_without(n, disc, line, u, i);
        assert forall|y: u64| #[trigger] t.contains(y) && y != u implies linked(free, y, p) by {
            assert forall|a: u64, b: u64| #[trigger] within(n, t)(a, b) implies free(a, b) by {}
            lemma_linked_more(within(n, t), free, v, y);
            lemma_linked_back(free, v, y);
            lemma_linked_more(within(n, t), free, v, x);
            lemma_linked_join(free, y, v, x);
            assert(w != u);
            assert(free(x, w));
            lemma_linked_step(free, y, x, w);
            lemma_linked_join(free, y, w, p);
        }
    }
}

/// What is below a child leads out only by way of the vertex it was reached from: that is an
/// articulation point.
proof fn lemma_point(n: Network, disc: Map<u64, usize>, t: Set<u64>, path: Seq<u64>, v: u64, own: Seq<u64>, low: usize)
    requires
        n.wf(),
        path.len() > 1,
        is_line(n, disc, path),
        t.contains(v),
        n.adjacent(path.last(), v),
        forall|i: int| 0 <= i < path.len() ==> !t.contains(#[trigger] path[i]),
        fenced(n, t, path, v),
        low_bound(n, disc, t, path, v, own, low),
        own == n.neighbors(v),
        forall|w: u64| n.adjacent(v, w) ==> t.contains(w) || #[trigger] path.contains(w),
        low >= disc[path.last()],
    ensures
        is_articulation_point(n, path.last()),
{
    reveal(is_line);
    reveal(fenced);
    reveal(low_bound);
    let u = path.last();
    let p = path[path.len() - 2];
    let step = without_vertex(n, u);
    assert(!t.contains(path[path.len() - 1]));
    assert(!t.contains(path[path.len() - 2]));
    assert(n.adjacent(path[path.len() - 2], path[path.len() - 2 + 1]));
    assert(disc[path[path.len() - 2]] < disc[path[path.len() - 1]]);
    assert forall|x: u64, y: u64| t.contains(x) && #[trigger] step(x, y) implies t.contains(y) by {
        if !t.contains(y) {
            lemma_neighbors(n, x, y);
            assert(path.contains(y));
            let i = path.index_of(y);
            assert(n.adjacent(x, path[i]));
            assert(disc[path[i]] < disc[path[path.len() - 1]]);
            if x == v {
                let k = own.index_of(y);
                assert(own[k] == path[i]);
            }
        }
    }
    if linked(step, v, p) {
        lemma_linked_closed(step, t, v, p);
    }
    lemma_neighbors(n, u, v);
    lemma_neighbors(n, p, u);
    assert(walk(n, v, v, 0));
    lemma_walk_step(n, v, v, u, 0);
    lemma_walk_step(n, v, u, p, 1);
    assert(connected(n, v, p));
}

/// What is below two children of a root is linked only by way of the root.
proof fn lemma_root_point(n: Network, t: Set<u64>, u: u64, a: u64, v: u64)
    requires
        n.wf(),
        fenced(n, t, Seq::empty(), u),
        tied(n, t, u),
        t.contains(u),
        t.contains(a),
        a != u,
        !t.contains(v),
        n.adjacent(u, v),
    ensures
        is_articulation_point(n, u),
{
    reveal(fenced);
    reveal(tied);
    let step = without_vertex(n, u);
    let rest = t.remove(u);
    assert forall|x: u64, y: u64| rest.contains(x) && #[trigger] step(x, y) implies rest.contains(y) by {
        assert(n.adjacent(x, y));
    }
    if linked(step, a, v) {
        lemma_linked_closed(step, rest, a, v);
    }
    lemma_symmetric(n, t, u, v);
    lemma_linked_back(within(n, t), u, a);
    let k = choose|k: nat| walk_by(within(n, t), a, u, k);
    lemma_is_walk(n, within(n, t), a, u, k);
    lemma_walk_step(n, a, u, v, k);
    assert(connected(n, a, v));
    lemma_neighbors(n, u, v);
}

proof fn lemma_is_walk(n: Network, step: Step, a: u64, b: u64, k: nat)
    requires
        forall|x: u64, y: u64| #[trigger] step(x, y) ==> n.adjacent(x, y),
        walk_by(step, a, b, k),
    ensures
        walk(n, a, b, k),
    decreases k,
{
    if k > 0 {
        let x = choose|x: u64| walk_by(step, a, x, (k - 1) as nat) && #[trigger] step(x, b);
        lemma_is_walk(n, step, a, x, (k - 1) as nat);
        lemma_walk_step(n, a, x, b, (k - 1) as nat);
    }
}

proof fn lemma_bridge_either_way(n: Network, u: u64, v: u64)
    ensures
        parts_pair(n, u, v) <==> parts_pair(n, v, u),
{
    lemma_neighbors(n, u, v);
    lemma_symmetric(n, Set::empty(), u, v);
    lemma_symmetric(n, Set::empty(), v, u);
    let a = without_pair(n, u, v);
    let b = without_pair(n, v, u);
    if linked(a, u, v) {
        lemma_linked_back(a, u, v);
        lemma_linked_more(a, b, v, u);
    }
    if linked(b, v, u) {
        lemma_linked_back(b, v, u);
        lemma_linked_more(b, a, u, v);
    }
}

/// What is known when the search from a child has returned: the sets of vertices below it, `tv`,
/// and below the vertex before, `t`.
spec fn returned(n: Network, a: Cuts, b: Cuts, t: Set<u64>, tv: Set<u64>, path: Seq<u64>, u: u64, v: u64) -> bool {
    &&& n.adjacent(u, v)
    &&& t.contains(u)
    &&& tv.contains(v)
    &&& forall|x: u64| #[trigger] t.contains(x) ==> a.disc@.contains_key(x)
    &&& forall|x: u64| #[trigger] tv.contains(x) ==> !a.disc@.contains_key(x)
    &&& forall|i: int| 0 <= i < path.len() ==> a.disc@.contains_key(#[trigger] path[i]) && !t.contains(path[i])
    &&& extends(a, b)
    &&& forall|w: u64| n.adjacent(v, w) ==> tv.contains(w) || #[trigger] path.push(u).contains(w)
}

proof fn lemma_merge_fenced(n: Network, a: Cuts, b: Cuts, t: Set<u64>, tv: Set<u64>, path: Seq<u64>, u: u64, v: u64)
    requires
        returned(n, a, b, t, tv, path, u, v),
        fenced(n, t, path, u),
        fenced(n, tv, path.push(u), v),
        tied(n, t, u),
        tied(n, tv, v),
    ensures
        fenced(n, t + tv, path, u),
        tied(n, t + tv, u),
{
    let all = t + tv;
    assert(fenced(n, all, path, u)) by {
        reveal(fenced);
        assert forall|x: u64, w: u64| all.contains(x) && x != u && #[trigger] n.adjacent(x, w) implies all.contains(w) || path.contains(w) by {
            if tv.contains(x) && !tv.contains(w) {
                assert(path.push(u).contains(w));
                let i = path.push(u).index_of(w);
                if i < path.len() {
                    assert(path[i] == w);
                }
            }
        }
    }
    assert(tied(n, all, u)) by {
        reveal(tied);
        let step = within(n, all);
        lemma_linked_self(step, u);
        assert(step(u, v));
        lemma_linked_step(step, u, u, v);
        assert forall|x: u64| #[trigger] all.contains(x) implies linked(step, u, x) by {
            if t.contains(x) {
                lemma_linked_more(within(n, t), step, u, x);
            } else {
                lemma_linked_more(within(n, tv), step, v, x);
                lemma_linked_join(step, u, v, x);
            }
        }
    }
}

proof fn lemma_merge_low(
    n: Network,
    a: Cuts,
    b: Cuts,
    t: Set<u64>,
    tv: Set<u64>,
    path: Seq<u64>,
    u: u64,
    v: u64,
    own: Seq<u64>,
    low: usize,
    low_v: usize,
    least: usize,
)
    requires
        returned(n, a, b, t, tv, path, u, v),
        low_bound(n, a.disc@, t, path, u, own, low),
        low_bound(n, b.disc@, tv, path.push(u), v, n.neighbors(v), low_v),
        low <= a.disc@[u],
        low_met(n, a.disc@, t, path, u, low),
        low_met(n, b.disc@, tv, path.push(u), v, low_v),
        b.disc@[v] > b.disc@[u],
        least == if low_v < low { low_v } else { low },
    ensures
        low_bound(n, b.disc@, t + tv, path, u, own.push(v), least),
        low_met(n, b.disc@, t + tv, path, u, least),
        least <= b.disc@[u],
{
    let all = t + tv;
    let longer = path.push(u);
    let next = own.push(v);
    assert(low_bound(n, b.disc@, all, path, u, next, least)) by {
        reveal(low_bound);
        assert forall|x: u64, i: int|
            #![trigger n.adjacent(x, path[i])]
            all.contains(x) && x != u && 0 <= i < path.len() && n.adjacent(x, path[i]) implies least <= b.disc@[path[i]] by {
            assert(a.disc@.contains_key(path[i]));
            assert(longer[i] == path[i]);
            if tv.contains(x) {
                assert(n.adjacent(x, longer[i]));
                if x == v {
                    lemma_neighbors(n, v, path[i]);
                    let k = n.neighbors(v).index_of(path[i]);
                    assert(n.neighbors(v)[k] == longer[i]);
                    assert(!is_parent(longer, path[i])) by {
                        assert(!t.contains(path[i]));
                    }
                }
            }
        }
        assert forall|k: int, i: int|
            0 <= k < next.len() && 0 <= i < path.len() && #[trigger] next[k] == #[trigger] path[i] && !is_parent(
                path,
                next[k],
            ) implies least <= b.disc@[path[i]] by {
            assert(a.disc@.contains_key(path[i]));
            if k < own.len() {
                assert(own[k] == path[i]);
            }
        }
    }
    assert(low_met(n, b.disc@, all, path, u, least)) by {
        reveal(low_met);
        if least == low {
            if low != a.disc@[u] {
                let (x, i) = choose|x: u64, i: int|
                    t.contains(x) && #[trigger] is_back_edge(n, path, u, x, i) && a.disc@[path[i]] == low;
                assert(a.disc@.contains_key(path[i]));
                assert(all.contains(x) && is_back_edge(n, path, u, x, i) && b.disc@[path[i]] == low);
            }
        } else {
            let (x, i) = choose|x: u64, i: int|
                tv.contains(x) && #[trigger] is_back_edge(n, longer, v, x, i) && b.disc@[longer[i]] == low_v;
            assert(i < path.len());
            assert(longer[i] == path[i]);
            assert(all.contains(x) && is_back_edge(n, path, u, x, i) && b.disc@[path[i]] == least);
        }
    }
}

proof fn lemma_merge_judged(
    n: Network,
    a: Cuts,
    b: Cuts,
    c: Cuts,
    t: Set<u64>,
    tv: Set<u64>,
    path: Seq<u64>,
    u: u64,
    v: u64,
    own: Seq<u64>,
)
    requires
        returned(n, a, b, t, tv, path, u, v),
        judged(n, a.bridges@, t, path, u, own),
        judged(n, b.bridges@, tv, path.push(u), v, n.neighbors(v)),
        forall|e: (u64, u64)| a.bridges@.contains(e) || b.bridges@.contains(e) ==> #[trigger] c.bridges@.contains(e),
        told(n, c.bridges@, u, v),
    ensures
        judged(n, c.bridges@, t + tv, path, u, own.push(v)),
{
    reveal(judged);
    let all = t + tv;
    let next = own.push(v);
    let longer = path.push(u);
    assert forall|x: u64, w: u64| told(n, a.bridges@, x, w) || told(n, b.bridges@, x, w) implies #[trigger] told(n, c.bridges@, x, w) by {
        assert(c.bridges@.contains((x, w)) || !a.bridges@.contains((x, w)));
        assert(c.bridges@.contains((w, x)) || !a.bridges@.contains((w, x)));
        assert(c.bridges@.contains((x, w)) || !b.bridges@.contains((x, w)));
        assert(c.bridges@.contains((w, x)) || !b.bridges@.contains((w, x)));
    }
    assert forall|x: u64, w: u64| all.contains(x) && x != u && #[trigger] n.adjacent(x, w) implies told(n, c.bridges@, x, w) by {
        if t.contains(x) {
            assert(told(n, a.bridges@, x, w));
        } else if x != v {
            assert(told(n, b.bridges@, x, w));
        } else if w == u {
            lemma_bridge_either_way(n, u, v);
        } else {
            lemma_neighbors(n, v, w);
            let k = n.neighbors(v).index_of(w);
            assert(n.neighbors(v)[k] == w);
            assert(!is_parent(longer, n.neighbors(v)[k]));
            assert(told(n, b.bridges@, v, w));
        }
    }
    assert forall|k: int| 0 <= k < next.len() && !is_parent(path, #[trigger] next[k]) implies told(n, c.bridges@, u, next[k]) by {
        if k < own.len() {
            assert(own[k] == next[k]);
            assert(told(n, a.bridges@, u, own[k]));
        }
    }
}

proof fn lemma_merge_spared(
    n: Network,
    a: Cuts,
    b: Cuts,
    points: Set<u64>,
    t: Set<u64>,
    tv: Set<u64>,
    path: Seq<u64>,
    u: u64,
    v: u64,
)
    requires
        returned(n, a, b, t, tv, path, u, v),
        tied(n, t, u),
        tied(n, tv, v),
        spared(n, a.points@, t, u),
        spared(n, b.points@, tv, v),
        self_spared(n, b.points@, tv, path.push(u), v),
        b.points@.subset_of(points),
    ensures
        spared(n, points, t + tv, u),
{
    reveal(spared);
    reveal(tied);
    let all = t + tv;
    lemma_neighbors(n, u, v);
    assert forall|c: u64| #[trigger] all.contains(c) && c != u implies points.contains(c) || linked_without(n, all, c, u) by {
        let free = without_vertex(n, c);
        lemma_symmetric(n, t, c, c);
        assert(a.points@.contains(c) ==> points.contains(c));
        if !points.contains(c) {
            assert forall|x: u64| #[trigger] all.contains(x) && x != c implies linked(free, x, u) by {
                if t.contains(x) {
                    if t.contains(c) {
                        assert(linked_without(n, t, c, u));
                    } else {
                        lemma_linked_more(within(n, t), free, u, x);
                        lemma_linked_back(free, u, x);
                    }
                } else if c == v {
                    assert(path.push(u).last() == u);
                    assert(linked_without(n, tv, v, u));
                } else {
                    if tv.contains(c) {
                        assert(linked_without(n, tv, c, v));
                    } else {
                        lemma_linked_more(within(n, tv), free, v, x);
                        lemma_linked_back(free, v, x);
                    }
                    assert(free(v, u));
                    lemma_linked_step(free, x, v, u);
                }
            }
        }
    }
}

fn moment_of(m: &HashMap<u64, usize>, v: u64) -> (r: usize)
    requires
        m@.contains_key(v),
    ensures
        r == m@[v],
{
    match m.get(&v) {
        Some(x) => *x,
        None => 0,
    }
}

proof fn lemma_room(n: Network, s: Cuts, path: Seq<u64>, v: u64)
    requires
        visiting(n, s, path),
        n.vertices.contains(v),
        !s.disc@.contains_key(v),
    ensures
        s.time < n.vertices.len(),
{
    let all = n.vertices.to_set();
    n.vertices.unique_seq_to_set();
    let dom = s.disc@.dom();
    assert(dom.insert(v).subset_of(all));
    vstd::set_lib::lemma_len_subset(dom.insert(v), all);
}

/// The search enters a vertex.
proof fn lemma_enter(n: Network, a: Cuts, b: Cuts, path: Seq<u64>, u: u64)
    requires
        searching(n, a, path),
        n.vertices.contains(u),
        !a.disc@.contains_key(u),
        path.len() > 0 ==> n.adjacent(path.last(), u),
        b.time == a.time + 1,
        b.disc@ == a.disc@.insert(u, b.time),
        b.bridges@ == a.bridges@,
        b.points@ == a.points@,
    ensures
        searching(n, b, path.push(u)),
        extends(a, b),
        visited_since(a, b) == set![u],
        explored(n, b, set![u], path, u, Seq::empty(), b.time),
        linked_without(n, set![u], u, path.last()),
{
    let t = set![u];
    let longer = path.push(u);
    assert(b.disc@.dom() =~= a.disc@.dom().insert(u));
    assert(visited_since(a, b) =~= t);
    assert(b.bridges@.take(a.bridges@.len() as int) =~= a.bridges@);
    assert(is_line(n, b.disc@, longer)) by {
        reveal(is_line);
        assert forall|i: int, j: int| 0 <= i < j < longer.len() implies b.disc@[#[trigger] longer[i]] < b.disc@[#[trigger] longer[j]] by {
            assert(a.disc@.contains_key(path[i]));
            if j < path.len() {
                assert(a.disc@.contains_key(path[j]));
                assert(a.disc@[path[i]] < a.disc@[path[j]]);
            }
        }
        assert forall|i: int, j: int| 0 <= i && j == i + 1 && j < longer.len() implies n.adjacent(
            #[trigger] longer[i],
            #[trigger] longer[j],
        ) by {
            if j < path.len() {
                assert(n.adjacent(path[i], path[j]));
            }
        }
    }
    assert(closed_off(n, b.disc@, longer)) by {
        reveal(closed_off);
        assert forall|x: u64, w: u64| b.disc@.contains_key(x) && !longer.contains(x) && #[trigger] n.adjacent(x, w) implies b.disc@.contains_key(w) by {
            assert(longer[path.len() as int] == u);
            assert(x != u);
            if path.contains(x) {
                assert(longer[path.index_of(x)] == x);
            }
        }
    }
    assert(sound(n, b)) by {
        reveal(sound);
    }
    reveal(fenced);
    reveal(tied);
    reveal(low_bound);
    reveal(low_met);
    reveal(judged);
    reveal(spared);
    lemma_linked_self(within(n, t), u);
}

/// The search leaves a vertex whose edges have all been followed.
proof fn lemma_leave(n: Network, s: Cuts, path: Seq<u64>, u: u64)
    requires
        searching(n, s, path.push(u)),
        forall|w: u64| #[trigger] n.adjacent(u, w) ==> s.disc@.contains_key(w),
    ensures
        searching(n, s, path),
{
    let longer = path.push(u);
    assert forall|i: int| 0 <= i < path.len() implies s.disc@.contains_key(#[trigger] path[i]) by {
        assert(longer[i] == path[i]);
    }
    assert(is_line(n, s.disc@, path)) by {
        reveal(is_line);
        assert forall|i: int, j: int| 0 <= i < j < path.len() implies s.disc@[#[trigger] path[i]] < s.disc@[#[trigger] path[j]] by {
            assert(s.disc@[longer[i]] < s.disc@[longer[j]]);
        }
        assert forall|i: int, j: int| 0 <= i && j == i + 1 && j < path.len() implies n.adjacent(#[trigger] path[i], #[trigger] path[j]) by {
            assert(n.adjacent(longer[i], longer[j]));
        }
    }
    assert(closed_off(n, s.disc@, path)) by {
        reveal(closed_off);
        assert forall|x: u64, w: u64| s.disc@.contains_key(x) && !path.contains(x) && #[trigger] n.adjacent(x, w) implies s.disc@.contains_key(w) by {
            if x != u {
                if longer.contains(x) {
                    let k = longer.index_of(x);
                    assert(path[k] == x);
                }
            }
        }
    }
}

proof fn lemma_extends(a: Cuts, b: Cuts, c: Cuts)
    requires
        extends(a, b),
        extends(b, c),
    ensures
        extends(a, c),
        visited_since(a, c) == visited_since(a, b) + visited_since(b, c),
{
    assert(c.bridges@.take(a.bridges@.len() as int) =~= a.bridges@) by {
        assert forall|i: int| 0 <= i < a.bridges@.len() implies c.bridges@[i] == a.bridges@[i] by {
            assert(b.bridges@.take(a.bridges@.len() as int)[i] == b.bridges@[i]);
            assert(c.bridges@.take(b.bridges@.len() as int)[i] == c.bridges@[i]);
        }
    }
    assert forall|v: u64| #[trigger] c.disc@.contains_key(v) && !a.disc@.contains_key(v) implies c.disc@[v] > a.time by {
        if b.disc@.contains_key(v) {
            assert(c.disc@[v] == b.disc@[v]);
        }
    }
    assert forall|v: u64| #[trigger] a.disc@.contains_key(v) implies c.disc@.contains_key(v) && c.disc@[v] == a.disc@[v] by {
        assert(b.disc@.contains_key(v));
    }
    assert forall|v: u64| visited_since(a, c).contains(v) <==> (visited_since(a, b) + visited_since(b, c)).contains(v) by {
        if b.disc@.contains_key(v) {
            assert(c.disc@.contains_key(v));
        }
        if a.disc@.contains_key(v) {
            assert(b.disc@.contains_key(v));
        }
    }
    assert(visited_since(a, c) =~= visited_since(a, b) + visited_since(b, c));
}

/// Whether the bridges that were found since an earlier moment lead to vertices below one.
#[verifier::opaque]
spec fn found_below(a: Cuts, b: Cuts, t: Set<u64>, u: u64) -> bool {
    forall|i: int| a.bridges@.len() <= i < b.bridges@.len() ==> t.contains((#[trigger] b.bridges@[i]).1) && b.bridges@[i].1 != u
}

/// Whether a root was found to be an articulation point, or what is below it is linked without it.
spec fn root_spared(n: Network, points: Set<u64>, t: Set<u64>, u: u64) -> bool {
    points.contains(u) || forall|a: u64, b: u64|
        #[trigger] t.contains(a) && #[trigger] t.contains(b) && a != u && b != u ==> linked(without_vertex(n, u), a, b)
}

/// What is found at the return from a child is noted down.
proof fn lemma_note(n: Network, a: Cuts, b: Cuts, c: Cuts, t: Set<u64>, tv: Set<u64>, path: Seq<u64>, u: u64, v: u64, s0: Cuts)
    requires
        searching(n, b, path.push(u)),
        extends(s0, a),
        extends(a, b),
        t == visited_since(s0, a),
        tv == visited_since(a, b),
        a.disc@.contains_key(u),
        tv.contains(v),
        found_below(s0, a, t, u),
        found_below(a, b, tv, v),
        visiting(n, a, path.push(u)),
        sound(n, a),
        c.time == b.time,
        c.disc@ == b.disc@,
        c.bridges@ == b.bridges@ || (c.bridges@ == b.bridges@.push((u, v)) && parts_pair(n, u, v)),
        c.points@ == b.points@ || (c.points@ == b.points@.insert(u) && is_articulation_point(n, u)),
        t.contains(u),
    ensures
        searching(n, c, path.push(u)),
        extends(b, c),
        visited_since(s0, c) == t + tv,
        extends(s0, c),
        found_below(s0, c, t + tv, u),
        forall|e: (u64, u64)| a.bridges@.contains(e) || b.bridges@.contains(e) ==> #[trigger] c.bridges@.contains(e),
        c.bridges@ != b.bridges@ ==> listed(c.bridges@, u, v),
{
    let len = b.bridges@.len();
    assert(c.bridges@.take(len as int) =~= b.bridges@);
    assert(visited_since(b, c) =~= Set::empty());
    lemma_extends(s0, a, b);
    lemma_extends(s0, b, c);
    assert(visited_since(s0, c) =~= t + tv);
    assert forall|e: (u64, u64)| a.bridges@.contains(e) || b.bridges@.contains(e) implies #[trigger] c.bridges@.contains(e) by {
        if a.bridges@.contains(e) {
            let k = a.bridges@.index_of(e);
            assert(b.bridges@.take(a.bridges@.len() as int)[k] == b.bridges@[k]);
            assert(b.bridges@[k] == e);
        }
        let k = b.bridges@.index_of(e);
        assert(c.bridges@[k] == e);
    }
    if c.bridges@ != b.bridges@ {
        assert(c.bridges@[len as int] == (u, v));
        assert(c.bridges@.contains((u, v)));
    }
    assert(found_below(s0, c, t + tv, u)) by {
        reveal(found_below);
        assert forall|i: int| s0.bridges@.len() <= i < c.bridges@.len() implies (t + tv).contains((#[trigger] c.bridges@[i]).1)
            && c.bridges@[i].1 != u by {
            if i < a.bridges@.len() {
                assert(b.bridges@.take(a.bridges@.len() as int)[i] == b.bridges@[i]);
                assert(c.bridges@[i] == a.bridges@[i]);
            } else if i < len {
                assert(c.bridges@[i] == b.bridges@[i]);
            }
        }
    }
    assert(sound(n, c)) by {
        reveal(sound);
        reveal(found_below);
        assert forall|i: int, j: int| 0 <= i < j < c.bridges@.len() implies (#[trigger] c.bridges@[i]).1 != (#[trigger] c.bridges@[j]).1 by {
            assert(c.bridges@[i] == b.bridges@[i]);
            if j == len {
                if i < a.bridges@.len() {
                    assert(b.bridges@.take(a.bridges@.len() as int)[i] == b.bridges@[i]);
                    assert(b.bridges@[i] == a.bridges@[i]);
                    assert(a.disc@.contains_key(a.bridges@[i].1));
                }
            } else {
                assert(c.bridges@[j] == b.bridges@[j]);
            }
        }
        assert forall|i: int| 0 <= i < c.bridges@.len() implies {
            let e = #[trigger] c.bridges@[i];
            parts_pair(n, e.0, e.1) && c.disc@.contains_key(e.0) && c.disc@.contains_key(e.1) && c.disc@[e.0] < c.disc@[e.1]
        } by {
            if i < len {
                assert(c.bridges@[i] == b.bridges@[i]);
            } else {
                assert(a.disc@[u] <= a.time);
            }
        }
    }
}

/// The edges back from a vertex, and to what is below it.
proof fn lemma_known_neighbor(
    n: Network,
    s0: Cuts,
    s: Cuts,
    t: Set<u64>,
    path: Seq<u64>,
    u: u64,
    own: Seq<u64>,
    low: usize,
    w: u64,
    least: usize,
)
    requires
        searching(n, s0, path),
        searching(n, s, path.push(u)),
        extends(s0, s),
        t == visited_since(s0, s),
        !s0.disc@.contains_key(u),
        s.disc@[u] == s0.time + 1,
        explored(n, s, t, path, u, own, low),
        n.adjacent(u, w),
        s.disc@.contains_key(w),
        least == if !is_parent(path, w) && s.disc@[w] < low { s.disc@[w] } else { low },
    ensures
        explored(n, s, t, path, u, own.push(w), least),
        t.contains(w) || path.contains(w),
{
    let next = own.push(w);
    let longer = path.push(u);
    lemma_neighbors(n, u, w);
    if !t.contains(w) && !path.contains(w) {
        reveal(closed_off);
        assert(s0.disc@.contains_key(w));
    }
    assert(low_bound(n, s.disc@, t, path, u, next, least)) by {
        reveal(low_bound);
        assert forall|k: int, i: int|
            0 <= k < next.len() && 0 <= i < path.len() && #[trigger] next[k] == #[trigger] path[i] && !is_parent(
                path,
                next[k],
            ) implies least <= s.disc@[path[i]] by {
            if k < own.len() {
                assert(own[k] == path[i]);
            }
        }
    }
    assert(low_met(n, s.disc@, t, path, u, least)) by {
        reveal(low_met);
        if least != low {
            if t.contains(w) {
                assert(s.disc@[w] > s0.time);
            }
            let i = path.index_of(w);
            assert(path[i] == w);
            assert(t.contains(u) && is_back_edge(n, path, u, u, i) && s.disc@[path[i]] == least);
        }
    }
    assert(judged(n, s.bridges@, t, path, u, next)) by {
        reveal(judged);
        assert forall|k: int| 0 <= k < next.len() && !is_parent(path, #[trigger] next[k]) implies told(n, s.bridges@, u, next[k]) by {
            if k < own.len() {
                assert(own[k] == next[k]);
            } else if t.contains(w) {
                if w != u {
                    assert(told(n, s.bridges@, w, u));
                    lemma_bridge_either_way(n, u, w);
                }
            } else {
                let i = path.index_of(w);
                assert(path[i] == w);
                assert(!path.contains(u)) by {
                    if path.contains(u) {
                        let m = path.index_of(u);
                        assert(s0.disc@.contains_key(path[m]));
                    }
                }
                assert(n.adjacent(path.last(), u)) by {
                    reveal(is_line);
                    let m = path.len() - 1;
                    assert(n.adjacent(longer[m], longer[m + 1]));
                }
                lemma_back_edge(n, s0.disc@, path, u, i);
            }
        }
    }
}

fn dfs(g: &Graph, u: u64, parent: Option<u64>, s: &mut Cuts, Ghost(path): Ghost<Seq<u64>>) -> (low: usize)
    requires
        searching(g@, *old(s), path),
        g@.vertices.contains(u),
        !old(s).disc@.contains_key(u),
        path.len() > 0 ==> g@.adjacent(path.last(), u) && parent == Some(path.last()),
        path.len() == 0 ==> parent is None,
    ensures
        searching(g@, *final(s), path),
        extends(*old(s), *final(s)),
        explored(g@, *final(s), visited_since(*old(s), *final(s)), path, u, g@.neighbors(u), low),
        forall|w: u64| #[trigger] g@.adjacent(u, w) ==> visited_since(*old(s), *final(s)).contains(w) || path.contains(w),
        final(s).disc@[u] == old(s).time + 1,
        self_spared(g@, final(s).points@, visited_since(*old(s), *final(s)), path, u),
        path.len() == 0 ==> root_spared(g@, final(s).points@, visited_since(*old(s), *final(s)), u),
        found_below(*old(s), *final(s), visited_since(*old(s), *final(s)), u),
    decreases g@.vertices.len() - old(s).disc@.dom().len(),
{
    let ghost n = g@;
    let ghost s0 = *s;
    let total: usize = g.vertices().len();
    proof {
        lemma_room(n, s0, path, u);
    }
    s.time += 1;
    let moment: usize = s.time;
    s.disc.insert(u, moment);
    let ghost mut t: Set<u64> = set![u];
    let ghost longer = path.push(u);
    proof {
        lemma_enter(n, s0, *s, path, u);
        assert(s.disc@.dom() =~= s0.disc@.dom().insert(u));
        reveal(found_below);
    }
    let list = g.neighbors(u);
    let mut low: usize = moment;
    let mut children: usize = 0;
    let mut j: usize = 0;
    assert(list@.take(0) =~= Seq::empty());
    while j < list.len()
        invariant
            n == g@,
            n.wf(),
            longer == path.push(u),
            s0 == *old(s),
            list@ == n.neighbors(u),
            j <= list@.len(),
            path.len() > 0 ==> n.adjacent(path.last(), u) && parent == Some(path.last()),
            path.len() == 0 ==> parent is None,
            searching(n, s0, path),
            !s0.disc@.contains_key(u),
            moment == s0.time + 1,
            searching(n, *s, longer),
            extends(s0, *s),
            t == visited_since(s0, *s),
            s.disc@.contains_key(u),
            s.disc@[u] == moment,
            s.disc@.dom().len() > s0.disc@.dom().len(),
            explored(n, *s, t, path, u, list@.take(j as int), low),
            forall|k: int| 0 <= k < j ==> t.contains(#[trigger] list@[k]) || path.contains(list@[k]),
            path.len() > 0 ==> s.points@.contains(u) || linked_without(n, t, u, path.last()),
            found_below(s0, *s, t, u),
            path.len() == 0 ==> {
                &&& children == 0 ==> t == set![u]
                &&& children == 1 ==> forall|a: u64, b: u64| #[trigger]
                    t.contains(a) && #[trigger] t.contains(b) && a != u && b != u ==> linked(without_vertex(n, u), a, b)
                &&& children >= 1 ==> exists|a: u64| #[trigger] t.contains(a) && a != u
                &&& children >= 2 ==> is_articulation_point(n, u)
            },
        decreases list@.len() - j,
    {
        let v: u64 = list[j];
        let ghost own = list@.take(j as int);
        proof {
            lemma_neighbors(n, u, v);
            assert(list@.contains(v));
            assert(list@.take(j + 1) =~= own.push(v));
        }
        if !s.disc.contains_key(&v) {
            let ghost s1 = *s;
            let ghost low0 = low;
            proof {
                lemma_room(n, s1, longer, v);
                assert(longer.last() == u);
            }
            let low_v: usize = dfs(g, v, Some(u), s, Ghost(longer));
            let ghost s2 = *s;
            let ghost tv = visited_since(s1, s2);
            let ghost t1 = t;
            proof {
                assert forall|i: int| 0 <= i < path.len() implies s1.disc@.contains_key(#[trigger] path[i]) && !t1.contains(path[i]) by {
                    assert(longer[i] == path[i]);
                    assert(s0.disc@.contains_key(path[i]));
                }
                assert forall|i: int| 0 <= i < longer.len() implies !tv.contains(#[trigger] longer[i]) by {
                    assert(s1.disc@.contains_key(longer[i]));
                }
                assert forall|w: u64| n.adjacent(v, w) implies tv.contains(w) || #[trigger] path.push(u).contains(w) by {
                    assert(n.adjacent(v, w));
                }
                assert(returned(n, s1, s2, t1, tv, path, u, v));
                assert(s2.disc@[v] > s2.disc@[u]);
                if low_v > moment {
                    lemma_bridge(n, s2.disc@, tv, longer, v, n.neighbors(v), low_v);
                } else {
                    lemma_no_bridge(n, s2.disc@, tv, longer, v, low_v);
                }
                if path.len() > 0 && low_v >= moment {
                    lemma_point(n, s2.disc@, tv, longer, v, n.neighbors(v), low_v);
                }
                if path.len() == 0 && children >= 1 {
                    assert(path =~= Seq::empty());
                    let a = choose|a: u64| #[trigger] t1.contains(a) && a != u;
                    lemma_root_point(n, t1, u, a, v);
                }
            }
            if low_v < low {
                low = low_v;
            }
            if low_v > moment {
                s.bridges.push((u, v));
            }
            if parent.is_some() && low_v >= moment {
                s.points.insert(u);
            }
            if children < 2 {
                children += 1;
            }
            proof {
                lemma_note(n, s1, s2, *s, t1, tv, path, u, v, s0);
                lemma_merge_fenced(n, s1, s2, t1, tv, path, u, v);
                lemma_merge_low(n, s1, s2, t1, tv, path, u, v, own, low0, low_v, low);
                lemma_merge_judged(n, s1, s2, *s, t1, tv, path, u, v, own);
                lemma_merge_spared(n, s1, s2, s.points@, t1, tv, path, u, v);
                t = t1 + tv;
                vstd::set_lib::lemma_len_subset(s1.disc@.dom(), s2.disc@.dom());
                if path.len() > 0 && !s.points@.contains(u) {
                    assert(longer[longer.len() - 2] == path.last());
                    assert(linked_without(n, tv, u, path.last()));
                    assert(linked_without(n, t1, u, path.last())) by {
                        assert(!s1.points@.contains(u));
                    }
                }
                if path.len() == 0 {
                    assert(t.contains(v) && v != u);
                    if children == 1 {
                        assert(t1 == set![u]);
                        assert forall|a: u64, b: u64| #[trigger] t.contains(a) && #[trigger] t.contains(b) && a != u && b != u implies linked(
                            without_vertex(n, u),
                            a,
                            b,
                        ) by {
                            lemma_tied_pair(n, tv, v, u, a, b);
                        }
                    }
                }
            }
        } else {
            let is_from = match parent {
                Some(p) => p == v,
                None => false,
            };
            let ghost low0 = low;
            if !is_from {
                let m: usize = moment_of(&s.disc, v);
                if m < low {
                    low = m;
                }
            }
            proof {
                lemma_known_neighbor(n, s0, *s, t, path, u, own, low0, v, low);
            }
        }
        j += 1;
    }
    proof {
        assert(list@.take(j as int) =~= list@);
        assert forall|w: u64| #[trigger] n.adjacent(u, w) implies t.contains(w) || path.contains(w) by {
            lemma_neighbors(n, u, w);
            let k = list@.index_of(w);
            assert(list@[k] == w);
        }
        assert forall|w: u64| #[trigger] n.adjacent(u, w) implies s.disc@.contains_key(w) by {
            if path.contains(w) {
                let i = path.index_of(w);
                assert(s0.disc@.contains_key(path[i]));
            }
        }
        lemma_leave(n, *s, path, u);
    }
    let ghost s1 = *s;
    if parent.is_none() && children >= 2 {
        s.points.insert(u);
        proof {
            assert(sound(n, *s)) by {
                reveal(sound);
            }
            assert(found_below(s0, *s, t, u)) by {
                reveal(found_below);
            }
            assert(spared(n, s.points@, t, u)) by {
                reveal(spared);
            }
            assert(visited_since(s0, *s) =~= t);
        }
    }
    low
}

/// The vertices of a set that are linked within it are linked without a vertex outside of it.
proof fn lemma_tied_pair(n: Network, t: Set<u64>, v: u64, c: u64, a: u64, b: u64)
    requires
        tied(n, t, v),
        !t.contains(c),
        t.contains(a),
        t.contains(b),
    ensures
        linked(without_vertex(n, c), a, b),
{
    reveal(tied);
    let free = without_vertex(n, c);
    lemma_symmetric(n, t, c, c);
    lemma_linked_more(within(n, t), free, v, a);
    lemma_linked_more(within(n, t), free, v, b);
    lemma_linked_back(free, v, a);
    lemma_linked_join(free, a, v, b);
}

/// Whether a vertex lies in a set that no edge leaves, and in which everything is linked without any
/// one vertex that was not found to be an articulation point.
#[verifier::opaque]
spec fn resolved(n: Network, points: Set<u64>, a: u64) -> bool {
    exists|t: Set<u64>| #[trigger] t.contains(a) && is_resolved_part(n, points, t)
}

spec fn is_resolved_part(n: Network, points: Set<u64>, t: Set<u64>) -> bool {
    &&& forall|x: u64, w: u64| t.contains(x) && #[trigger] n.adjacent(x, w) ==> t.contains(w)
    &&& forall|c: u64, x: u64, y: u64|
        !points.contains(c) && t.contains(x) && t.contains(y) && x != c && y != c ==> #[trigger] linked(without_vertex(n, c), x, y)
}

proof fn lemma_resolved(n: Network, s: Cuts, t: Set<u64>, u: u64, low: usize)
    requires
        explored(n, s, t, Seq::empty(), u, n.neighbors(u), low),
        forall|w: u64| #[trigger] n.adjacent(u, w) ==> t.contains(w) || Seq::<u64>::empty().contains(w),
        root_spared(n, s.points@, t, u),
    ensures
        is_resolved_part(n, s.points@, t),
        forall|x: u64, w: u64| t.contains(x) && #[trigger] n.adjacent(x, w) ==> told(n, s.bridges@, x, w),
{
    let points = s.points@;
    assert forall|x: u64, w: u64| t.contains(x) && #[trigger] n.adjacent(x, w) implies t.contains(w) by {
        reveal(fenced);
    }
    assert forall|c: u64, x: u64, y: u64|
        !points.contains(c) && t.contains(x) && t.contains(y) && x != c && y != c implies #[trigger] linked(
        without_vertex(n, c),
        x,
        y,
    ) by {
        if !t.contains(c) {
            lemma_tied_pair(n, t, u, c, x, y);
        } else if c != u {
            reveal(spared);
            let free = without_vertex(n, c);
            assert(linked_without(n, t, c, u));
            lemma_symmetric(n, t, c, c);
            lemma_linked_back(free, y, u);
            lemma_linked_join(free, x, u, y);
        }
    }
    assert forall|x: u64, w: u64| t.contains(x) && #[trigger] n.adjacent(x, w) implies told(n, s.bridges@, x, w) by {
        reveal(judged);
        if x == u {
            lemma_neighbors(n, u, w);
            let k = n.neighbors(u).index_of(w);
            assert(!is_parent(Seq::empty(), n.neighbors(u)[k]));
        }
    }
}

proof fn lemma_walk_stays(n: Network, t: Set<u64>, a: u64, b: u64, k: nat)
    requires
        t.contains(a),
        forall|x: u64, w: u64| t.contains(x) && #[trigger] n.adjacent(x, w) ==> t.contains(w),
        walk(n, a, b, k),
    ensures
        t.contains(b),
    decreases k,
{
    if k > 0 {
        let w = lemma_walk_last(n, a, b, k);
        lemma_walk_stays(n, t, a, w, (k - 1) as nat);
    }
}

proof fn lemma_no_point(n: Network, points: Set<u64>, c: u64)
    requires
        n.wf(),
        !points.contains(c),
        forall|a: u64| #[trigger] n.vertices.contains(a) ==> resolved(n, points, a),
    ensures
        !is_articulation_point(n, c),
{
    if is_articulation_point(n, c) {
        let (a, b) = choose|a: u64, b: u64|
            a != c && b != c && #[trigger] connected(n, a, b) && !#[trigger] linked(without_vertex(n, c), a, b);
        let k = choose|k: nat| walk(n, a, b, k);
        if a == b {
            lemma_linked_self(without_vertex(n, c), a);
        } else {
            assert(n.vertices.contains(a)) by {
                crate::graph::distance::lemma_walk_back(n, a, b, k);
                let w = lemma_walk_last(n, b, a, k);
                lemma_neighbors(n, w, a);
            }
            reveal(resolved);
            assert(resolved(n, points, a));
            let t = choose|t: Set<u64>| #[trigger] t.contains(a) && is_resolved_part(n, points, t);
            lemma_walk_stays(n, t, a, b, k);
        }
    }
}

/// Searches the whole graph for bridges and articulation points.
fn find_cuts(g: &Graph) -> (s: Cuts)
    ensures
        sound(g@, s),
        forall|u: u64, v: u64| #[trigger] parts_pair(g@, u, v) ==> listed(s.bridges@, u, v),
        forall|c: u64| #[trigger] s.points@.contains(c) <==> is_articulation_point(g@, c),
{
    let all = g.vertices();
    let ghost n = g@;
    let mut s = Cuts { time: 0, disc: HashMap::new(), bridges: Vec::new(), points: HashSet::new() };
    proof {
        reveal(is_line);
        reveal(closed_off);
        reveal(sound);
    }
    let mut i: usize = 0;
    while i < all.len()
        invariant
            n == g@,
            n.wf(),
            all@ == n.vertices,
            i <= all@.len(),
            searching(n, s, Seq::empty()),
            forall|j: int| 0 <= j < i ==> s.disc@.contains_key(#[trigger] all@[j]),
            forall|a: u64| #[trigger] s.disc@.contains_key(a) ==> resolved(n, s.points@, a),
            forall|x: u64, w: u64| s.disc@.contains_key(x) && #[trigger] n.adjacent(x, w) ==> told(n, s.bridges@, x, w),
        decreases all@.len() - i,
    {
        let v: u64 = all[i];
        let ghost s0 = s;
        assert(n.vertices.contains(v));
        if !s.disc.contains_key(&v) {
            let low: usize = dfs(g, v, None, &mut s, Ghost(Seq::empty()));
            proof {
                let t = visited_since(s0, s);
                lemma_resolved(n, s, t, v, low);
                assert forall|a: u64| #[trigger] s.disc@.contains_key(a) implies resolved(n, s.points@, a) by {
                    reveal(resolved);
                    if s0.disc@.contains_key(a) {
                        assert(resolved(n, s0.points@, a));
                        let p = choose|p: Set<u64>| #[trigger] p.contains(a) && is_resolved_part(n, s0.points@, p);
                        assert(p.contains(a) && is_resolved_part(n, s.points@, p));
                    } else {
                        assert(t.contains(a));
                    }
                }
                assert forall|x: u64, w: u64| s.disc@.contains_key(x) && #[trigger] n.adjacent(x, w) implies told(
                    n,
                    s.bridges@,
                    x,
                    w,
                ) by {
                    if s0.disc@.contains_key(x) {
                        assert(told(n, s0.bridges@, x, w));
                        if parts_pair(n, x, w) {
                            lemma_listed_stays(s0, s, x, w);
                        }
                    } else {
                        assert(t.contains(x));
                    }
                }
            }
        }
        proof {
            assert forall|j: int| 0 <= j < i + 1 implies s.disc@.contains_key(#[trigger] all@[j]) by {
                if j < i {
                    assert(s0.disc@.contains_key(all@[j]));
                }
            }
        }
        i += 1;
    }
    proof {
        assert forall|a: u64| #[trigger] n.vertices.contains(a) implies s.disc@.contains_key(a) by {
            assert(all@[n.vertices.index_of(a)] == a);
        }
        assert forall|u: u64, v: u64| #[trigger] parts_pair(n, u, v) implies listed(s.bridges@, u, v) by {
            lemma_neighbors(n, u, v);
            assert(n.adjacent(u, v));
            assert(told(n, s.bridges@, u, v));
        }
        assert forall|c: u64| #[trigger] s.points@.contains(c) <==> is_articulation_point(n, c) by {
            if s.points@.contains(c) {
                reveal(sound);
            } else {
                assert forall|a: u64| #[trigger] n.vertices.contains(a) implies resolved(n, s.points@, a) by {
                    assert(s.disc@.contains_key(a));
                }
                lemma_no_point(n, s.points@, c);
            }
        }
    }
    s
}

proof fn lemma_listed_stays(a: Cuts, b: Cuts, u: u64, v: u64)
    requires
        extends(a, b),
        listed(a.bridges@, u, v),
    ensures
        listed(b.bridges@, u, v),
{
    let e = if a.bridges@.contains((u, v)) {
        (u, v)
    } else {
        (v, u)
    };
    let k = a.bridges@.index_of(e);
    assert(b.bridges@.take(a.bridges@.len() as int)[k] == b.bridges@[k]);
    assert(b.bridges@[k] == e);
}

/// Whether a list holds every bridge once, in one direction.
pub open spec fn lists_bridges(n: Network, r: Seq<(u64, u64)>) -> bool {
    &&& forall|i: int| 0 <= i < r.len() ==> is_bridge(n, (#[trigger] r[i]).0, r[i].1)
    &&& forall|u: u64, v: u64| #[trigger] is_bridge(n, u, v) ==> listed(r, u, v)
    &&& forall|i: int, j: int|
        0 <= i < j < r.len() ==> (#[trigger] r[i]) != (#[trigger] r[j]) && r[i] != (r[j].1, r[j].0)
}

/// Whether an edge at a position connects two vertices, and no other edge does.
spec fn joined_by(n: Network, u: u64, v: u64, i: int) -> bool {
    &&& 0 <= i < n.edges.len() && joins(n.edges[i], u, v)
    &&& forall|j: int| 0 <= j < n.edges.len() && joins(#[trigger] n.edges[j], u, v) ==> j == i
}

/// A bridge is the only edge between two vertices that are connected by no other way.
proof fn lemma_bridge_is_only_edge(n: Network, u: u64, v: u64)
    ensures
        is_bridge(n, u, v) <==> parts_pair(n, u, v) && exists|i: int| #[trigger] joined_by(n, u, v, i),
{
    let pair = without_pair(n, u, v);
    assert forall|x: u64, y: u64| n.adjacent(x, y) <==> exists|j: int| 0 <= j < n.edges.len() && joins(#[trigger] n.edges[j], x, y) by {
        if n.edge(x, y) {
            let j = n.edges.index_of(Edge { from: x, to: y });
            assert(joins(n.edges[j], x, y));
        } else if n.edge(y, x) {
            let j = n.edges.index_of(Edge { from: y, to: x });
            assert(joins(n.edges[j], x, y));
        }
        if exists|j: int| 0 <= j < n.edges.len() && joins(#[trigger] n.edges[j], x, y) {
            let j = choose|j: int| 0 <= j < n.edges.len() && joins(#[trigger] n.edges[j], x, y);
            assert(n.edges[j] == (Edge { from: x, to: y }) || n.edges[j] == (Edge { from: y, to: x }));
            assert(n.edges.contains(n.edges[j]));
        }
    }
    if is_bridge(n, u, v) {
        let i = choose|i: int|
            0 <= i < n.edges.len() && joins(#[trigger] n.edges[i], u, v) && !linked(without_edge(n, i), u, v);
        let step = without_edge(n, i);
        assert(n.adjacent(u, v));
        assert forall|x: u64, y: u64| #[trigger] pair(x, y) implies step(x, y) by {
            let j = choose|j: int| 0 <= j < n.edges.len() && joins(#[trigger] n.edges[j], x, y);
            assert(joins(n.edges[j], x, y) && j != i);
        }
        if linked(pair, u, v) {
            lemma_linked_more(pair, step, u, v);
        }
        assert forall|j: int| 0 <= j < n.edges.len() && joins(#[trigger] n.edges[j], u, v) implies j == i by {
            if j != i {
                lemma_linked_self(step, u);
                assert(step(u, v));
                lemma_linked_step(step, u, u, v);
            }
        }
        assert(joined_by(n, u, v, i));
    }
    if parts_pair(n, u, v) && exists|i: int| #[trigger] joined_by(n, u, v, i) {
        let i = choose|i: int| #[trigger] joined_by(n, u, v, i);
        let step = without_edge(n, i);
        assert forall|x: u64, y: u64| #[trigger] step(x, y) implies pair(x, y) by {
            let j = choose|j: int| 0 <= j < n.edges.len() && j != i && joins(#[trigger] n.edges[j], x, y);
            assert(n.adjacent(x, y));
            if (x == u && y == v) || (x == v && y == u) {
                assert(joins(n.edges[j], u, v));
            }
        }
        if linked(step, u, v) {
            lemma_linked_more(step, pair, u, v);
        }
        assert(joins(n.edges[i], u, v));
    }
}

/// Decides whether exactly one edge connects two vertices.
fn joined_once(g: &Graph, u: u64, v: u64) -> (r: bool)
    ensures
        r <==> exists|i: int| #[trigger] joined_by(g@, u, v, i),
{
    let edges = g.edges();
    let ghost n = g@;
    let mut first: Option<usize> = None;
    let mut i: usize = 0;
    while i < edges.len()
        invariant
            n == g@,
            edges@ == n.edges,
            i <= edges@.len(),
            first is None ==> forall|j: int| 0 <= j < i ==> !joins(#[trigger] n.edges[j], u, v),
            first matches Some(k) ==> k < i && joins(n.edges[k as int], u, v) && forall|j: int|
                0 <= j < i && joins(#[trigger] n.edges[j], u, v) ==> j == k,
        decreases edges@.len() - i,
    {
        let e = edges[i];
        if (e.from == u && e.to == v) || (e.from == v && e.to == u) {
            if first.is_some() {
                proof {
                    let k = first->0 as int;
                    assert forall|m: int| !#[trigger] joined_by(n, u, v, m) by {
                        assert(joins(n.edges[k], u, v) && joins(n.edges[i as int], u, v));
                    }
                }
                return false;
            }
            first = Some(i);
        }
        i += 1;
    }
    proof {
        if first is Some {
            assert(joined_by(n, u, v, first->0 as int));
        }
    }
    first.is_some()
}

/// Find all bridges (cut edges) in an undirected graph.
/// Returns a list of edge pairs (u, v) that are bridges.
pub fn bridges(g: &Graph) -> (r: Vec<(u64, u64)>)
    ensures
        lists_bridges(g@, r@),
{
    let s = find_cuts(g);
    let ghost n = g@;
    let found = s.bridges;
    let mut r: Vec<(u64, u64)> = Vec::new();
    let mut i: usize = 0;
    proof {
        reveal(sound);
        assert forall|i: int, j: int| 0 <= i < j < found@.len() implies (#[trigger] found@[i]) != (#[trigger] found@[j])
            && found@[i] != (found@[j].1, found@[j].0) by {
            assert(s.disc@[found@[i].0] < s.disc@[found@[i].1]);
            assert(s.disc@[found@[j].0] < s.disc@[found@[j].1]);
        }
    }
    while i < found.len()
        invariant
            n == g@,
            i <= found@.len(),
            forall|j: int| 0 <= j < found@.len() ==> parts_pair(n, (#[trigger] found@[j]).0, found@[j].1),
            forall|j: int, k: int|
                0 <= j < k < found@.len() ==> (#[trigger] found@[j]) != (#[trigger] found@[k]) && found@[j] != (found@[k].1, found@[k].0),
            forall|j: int| 0 <= j < r@.len() ==> is_bridge(n, (#[trigger] r@[j]).0, r@[j].1) && found@.take(i as int).contains(r@[j]),
            forall|j: int| 0 <= j < i && is_bridge(n, (#[trigger] found@[j]).0, found@[j].1) ==> r@.contains(found@[j]),
            forall|j: int, k: int|
                0 <= j < k < r@.len() ==> (#[trigger] r@[j]) != (#[trigger] r@[k]) && r@[j] != (r@[k].1, r@[k].0),
        decreases found@.len() - i,
    {
        let (u, v) = found[i];
        let ghost before = r@;
        assert(found@[i as int] == (u, v));
        proof {
            lemma_bridge_is_only_edge(n, u, v);
        }
        if joined_once(g, u, v) {
            r.push((u, v));
        }
        proof {
            assert(found@.take(i + 1) =~= found@.take(i as int).push((u, v)));
            assert forall|e: (u64, u64)| found@.take(i as int).contains(e) implies #[trigger] found@.take(i + 1).contains(e) by {
                let j = found@.take(i as int).index_of(e);
                assert(found@.take(i + 1)[j] == e);
            }
            assert(found@.take(i + 1)[i as int] == (u, v));
            assert forall|j: int| 0 <= j < i + 1 && is_bridge(n, (#[trigger] found@[j]).0, found@[j].1) implies r@.contains(found@[j]) by {
                if j < i {
                    let k = before.index_of(found@[j]);
                    assert(r@[k] == found@[j]);
                } else {
                    assert(r@[before.len() as int] == (u, v));
                }
            }
            assert forall|j: int, k: int| 0 <= j < k < r@.len() implies (#[trigger] r@[j]) != (#[trigger] r@[k]) && r@[j] != (
                r@[k].1,
                r@[k].0,
            ) by {
                if k == before.len() {
                    assert(before[j] == r@[j]);
                    let m = found@.take(i as int).index_of(before[j]);
                    assert(found@[m] == r@[j]);
                }
            }
        }
        i += 1;
    }
    proof {
        assert forall|u: u64, v: u64| #[trigger] is_bridge(n, u, v) implies listed(r@, u, v) by {
            lemma_bridge_is_only_edge(n, u, v);
            lemma_bridge_is_only_edge(n, v, u);
            assert(listed(found@, u, v));
            lemma_bridge_either_way(n, u, v);
            let k = choose|i: int| #[trigger] joined_by(n, u, v, i);
            assert(joined_by(n, v, u, k));
            let e = if found@.contains((u, v)) {
                (u, v)
            } else {
                (v, u)
            };
            let j = found@.index_of(e);
            assert(found@[j] == e);
            assert(is_bridge(n, e.0, e.1));
        }
    }
    r
}

/// Find all articulation points using DFS-based low-link values.
pub fn articulation_points(g: &Graph) -> (r: Vec<u64>)
    ensures
        r@.no_duplicates(),
        forall|c: u64| #[trigger] r@.contains(c) <==> is_articulation_point(g@, c),
{
    let all = g.vertices();
    let ghost n = g@;
    let s = find_cuts(g);
    let mut r: Vec<u64> = Vec::new();
    let mut i: usize = 0;
    while i < all.len()
        invariant
            n.wf(),
            all@ == n.vertices,
            i <= all@.len(),
            r@.no_duplicates(),
            forall|c: u64| #[trigger] r@.contains(c) <==> s.points@.contains(c) && exists|j: int| 0 <= j < i && all@[j] == c,
        decreases all@.len() - i,
    {
        let v: u64 = all[i];
        let ghost before = r@;
        if s.points.contains(&v) {
            r.push(v);
            proof {
                assert(!before.contains(v));
                assert forall|c: u64| #[trigger] r@.contains(c) <==> s.points@.contains(c) && exists|j: int|
                    0 <= j < i + 1 && all@[j] == c by {
                    if before.contains(c) {
                        assert(r@[before.index_of(c)] == c);
                    }
                    if c == v {
                        assert(r@[before.len() as int] == v);
                        assert(all@[i as int] == v);
                    }
                    if r@.contains(c) && c != v {
                        assert(before[r@.index_of(c)] == c);
                    }
                }
            }
        }
        i += 1;
    }
    proof {
        assert forall|c: u64| #[trigger] r@.contains(c) <==> is_articulation_point(n, c) by {
            if is_articulation_point(n, c) {
                assert(s.points@.contains(c));
                assert(all@[n.vertices.index_of(c)] == c);
            }
        }
    }
    r
}

/// Whether a graph has more than one vertex and none whose removal disconnects it.
pub open spec fn biconnected(n: Network) -> bool {
    n.vertices.len() > 1 && forall|c: u64| !#[trigger] is_articulation_point(n, c)
}

/// Check that removing a single vertex does not disconnect the graph.
pub fn is_biconnected(g: &Graph) -> (r: bool)
    ensures
        r == biconnected(g@),
{
    let points = articulation_points(g);
    proof {
        if points@.len() > 0 {
            assert(points@.contains(points@[0]));
            assert(is_articulation_point(g@, points@[0]));
        } else {
            assert forall|c: u64| !#[trigger] is_articulation_point(g@, c) by {
                assert(!points@.contains(c));
            }
        }
    }
    points.len() == 0 && g.vertices().len() > 1
}

} // verus!
