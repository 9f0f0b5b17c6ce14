//! Walks, distances and what is measured by them. Edges are followed in both directions.
use std::collections::{HashMap, VecDeque};

use vstd::prelude::*;

use crate::graph::{lemma_neighbors, Graph, Network};

verus! {

broadcast use vstd::std_specs::hash::group_hash_axioms;

/// Whether a walk of `k` edges leads from one vertex to another.
pub open spec fn walk(n: Network, u: u64, v: u64, k: nat) -> bool
    decreases k,
{
    if k == 0 {
        u == v
    } else {
        exists|w: u64| walk(n, u, w, (k - 1) as nat) && #[trigger] n.adjacent(w, v)
    }
}

/// Whether some walk leads from one vertex to another.
pub open spec fn connected(n: Network, u: u64, v: u64) -> bool {
    exists|k: nat| walk(n, u, v, k)
}

/// Whether the shortest walk from one vertex to another has `d` edges.
pub open spec fn is_distance(n: Network, u: u64, v: u64, d: nat) -> bool {
    &&& walk(n, u, v, d)
    &&& forall|k: nat| walk(n, u, v, k) ==> d <= k
}

/// A walk can be continued along an edge.
pub proof fn lemma_walk_step(n: Network, u: u64, w: u64, v: u64, k: nat)
    requires
        walk(n, u, w, k),
        n.adjacent(w, v),
    ensures
        walk(n, u, v, k + 1),
{
    assert(walk(n, u, w, ((k + 1) - 1) as nat) && n.adjacent(w, v));
}

/// The vertex before the end of a walk.
pub proof fn lemma_walk_last(n: Network, u: u64, v: u64, k: nat) -> (w: u64)
    requires
        k > 0,
        walk(n, u, v, k),
    ensures
        walk(n, u, w, (k - 1) as nat),
        n.adjacent(w, v),
{
    choose|w: u64| walk(n, u, w, (k - 1) as nat) && #[trigger] n.adjacent(w, v)
}

/// Walks can be put together.
pub proof fn lemma_walk_join(n: Network, u: u64, w: u64, v: u64, a: nat, b: nat)
    requires
        walk(n, u, w, a),
        walk(n, w, v, b),
    ensures
        walk(n, u, v, a + b),
    decreases b,
{
    if b > 0 {
        let x = lemma_walk_last(n, w, v, b);
        lemma_walk_join(n, u, w, x, a, (b - 1) as nat);
        lemma_walk_step(n, u, x, v, (a + (b - 1)) as nat);
    }
}

/// Walks can be taken backwards.
pub proof fn lemma_walk_back(n: Network, u: u64, v: u64, k: nat)
    requires
        walk(n, u, v, k),
    ensures
        walk(n, v, u, k),
    decreases k,
{
    if k > 0 {
        let w = lemma_walk_last(n, u, v, k);
        lemma_walk_back(n, u, w, (k - 1) as nat);
        lemma_neighbors(n, w, v);
        assert(walk(n, v, v, 0));
        lemma_walk_step(n, v, v, w, 0);
        lemma_walk_join(n, v, w, u, 1, (k - 1) as nat);
    }
}

/// Being connected is an equivalence.
pub proof fn connected_is_equivalence(n: Network, u: u64, v: u64, w: u64)
    ensures
        connected(n, u, u),
        connected(n, u, v) ==> connected(n, v, u),
        connected(n, u, v) && connected(n, v, w) ==> connected(n, u, w),
{
    assert(walk(n, u, u, 0));
    if connected(n, u, v) {
        let a = choose|k: nat| walk(n, u, v, k);
        lemma_walk_back(n, u, v, a);
        if connected(n, v, w) {
            let b = choose|k: nat| walk(n, v, w, k);
            lemma_walk_join(n, u, v, w, a, b);
        }
    }
}

/// What is connected to a vertex other than itself is a vertex of the graph.
pub proof fn lemma_connected_is_vertex(n: Network, u: u64, v: u64)
    requires
        n.wf(),
        connected(n, u, v),
    ensures
        u == v || (n.vertices.contains(v) && n.vertices.contains(u)),
{
    let k = choose|k: nat| walk(n, u, v, k);
    if k > 0 {
        let w = lemma_walk_last(n, u, v, k);
        lemma_neighbors(n, w, v);
        lemma_walk_back(n, u, v, k);
        let x = lemma_walk_last(n, v, u, k);
        lemma_neighbors(n, x, u);
    }
}

/// No set of vertices and one more element is larger than the list of vertices and one.
proof fn lemma_few_keys(dom: Set<u64>, vertices: Seq<u64>, s: u64)
    requires
        forall|v: u64| dom.contains(v) ==> v == s || vertices.contains(v),
    ensures
        dom.finite(),
        dom.len() <= vertices.len() + 1,
{
    let all = vertices.to_set().insert(s);
    vertices.lemma_cardinality_of_set();
    assert(dom.subset_of(all)) by {
        assert forall|v: u64| dom.contains(v) implies all.contains(v) by {
            if v != s {
                assert(vertices.to_set().contains(v));
            }
        }
    }
    vstd::set_lib::lemma_len_subset(dom, all);
}

/// Where every reached vertex has its neighbors reached at most one step later, each vertex with a
/// walk is reached, and no later than the walk is long.
proof fn lemma_closed(n: Network, s: u64, dist: Map<u64, usize>, v: u64, k: nat)
    requires
        dist.contains_key(s),
        dist[s] == 0,
        forall|x: u64, w: u64|
            dist.contains_key(x) && #[trigger] n.adjacent(x, w) ==> dist.contains_key(w) && dist[w] <= dist[x] + 1,
        walk(n, s, v, k),
    ensures
        dist.contains_key(v),
        dist[v] <= k,
    decreases k,
{
    if k > 0 {
        let w = lemma_walk_last(n, s, v, k);
        lemma_closed(n, s, dist, w, (k - 1) as nat);
    }
}

/// What is known of a breadth-first search while it runs: `q` is the queue.
spec fn searching(n: Network, s: u64, dist: Map<u64, usize>, q: Seq<u64>) -> bool {
    &&& dist.contains_key(s)
    &&& dist[s] == 0
    &&& forall|v: u64| #[trigger] dist.contains_key(v) ==> (v == s || n.vertices.contains(v)) && walk(n, s, v, dist[v] as nat)
        && dist[v] < dist.dom().len()
    &&& q.no_duplicates()
    &&& forall|i: int| 0 <= i < q.len() ==> dist.contains_key(#[trigger] q[i])
    &&& forall|i: int, j: int| 0 <= i < j < q.len() ==> dist[#[trigger] q[i]] <= dist[#[trigger] q[j]]
}

/// Whether the neighbors of a vertex are reached at most one step later.
spec fn expanded(n: Network, dist: Map<u64, usize>, v: u64) -> bool {
    forall|w: u64| #[trigger] n.adjacent(v, w) ==> dist.contains_key(w) && dist[w] <= dist[v] + 1
}

/// Whether a vertex was reached from a neighbor, one step earlier.
pub open spec fn came_from(n: Network, dist: Map<u64, usize>, parent: Map<u64, u64>, v: u64) -> bool {
    &&& parent.contains_key(v)
    &&& dist.contains_key(parent[v])
    &&& n.adjacent(parent[v], v)
    &&& dist[v] == dist[parent[v]] + 1
}

/// Whether every reached vertex but the first was reached from a neighbor, one step earlier.
pub open spec fn leads_back(n: Network, s: u64, dist: Map<u64, usize>, parent: Map<u64, u64>) -> bool {
    forall|v: u64| dist.contains_key(v) && v != s ==> #[trigger] came_from(n, dist, parent, v)
}

/// Whether a line of vertices starts with `s`, holds each reached vertex once, and nearer vertices
/// before farther ones.
pub open spec fn in_line(dist: Map<u64, usize>, s: u64, line: Seq<u64>) -> bool {
    &&& line.no_duplicates()
    &&& line.len() > 0
    &&& line[0] == s
    &&& forall|v: u64| #[trigger] dist.contains_key(v) <==> line.contains(v)
    &&& forall|i: int, j: int| 0 <= i < j < line.len() ==> dist[#[trigger] line[i]] <= dist[#[trigger] line[j]]
}

/// A line behind which those of the first `k` vertices of a list stand that it does not hold yet.
pub open spec fn absorbed(line: Seq<u64>, list: Seq<u64>, k: nat) -> Seq<u64>
    decreases k,
{
    if k == 0 {
        line
    } else {
        let before = absorbed(line, list, (k - 1) as nat);
        if before.contains(list[k - 1]) {
            before
        } else {
            before.push(list[k - 1])
        }
    }
}

/// The line that starts with a vertex, once the neighbors of its first `k` vertices have been put
/// behind it.
pub open spec fn lined_up(n: Network, s: u64, k: nat) -> Seq<u64>
    decreases k,
{
    if k == 0 {
        seq![s]
    } else {
        let before = lined_up(n, s, (k - 1) as nat);
        if k - 1 < before.len() {
            let list = n.neighbors(before[k - 1]);
            absorbed(before, list, list.len())
        } else {
            before
        }
    }
}

/// The order in which a breadth-first search visits the vertices connected to a vertex: the
/// neighbors of a vertex in turn, along the edges that leave it and then along those that reach it.
pub open spec fn search_order(n: Network, s: u64) -> Seq<u64> {
    lined_up(n, s, n.vertices.len() + 1)
}

/// A line whose vertices have all been expanded stays as it is.
proof fn lemma_line_complete(n: Network, s: u64, j: nat, k: nat)
    requires
        lined_up(n, s, j).len() == j,
        j <= k,
    ensures
        lined_up(n, s, k) == lined_up(n, s, j),
    decreases k - j,
{
    if j < k {
        lemma_line_complete(n, s, j, (k - 1) as nat);
    }
}

/// What a breadth-first search finds: the vertices that it reaches, in the order in which it reaches
/// them, the distance of each, and the vertex that it was reached from.
pub struct Search {
    pub order: Vec<u64>,
    pub distance: HashMap<u64, usize>,
    pub parent: HashMap<u64, u64>,
}

/// Searches a graph from a vertex on, breadth first.
pub fn search_from(g: &Graph, s: u64) -> (r: Search)
    ensures
        r.distance@.dom().finite(),
        forall|v: u64| #[trigger] r.distance@.contains_key(v) <==> connected(g@, s, v),
        forall|v: u64| #[trigger] r.distance@.contains_key(v) ==> is_distance(g@, s, v, r.distance@[v] as nat),
        leads_back(g@, s, r.distance@, r.parent@),
        in_line(r.distance@, s, r.order@),
        r.order@ == search_order(g@, s),
{
    let ghost n = g@;
    let mut order: Vec<u64> = Vec::new();
    let mut dist: HashMap<u64, usize> = HashMap::new();
    let mut parent: HashMap<u64, u64> = HashMap::new();
    let mut queue: VecDeque<u64> = VecDeque::new();
    dist.insert(s, 0);
    queue.push_back(s);
    let total: usize = g.vertices().len();
    proof {
        assert(walk(n, s, s, 0));
        lemma_few_keys(dist@.dom(), n.vertices, s);
        assert(queue@ =~= seq![s]);
        assert(queue@[0] == s);
        assert(order@ + queue@ =~= seq![s]);
        assert((order@ + queue@)[0] == s);
    }
    while queue.len() > 0
        invariant
            n == g@,
            n.wf(),
            total == n.vertices.len(),
            searching(n, s, dist@, queue@),
            leads_back(n, s, dist@, parent@),
            in_line(dist@, s, order@ + queue@),
            order@ + queue@ == lined_up(n, s, order@.len()),
            queue@.len() > 0 ==> forall|v: u64| #[trigger] dist@.contains_key(v) ==> dist@[v] <= dist@[queue@[0]] + 1,
            forall|v: u64| #[trigger] dist@.contains_key(v) && !queue@.contains(v) ==> expanded(n, dist@, v),
            dist@.dom().finite(),
            dist@.dom().len() <= n.vertices.len() + 1,
        decreases n.vertices.len() + 1 - dist@.dom().len(), queue@.len(),
    {
        let ghost q0 = queue@;
        let v: u64 = match queue.pop_front() {
            Some(v) => v,
            None => 0,
        };
        assert(v == q0[0]);
        assert(dist@.contains_key(v));
        let d: usize = match dist.get(&v) {
            Some(d) => *d,
            None => 0,
        };
        let neighbors = g.neighbors(v);
        let mut i: usize = 0;
        let ghost size0 = dist@.dom().len();
        let ghost order0 = order@;
        let ghost line = order0 + q0;
        order.push(v);
        proof {
            assert(queue@ =~= q0.skip(1));
            assert(order@ + queue@ =~= line);
            assert(line[order0.len() as int] == v);
            assert forall|x: u64| dist@.contains_key(x) && !queue@.contains(x) && x != v implies expanded(n, dist@, x) by {
                if q0.contains(x) {
                    let j = q0.index_of(x);
                    assert(queue@[j - 1] == x);
                }
            }
            assert(!queue@.contains(v)) by {
                if queue@.contains(v) {
                    let j = queue@.index_of(v);
                    assert(q0[j + 1] == v);
                }
            }
            assert forall|j: int| 0 <= j < queue@.len() implies d <= dist@[#[trigger] queue@[j]] by {
                assert(dist@[q0[0]] <= dist@[q0[j + 1]]);
            }
        }
        while i < neighbors.len()
            invariant
                n == g@,
                n.wf(),
                total == n.vertices.len(),
                neighbors@ == n.neighbors(v),
                i <= neighbors@.len(),
                searching(n, s, dist@, queue@),
                leads_back(n, s, dist@, parent@),
                in_line(dist@, s, order@ + queue@),
                order@ + queue@ == absorbed(line, neighbors@, i as nat),
                dist@.contains_key(v),
                dist@[v] == d,
                !queue@.contains(v),
                forall|x: u64| #[trigger] dist@.contains_key(x) ==> dist@[x] <= d + 1,
                forall|j: int| 0 <= j < queue@.len() ==> d <= dist@[#[trigger] queue@[j]],
                forall|x: u64| #[trigger] dist@.contains_key(x) && !queue@.contains(x) && x != v ==> expanded(n, dist@, x),
                forall|j: int| 0 <= j < i ==> dist@.contains_key(#[trigger] neighbors@[j]),
                dist@.dom().finite(),
                dist@.dom().len() <= n.vertices.len() + 1,
                dist@.dom().len() > size0 || (dist@.dom().len() == size0 && queue@.len() < q0.len()),
            decreases neighbors@.len() - i,
        {
            let w: u64 = neighbors[i];
            proof {
                lemma_neighbors(n, v, w);
                assert(neighbors@.contains(w));
            }
            if !dist.contains_key(&w) {
                let ghost dist0 = dist@;
                let ghost parent0 = parent@;
                let ghost queue0 = queue@;
                let ghost line0 = order@ + queue@;
                assert(!queue0.contains(w));
                assert(!line0.contains(w));
                proof {
                    let dom1 = dist0.dom().insert(w);
                    lemma_few_keys(dom1, n.vertices, s);
                    assert(dist0.dom().len() < dom1.len());
                    assert(d < dist0.dom().len());
                    lemma_walk_step(n, s, v, w, d as nat);
                }
                dist.insert(w, d + 1);
                parent.insert(w, v);
                queue.push_back(w);
                proof {
                    assert(dist@.dom() =~= dist0.dom().insert(w));
                    assert forall|x: u64| dist@.contains_key(x) && x != s implies #[trigger] came_from(n, dist@, parent@, x) by {
                        if x != w {
                            assert(came_from(n, dist0, parent0, x));
                        }
                    }
                    assert(queue@ =~= queue0.push(w));
                    let line = order@ + queue@;
                    assert(line =~= line0.push(w));
                    assert forall|x: u64| #[trigger] dist@.contains_key(x) <==> line.contains(x) by {
                        if line0.contains(x) {
                            assert(line[line0.index_of(x)] == x);
                        }
                        if x == w {
                            assert(line[line0.len() as int] == w);
                        }
                    }
                    assert forall|a: int, b: int| 0 <= a < b < line.len() implies dist@[#[trigger] line[a]]
                        <= dist@[#[trigger] line[b]] by {
                        assert(line0.contains(line0[a]));
                        assert(dist0.contains_key(line0[a]));
                        if b < line0.len() {
                            assert(line0.contains(line0[b]));
                        }
                    }
                    assert forall|x: u64| #[trigger] dist@.contains_key(x) && !queue@.contains(x) && x != v implies expanded(
                        n,
                        dist@,
                        x,
                    ) by {
                        if x == w {
                            assert(queue@[queue0.len() as int] == w);
                        } else {
                            assert(dist0.contains_key(x));
                            if queue0.contains(x) {
                                assert(queue@[queue0.index_of(x)] == x);
                            }
                            assert(expanded(n, dist0, x));
                        }
                    }
                    assert(!queue@.contains(v));
                }
            }
            i += 1;
        }
        proof {
            assert(expanded(n, dist@, v)) by {
                assert forall|w: u64| #[trigger] n.adjacent(v, w) implies dist@.contains_key(w) && dist@[w] <= dist@[v] + 1 by {
                    lemma_neighbors(n, v, w);
                    let j = neighbors@.index_of(w);
                    assert(dist@.contains_key(neighbors@[j]));
                }
            }
        }
    }
    proof {
        assert forall|x: u64, w: u64| dist@.contains_key(x) && #[trigger] n.adjacent(x, w) implies dist@.contains_key(w)
            && dist@[w] <= dist@[x] + 1 by {
            assert(expanded(n, dist@, x));
        }
        assert forall|v: u64| #[trigger] dist@.contains_key(v) <==> connected(n, s, v) by {
            if connected(n, s, v) {
                let k = choose|k: nat| walk(n, s, v, k);
                lemma_closed(n, s, dist@, v, k);
            }
        }
        assert forall|v: u64| #[trigger] dist@.contains_key(v) implies is_distance(n, s, v, dist@[v] as nat) by {
            assert forall|k: nat| walk(n, s, v, k) implies dist@[v] <= k by {
                lemma_closed(n, s, dist@, v, k);
            }
        }
    }
    proof {
        assert(order@ + queue@ =~= order@);
        assert(order@.to_set() =~= dist@.dom()) by {
            assert forall|v: u64| order@.to_set().contains(v) <==> dist@.dom().contains(v) by {
                assert(dist@.contains_key(v) <==> order@.contains(v));
            }
        }
        order@.unique_seq_to_set();
        lemma_line_complete(n, s, order@.len(), n.vertices.len() + 1);
    }
    Search { order, distance: dist, parent }
}

/// The distances from a vertex to all vertices that are connected to it.
pub fn distances_from(g: &Graph, s: u64) -> (dist: HashMap<u64, usize>)
    ensures
        dist@.dom().finite(),
        forall|v: u64| #[trigger] dist@.contains_key(v) <==> connected(g@, s, v),
        forall|v: u64| #[trigger] dist@.contains_key(v) ==> is_distance(g@, s, v, dist@[v] as nat),
{
    search_from(g, s).distance
}

/// Distances are unique.
pub proof fn lemma_one_distance(n: Network, u: u64, v: u64, a: nat, b: nat)
    requires
        is_distance(n, u, v, a),
        is_distance(n, u, v, b),
    ensures
        a == b,
{
}

/// Connected vertices have a distance.
pub proof fn lemma_distance_exists(n: Network, u: u64, v: u64, k: nat) -> (d: nat)
    requires
        walk(n, u, v, k),
    ensures
        is_distance(n, u, v, d),
        d <= k,
    decreases k,
{
    if forall|j: nat| walk(n, u, v, j) ==> k <= j {
        k
    } else {
        let j = choose|j: nat| walk(n, u, v, j) && j < k;
        lemma_distance_exists(n, u, v, j)
    }
}

/// Whether a sequence of vertices follows edges, in either direction.
pub open spec fn is_path(n: Network, p: Seq<u64>) -> bool {
    &&& p.len() > 0
    &&& forall|i: int, j: int| 0 <= i && j == i + 1 && j < p.len() ==> n.adjacent(#[trigger] p[i], #[trigger] p[j])
}

/// A path gives a walk between its ends.
pub proof fn lemma_path_walk(n: Network, p: Seq<u64>)
    requires
        is_path(n, p),
    ensures
        walk(n, p[0], p.last(), (p.len() - 1) as nat),
    decreases p.len(),
{
    if p.len() > 1 {
        let q = p.drop_last();
        assert forall|i: int, j: int| 0 <= i && j == i + 1 && j < q.len() implies n.adjacent(
            #[trigger] q[i],
            #[trigger] q[j],
        ) by {
            assert(n.adjacent(p[i], p[j]));
        }
        lemma_path_walk(n, q);
        assert(n.adjacent(p[p.len() - 2], p[p.len() - 2 + 1]));
        lemma_walk_step(n, p[0], q.last(), p.last(), (q.len() - 1) as nat);
    }
}

/// A shortest path from one vertex to another, both included; none where they are not connected.
pub fn shortest_path(g: &Graph, start: u64, target: u64) -> (r: Option<Vec<u64>>)
    ensures
        r is Some <==> connected(g@, start, target),
        r matches Some(p) ==> {
            &&& is_path(g@, p@)
            &&& p@[0] == start
            &&& p@.last() == target
            &&& is_distance(g@, start, target, (p@.len() - 1) as nat)
        },
{
    let found = search_from(g, start);
    let ghost n = g@;
    let ghost dist = found.distance@;
    if !found.distance.contains_key(&target) {
        return None;
    }
    let mut path: Vec<u64> = Vec::new();
    path.push(target);
    let mut node: u64 = target;
    assert(is_distance(n, start, start, 0)) by {
        assert(walk(n, start, start, 0));
    }
    assert(connected(n, start, start)) by {
        assert(walk(n, start, start, 0));
    }
    assert(dist[start] == 0) by {
        assert(found.distance@.contains_key(start));
        lemma_one_distance(n, start, start, 0, dist[start] as nat);
    }
    while node != start
        invariant
            n == g@,
            dist == found.distance@,
            leads_back(n, start, dist, found.parent@),
            path@.len() > 0,
            path@[0] == target,
            path@.last() == node,
            dist.contains_key(start),
            dist[start] == 0,
            dist.contains_key(target),
            forall|i: int| 0 <= i < path@.len() ==> dist.contains_key(#[trigger] path@[i]),
            forall|i: int, j: int|
                0 <= i && j == i + 1 && j < path@.len() ==> n.adjacent(#[trigger] path@[j], #[trigger] path@[i]),
            dist[node] + path@.len() == dist[target] + 1,
        decreases dist[node],
    {
        assert(dist.contains_key(path@[path@.len() - 1]));
        assert(came_from(n, dist, found.parent@, node));
        let before: u64 = match found.parent.get(&node) {
            Some(p) => *p,
            None => start,
        };
        path.push(before);
        node = before;
    }
    let ghost backwards = path@;
    let mut forward: Vec<u64> = Vec::new();
    let mut i: usize = path.len();
    while i > 0
        invariant
            i <= path@.len(),
            path@ == backwards,
            forward@.len() == backwards.len() - i,
            forall|j: int| 0 <= j < forward@.len() ==> forward@[j] == #[trigger] backwards[backwards.len() - 1 - j],
        decreases i,
    {
        i -= 1;
        forward.push(path[i]);
        assert(forward@[forward@.len() - 1] == backwards[i as int]);
    }
    proof {
        let f = forward@;
        assert forall|j: int| 0 <= j < f.len() implies f[j] == backwards[f.len() - 1 - j] by {
            assert(f[j] == backwards[backwards.len() - 1 - j]);
        }
        assert forall|a: int, b: int| 0 <= a && b == a + 1 && b < f.len() implies n.adjacent(
            #[trigger] f[a],
            #[trigger] f[b],
        ) by {
            let k = f.len() - 1 - b;
            assert(n.adjacent(backwards[k + 1], backwards[k]));
        }
        assert(is_distance(n, start, target, dist[target] as nat));
    }
    Some(forward)
}

/// The largest distance in a map of distances.
fn largest(dist: &HashMap<u64, usize>) -> (r: usize)
    requires
        dist@.dom().finite(),
    ensures
        forall|v: u64| #[trigger] dist@.contains_key(v) ==> dist@[v] <= r,
        r == 0 || exists|v: u64| #[trigger] dist@.contains_key(v) && dist@[v] == r,
{
    let mut r: usize = 0;
    for kv in it: dist.iter()
        invariant
            forall|j: int| 0 <= j < it.index() ==> *(#[trigger] it.seq()[j]).1 <= r,
            r == 0 || exists|v: u64| #[trigger] dist@.contains_key(v) && dist@[v] == r,
    {
        if *kv.1 > r {
            r = *kv.1;
            assert(dist@.contains_key(*kv.0) && dist@[*kv.0] == r);
        }
    }
    r
}

/// Whether `e` is the largest distance from a vertex to any vertex connected to it.
pub open spec fn is_eccentricity(n: Network, s: u64, e: nat) -> bool {
    &&& exists|v: u64| #[trigger] is_distance(n, s, v, e)
    &&& forall|v: u64, d: nat| #[trigger] is_distance(n, s, v, d) ==> d <= e
}

fn eccentricity_of(g: &Graph, s: u64) -> (r: usize)
    ensures
        is_eccentricity(g@, s, r as nat),
{
    let dist = distances_from(g, s);
    let ghost n = g@;
    let r = largest(&dist);
    proof {
        if r == 0 {
            assert(walk(n, s, s, 0));
            assert(is_distance(n, s, s, 0));
        } else {
            let v = choose|v: u64| #[trigger] dist@.contains_key(v) && dist@[v] == r;
            assert(is_distance(n, s, v, r as nat));
        }
        assert forall|v: u64, d: nat| #[trigger] is_distance(n, s, v, d) implies d <= r by {
            assert(connected(n, s, v));
            assert(dist@.contains_key(v));
            lemma_one_distance(n, s, v, d, dist@[v] as nat);
        }
    }
    r
}

/// Eccentricity for each vertex: maximum distance to any other vertex (undirected, unweighted).
pub fn eccentricity(g: &Graph) -> (r: HashMap<u64, usize>)
    ensures
        r@.dom() == g@.vertices.to_set(),
        forall|v: u64| #[trigger] r@.contains_key(v) ==> is_eccentricity(g@, v, r@[v] as nat),
{
    let all = g.vertices();
    let mut r: HashMap<u64, usize> = HashMap::new();
    let mut i: usize = 0;
    while i < all.len()
        invariant
            all@ == g@.vertices,
            i <= all@.len(),
            forall|v: u64| #[trigger] r@.contains_key(v) <==> exists|j: int| 0 <= j < i && all@[j] == v,
            forall|v: u64| #[trigger] r@.contains_key(v) ==> is_eccentricity(g@, v, r@[v] as nat),
        decreases all@.len() - i,
    {
        let e: usize = eccentricity_of(g, all[i]);
        r.insert(all[i], e);
        i += 1;
    }
    assert(r@.dom() =~= g@.vertices.to_set());
    r
}

/// Whether `d` is the largest distance between connected vertices; zero for a graph without vertices.
pub open spec fn is_diameter(n: Network, d: nat) -> bool {
    if n.vertices.len() == 0 {
        d == 0
    } else {
        &&& exists|u: u64, v: u64| n.vertices.contains(u) && #[trigger] is_distance(n, u, v, d)
        &&& forall|u: u64, v: u64, k: nat| n.vertices.contains(u) && #[trigger] is_distance(n, u, v, k) ==> k <= d
    }
}

/// Graph diameter: longest shortest path between any pair of vertices (undirected, unweighted).
/// Returns 0 if fewer than 2 vertices.
pub fn diameter(g: &Graph) -> (r: usize)
    ensures
        is_diameter(g@, r as nat),
        g@.vertices.len() < 2 ==> r == 0,
{
    let all = g.vertices();
    let ghost n = g@;
    let mut r: usize = 0;
    let mut i: usize = 0;
    while i < all.len()
        invariant
            n == g@,
            n.wf(),
            all@ == n.vertices,
            i <= all@.len(),
            i == 0 ==> r == 0,
            i > 0 ==> exists|u: u64, v: u64| n.vertices.contains(u) && #[trigger] is_distance(n, u, v, r as nat),
            forall|j: int, v: u64, k: nat| 0 <= j < i && #[trigger] is_distance(n, all@[j], v, k) ==> k <= r,
        decreases all@.len() - i,
    {
        let e: usize = eccentricity_of(g, all[i]);
        proof {
            let u = all@[i as int];
            assert(n.vertices.contains(u));
            let v = choose|v: u64| #[trigger] is_distance(n, u, v, e as nat);
            assert(is_distance(n, u, v, e as nat));
        }
        if i == 0 || e > r {
            r = e;
        }
        i += 1;
    }
    proof {
        if all@.len() > 0 {
            assert forall|u: u64, v: u64, k: nat| n.vertices.contains(u) && #[trigger] is_distance(n, u, v, k) implies k <= r by {
                let j = all@.index_of(u);
                assert(is_distance(n, all@[j], v, k));
            }
        }
        if all@.len() == 1 {
            let (u, v) = choose|u: u64, v: u64| n.vertices.contains(u) && #[trigger] is_distance(n, u, v, r as nat);
            assert(connected(n, u, v));
            lemma_connected_is_vertex(n, u, v);
            assert(u == v);
            assert(walk(n, u, u, 0));
        }
    }
    r
}

/// Whether `r` is the smallest eccentricity of a vertex; zero for a graph without vertices.
pub open spec fn is_radius(n: Network, r: nat) -> bool {
    if n.vertices.len() == 0 {
        r == 0
    } else {
        &&& exists|v: u64| n.vertices.contains(v) && #[trigger] is_eccentricity(n, v, r)
        &&& forall|v: u64, e: nat| n.vertices.contains(v) && #[trigger] is_eccentricity(n, v, e) ==> r <= e
    }
}

/// A vertex has one eccentricity.
pub proof fn lemma_one_eccentricity(n: Network, v: u64, a: nat, b: nat)
    requires
        is_eccentricity(n, v, a),
        is_eccentricity(n, v, b),
    ensures
        a == b,
{
}

fn eccentricity_list(g: &Graph) -> (r: Vec<usize>)
    ensures
        g@.wf(),
        r@.len() == g@.vertices.len(),
        forall|i: int| 0 <= i < r@.len() ==> is_eccentricity(g@, g@.vertices[i], #[trigger] r@[i] as nat),
{
    let all = g.vertices();
    let mut r: Vec<usize> = Vec::new();
    let mut i: usize = 0;
    while i < all.len()
        invariant
            all@ == g@.vertices,
            i <= all@.len(),
            r@.len() == i,
            forall|j: int| 0 <= j < i ==> is_eccentricity(g@, all@[j], #[trigger] r@[j] as nat),
        decreases all@.len() - i,
    {
        r.push(eccentricity_of(g, all[i]));
        i += 1;
    }
    r
}

fn smallest_of(s: &Vec<usize>) -> (r: usize)
    ensures
        s@.len() == 0 ==> r == 0,
        s@.len() > 0 ==> s@.contains(r),
        forall|i: int| 0 <= i < s@.len() ==> r <= #[trigger] s@[i],
{
    if s.len() == 0 {
        return 0;
    }
    let mut r: usize = s[0];
    let mut i: usize = 1;
    assert(s@[0] == r);
    while i < s.len()
        invariant
            1 <= i <= s@.len(),
            s@.contains(r),
            forall|j: int| 0 <= j < i ==> r <= #[trigger] s@[j],
        decreases s@.len() - i,
    {
        if s[i] < r {
            r = s[i];
            assert(s@[i as int] == r);
        }
        i += 1;
    }
    r
}

fn largest_of(s: &Vec<usize>) -> (r: usize)
    ensures
        s@.len() == 0 ==> r == 0,
        s@.len() > 0 ==> s@.contains(r),
        forall|i: int| 0 <= i < s@.len() ==> #[trigger] s@[i] <= r,
{
    if s.len() == 0 {
        return 0;
    }
    let mut r: usize = s[0];
    let mut i: usize = 1;
    assert(s@[0] == r);
    while i < s.len()
        invariant
            1 <= i <= s@.len(),
            s@.contains(r),
            forall|j: int| 0 <= j < i ==> #[trigger] s@[j] <= r,
        decreases s@.len() - i,
    {
        if s[i] > r {
            r = s[i];
            assert(s@[i as int] == r);
        }
        i += 1;
    }
    r
}

/// Graph radius: minimum eccentricity among all vertices.
/// Returns 0 for empty or single-vertex graphs.
pub fn radius(g: &Graph) -> (r: usize)
    ensures
        is_radius(g@, r as nat),
{
    let list = eccentricity_list(g);
    let r: usize = smallest_of(&list);
    let ghost n = g@;
    proof {
        if n.vertices.len() > 0 {
            let i = list@.index_of(r);
            assert(is_eccentricity(n, n.vertices[i], list@[i] as nat));
            assert forall|v: u64, e: nat| n.vertices.contains(v) && #[trigger] is_eccentricity(n, v, e) implies r <= e by {
                let j = n.vertices.index_of(v);
                assert(is_eccentricity(n, n.vertices[j], list@[j] as nat));
                lemma_one_eccentricity(n, v, e, list@[j] as nat);
            }
        }
    }
    r
}

/// The vertices of a graph with a given eccentricity.
pub open spec fn with_eccentricity(n: Network, r: Seq<u64>, e: nat) -> bool {
    &&& r.no_duplicates()
    &&& forall|v: u64| #[trigger] r.contains(v) <==> n.vertices.contains(v) && is_eccentricity(n, v, e)
}

/// Whether one of the first `i` vertices is `x` and has the eccentricity `e`.
spec fn picked(all: Seq<u64>, list: Seq<usize>, e: usize, i: int, x: u64) -> bool {
    exists|k: int| 0 <= k < i && #[trigger] all[k] == x && list[k] == e
}

fn select(g: &Graph, list: &Vec<usize>, e: usize) -> (r: Vec<u64>)
    requires
        g@.wf(),
        list@.len() == g@.vertices.len(),
        forall|i: int| 0 <= i < list@.len() ==> is_eccentricity(g@, g@.vertices[i], #[trigger] list@[i] as nat),
    ensures
        with_eccentricity(g@, r@, e as nat),
{
    let all = g.vertices();
    let ghost n = g@;
    let mut r: Vec<u64> = Vec::new();
    let mut i: usize = 0;
    while i < all.len()
        invariant
            n == g@,
            n.wf(),
            all@ == n.vertices,
            list@.len() == n.vertices.len(),
            i <= all@.len(),
            forall|j: int| 0 <= j < r@.len() ==> picked(all@, list@, e, i as int, #[trigger] r@[j]),
            forall|k: int| 0 <= k < i && list@[k] == e ==> r@.contains(#[trigger] all@[k]),
            r@.no_duplicates(),
        decreases all@.len() - i,
    {
        let ghost r0 = r@;
        if list[i] == e {
            r.push(all[i]);
        }
        proof {
            assert forall|j: int| 0 <= j < r@.len() implies picked(all@, list@, e, i + 1, #[trigger] r@[j]) by {
                if j < r0.len() {
                    assert(r0[j] == r@[j]);
                    assert(picked(all@, list@, e, i as int, r0[j]));
                } else {
                    assert(all@[i as int] == r@[j]);
                }
            }
            assert forall|k: int| 0 <= k < i + 1 && list@[k] == e implies r@.contains(#[trigger] all@[k]) by {
                if k < i {
                    assert(r0.contains(all@[k]));
                    assert(r@[r0.index_of(all@[k])] == all@[k]);
                } else {
                    assert(r@[r0.len() as int] == all@[k]);
                }
            }
            assert forall|a: int, b: int| 0 <= a < b < r@.len() implies r@[a] != r@[b] by {
                if b == r0.len() {
                    assert(picked(all@, list@, e, i as int, r0[a]));
                    let k = choose|k: int| 0 <= k < i && #[trigger] all@[k] == r0[a] && list@[k] == e;
                    assert(all@[k] != all@[i as int]);
                }
            }
        }
        i += 1;
    }
    proof {
        assert forall|v: u64| #[trigger] r@.contains(v) <==> n.vertices.contains(v) && is_eccentricity(n, v, e as nat) by {
            if r@.contains(v) {
                let j = r@.index_of(v);
                assert(picked(all@, list@, e, all@.len() as int, r@[j]));
                let k = choose|k: int| 0 <= k < all@.len() && #[trigger] all@[k] == r@[j] && list@[k] == e;
                assert(is_eccentricity(n, n.vertices[k], list@[k] as nat));
            }
            if n.vertices.contains(v) && is_eccentricity(n, v, e as nat) {
                let k = n.vertices.index_of(v);
                assert(is_eccentricity(n, n.vertices[k], list@[k] as nat));
                lemma_one_eccentricity(n, v, e as nat, list@[k] as nat);
                assert(r@.contains(all@[k]));
            }
        }
    }
    r
}

/// Whether `e` is the largest eccentricity of a vertex.
pub open spec fn is_largest_eccentricity(n: Network, e: nat) -> bool {
    &&& exists|v: u64| n.vertices.contains(v) && #[trigger] is_eccentricity(n, v, e)
    &&& forall|v: u64, k: nat| n.vertices.contains(v) && #[trigger] is_eccentricity(n, v, k) ==> k <= e
}

/// Periphery: vertices with maximum eccentricity.
pub fn periphery(g: &Graph) -> (r: Vec<u64>)
    ensures
        g@.vertices.len() == 0 ==> r@.len() == 0,
        g@.vertices.len() > 0 ==> exists|e: nat| #[trigger] is_largest_eccentricity(g@, e) && with_eccentricity(g@, r@, e),
{
    let list = eccentricity_list(g);
    let e: usize = largest_of(&list);
    let ghost n = g@;
    let r = select(g, &list, e);
    proof {
        if n.vertices.len() > 0 {
            let i = list@.index_of(e);
            assert(is_eccentricity(n, n.vertices[i], list@[i] as nat));
            assert forall|v: u64, k: nat| n.vertices.contains(v) && #[trigger] is_eccentricity(n, v, k) implies k <= e by {
                let j = n.vertices.index_of(v);
                assert(is_eccentricity(n, n.vertices[j], list@[j] as nat));
                lemma_one_eccentricity(n, v, k, list@[j] as nat);
            }
            assert(is_largest_eccentricity(n, e as nat));
        } else if r@.len() > 0 {
            assert(r@.contains(r@[0]));
        }
    }
    r
}

/// Center: vertices with minimum eccentricity.
pub fn center(g: &Graph) -> (r: Vec<u64>)
    ensures
        g@.vertices.len() == 0 ==> r@.len() == 0,
        g@.vertices.len() > 0 ==> exists|e: nat| #[trigger] is_radius(g@, e) && with_eccentricity(g@, r@, e),
{
    let list = eccentricity_list(g);
    let e: usize = smallest_of(&list);
    let ghost n = g@;
    let r = select(g, &list, e);
    proof {
        if n.vertices.len() > 0 {
            let i = list@.index_of(e);
            assert(is_eccentricity(n, n.vertices[i], list@[i] as nat));
            assert forall|v: u64, k: nat| n.vertices.contains(v) && #[trigger] is_eccentricity(n, v, k) implies e <= k by {
                let j = n.vertices.index_of(v);
                assert(is_eccentricity(n, n.vertices[j], list@[j] as nat));
                lemma_one_eccentricity(n, v, k, list@[j] as nat);
            }
            assert(is_radius(n, e as nat));
        } else if r@.len() > 0 {
            assert(r@.contains(r@[0]));
        }
    }
    r
}

/// The order in which a traversal visits vertices: each vertex connected to the first once, nearer
/// vertices before farther ones.
pub open spec fn visits_by_distance(n: Network, s: u64, r: Seq<u64>) -> bool {
    &&& r.no_duplicates()
    &&& r.len() > 0
    &&& r[0] == s
    &&& forall|v: u64| #[trigger] r.contains(v) <==> connected(n, s, v)
    &&& forall|i: int, j: int, a: nat, b: nat|
        0 <= i < j < r.len() && #[trigger] is_distance(n, s, r[i], a) && #[trigger] is_distance(n, s, r[j], b) ==> a <= b
}

/// Visits the vertices connected to a vertex, breadth first.
pub fn bfs(g: &Graph, start: u64) -> (r: Vec<u64>)
    ensures
        r@ == search_order(g@, start),
        visits_by_distance(g@, start, r@),
{
    let found = search_from(g, start);
    let ghost n = g@;
    let ghost dist = found.distance@;
    let ghost order = found.order@;
    proof {
        assert forall|i: int, j: int, a: nat, b: nat|
            0 <= i < j < order.len() && #[trigger] is_distance(n, start, order[i], a) && #[trigger] is_distance(
                n,
                start,
                order[j],
                b,
            ) implies a <= b by {
            assert(order.contains(order[i]) && order.contains(order[j]));
            assert(dist.contains_key(order[i]) && dist.contains_key(order[j]));
            lemma_one_distance(n, start, order[i], a, dist[order[i]] as nat);
            lemma_one_distance(n, start, order[j], b, dist[order[j]] as nat);
        }
        assert forall|v: u64| #[trigger] order.contains(v) <==> connected(n, start, v) by {
            assert(dist.contains_key(v) <==> order.contains(v));
        }
    }
    found.order
}

} // verus!
