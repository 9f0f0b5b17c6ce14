//! Connected components, and graphs in two colors.
use std::collections::HashMap;

use vstd::prelude::*;

use crate::graph::centrality::for_each_vertex;
use crate::graph::distance::{connected, connected_is_equivalence, distances_from, is_distance, lemma_connected_is_vertex, lemma_walk_last, lemma_walk_step, walk};
use crate::graph::{Graph, Network};

verus! {

broadcast use vstd::std_specs::hash::group_hash_axioms;

/// Whether vertices have the same number exactly if they are connected.
pub open spec fn tells_components<V>(n: Network, m: Map<u64, V>) -> bool {
    forall|u: u64, v: u64| #[trigger] m.contains_key(u) && #[trigger] m.contains_key(v) ==> (m[u] == m[v] <==> connected(n, u, v))
}

/// Whether components are numbered from zero in the order in which a list of vertices meets them:
/// every smaller number occurs earlier in the list.
pub open spec fn numbered_in_order(list: Seq<u64>, m: Map<u64, usize>) -> bool {
    forall|i: int, c: usize|
        0 <= i < list.len() && c < m[list[i]] ==> #[trigger] occurs_before(list, m, i, c)
}

/// Whether one of the first `i` vertices of a list has a number.
pub open spec fn occurs_before(list: Seq<u64>, m: Map<u64, usize>, i: int, c: usize) -> bool {
    exists|j: int| 0 <= j < i && m[#[trigger] list[j]] == c
}

/// Weakly connected components. Returns a map from vertex to component id.
pub fn wcc(g: &Graph) -> (r: HashMap<u64, usize>)
    ensures
        for_each_vertex(g@, r@),
        tells_components(g@, r@),
        numbered_in_order(g@.vertices, r@),
{
    let all = g.vertices();
    let ghost n = g@;
    let mut r: HashMap<u64, usize> = HashMap::new();
    let mut id: usize = 0;
    let mut i: usize = 0;
    while i < all.len()
        invariant
            n == g@,
            n.wf(),
            all@ == n.vertices,
            i <= all@.len(),
            id <= i,
            forall|v: u64| #[trigger] r@.contains_key(v) ==> n.vertices.contains(v) && r@[v] < id,
            forall|j: int| 0 <= j < i ==> r@.contains_key(#[trigger] all@[j]),
            forall|u: u64, v: u64| r@.contains_key(u) && #[trigger] connected(n, u, v) ==> r@.contains_key(v),
            tells_components(n, r@),
            forall|c: usize| c < id ==> #[trigger] occurs_before(all@, r@, i as int, c),
            forall|j: int, c: usize| 0 <= j < i && c < r@[all@[j]] ==> #[trigger] occurs_before(all@, r@, j, c),
        decreases all@.len() - i,
    {
        let s: u64 = all[i];
        let ghost r0 = r@;
        if r.contains_key(&s) {
            proof {
                assert forall|c: usize| c < id implies #[trigger] occurs_before(all@, r@, i + 1, c) by {
                    assert(occurs_before(all@, r@, i as int, c));
                    let j = choose|j: int| 0 <= j < i && r@[#[trigger] all@[j]] == c;
                    assert(r@[all@[j]] == c);
                }
                assert forall|j: int, c: usize| 0 <= j < i + 1 && c < r@[all@[j]] implies #[trigger] occurs_before(
                    all@,
                    r@,
                    j,
                    c,
                ) by {
                    if j == i {
                        assert(occurs_before(all@, r@, i as int, c));
                    }
                }
            }
            i += 1;
            continue;
        }
        let dist = distances_from(g, s);
        assert(n.vertices.contains(s));
        for kv in it: dist.iter()
            invariant
                n == g@,
                n.wf(),
                n.vertices.contains(s),
                !r0.contains_key(s),
                id < usize::MAX,
                forall|u: u64, v: u64| r0.contains_key(u) && #[trigger] connected(n, u, v) ==> r0.contains_key(v),
                forall|v: u64| #[trigger] dist@.contains_key(v) <==> connected(n, s, v),
                forall|v: u64| #[trigger]
                    r@.contains_key(v) <==> r0.contains_key(v) || exists|j: int| 0 <= j < it.index() && *(#[trigger] it.seq()[j]).0 == v,
                forall|v: u64| #[trigger] r0.contains_key(v) ==> r@.contains_key(v) && r@[v] == r0[v],
                forall|v: u64| #[trigger] r@.contains_key(v) && !r0.contains_key(v) ==> r@[v] == id && connected(n, s, v),
        {
            let v: u64 = *kv.0;
            proof {
                assert(dist@.contains_key(v));
                if r0.contains_key(v) {
                    connected_is_equivalence(n, s, v, s);
                    assert(connected(n, v, s));
                }
            }
            r.insert(v, id);
        }
        proof {
            assert forall|v: u64| connected(n, s, v) implies #[trigger] r@.contains_key(v) by {
                assert(dist@.contains_key(v));
            }
            connected_is_equivalence(n, s, s, s);
            assert(r@.contains_key(s));
            assert forall|v: u64| #[trigger] r@.contains_key(v) implies n.vertices.contains(v) && r@[v] < id + 1 by {
                if !r0.contains_key(v) {
                    lemma_connected_is_vertex(n, s, v);
                }
            }
            assert forall|u: u64, v: u64| r@.contains_key(u) && #[trigger] connected(n, u, v) implies r@.contains_key(v) by {
                if !r0.contains_key(u) {
                    connected_is_equivalence(n, s, u, v);
                }
            }
            assert forall|u: u64, v: u64| #[trigger] r@.contains_key(u) && #[trigger] r@.contains_key(v) implies (r@[u] == r@[v]
                <==> connected(n, u, v)) by {
                if r0.contains_key(u) && r0.contains_key(v) {
                } else if r0.contains_key(u) {
                    assert(!connected(n, u, v));
                } else if r0.contains_key(v) {
                    connected_is_equivalence(n, u, v, u);
                    assert(!connected(n, v, u));
                } else {
                    connected_is_equivalence(n, s, u, s);
                    connected_is_equivalence(n, u, s, v);
                }
            }
            assert forall|c: usize| c < id + 1 implies #[trigger] occurs_before(all@, r@, i + 1, c) by {
                if c < id {
                    assert(occurs_before(all@, r0, i as int, c));
                    let j = choose|j: int| 0 <= j < i && r0[#[trigger] all@[j]] == c;
                    assert(r0.contains_key(all@[j]));
                    assert(r@[all@[j]] == c);
                } else {
                    assert(r@[all@[i as int]] == c);
                }
            }
            assert forall|j: int, c: usize| 0 <= j < i + 1 && c < r@[all@[j]] implies #[trigger] occurs_before(
                all@,
                r@,
                j,
                c,
            ) by {
                assert(j < i ==> r0.contains_key(all@[j]));
                assert(occurs_before(all@, r0, j, c));
                let k = choose|k: int| 0 <= k < j && r0[#[trigger] all@[k]] == c;
                assert(r0.contains_key(all@[k]));
                assert(r@[all@[k]] == c);
            }
        }
        id += 1;
        i += 1;
    }
    proof {
        assert(r@.dom() =~= n.vertices.to_set()) by {
            assert forall|v: u64| r@.contains_key(v) <==> #[trigger] n.vertices.to_set().contains(v) by {
                if n.vertices.contains(v) {
                    let j = n.vertices.index_of(v);
                    assert(r@.contains_key(all@[j]));
                }
            }
        }
    }
    r
}

/// Whether two colors are given so that no edge connects vertices of one color.
pub open spec fn two_colors(n: Network, color: spec_fn(u64) -> bool) -> bool {
    forall|u: u64, v: u64| #[trigger] n.adjacent(u, v) ==> color(u) != color(v)
}

/// Whether the vertices of a graph can be given two colors so that no edge connects vertices of one
/// color.
pub open spec fn bipartite(n: Network) -> bool {
    exists|color: spec_fn(u64) -> bool| two_colors(n, color)
}

/// Along a walk the colors alternate.
proof fn lemma_colors_alternate(n: Network, color: spec_fn(u64) -> bool, u: u64, v: u64, k: nat)
    requires
        two_colors(n, color),
        walk(n, u, v, k),
    ensures
        (color(u) == color(v)) == (k % 2 == 0),
    decreases k,
{
    if k > 0 {
        let w = lemma_walk_last(n, u, v, k);
        lemma_colors_alternate(n, color, u, w, (k - 1) as nat);
    }
}

/// Check if the undirected graph is bipartite.
pub fn is_bipartite(g: &Graph) -> (r: bool)
    ensures
        r == bipartite(g@),
{
    let all = g.vertices();
    let ghost n = g@;
    let mut colors: HashMap<u64, bool> = HashMap::new();
    let ghost mut origin: Map<u64, u64> = Map::empty();
    let mut i: usize = 0;
    while i < all.len()
        invariant
            n == g@,
            n.wf(),
            all@ == n.vertices,
            i <= all@.len(),
            forall|j: int| 0 <= j < i ==> colors@.contains_key(#[trigger] all@[j]),
            forall|u: u64, v: u64| colors@.contains_key(u) && #[trigger] connected(n, u, v) ==> colors@.contains_key(v),
            forall|v: u64| #[trigger] colors@.contains_key(v) ==> alternates(n, origin[v], v, colors@[v]),
            forall|u: u64, v: u64| #[trigger]
                colors@.contains_key(u) && #[trigger] colors@.contains_key(v) && connected(n, u, v) ==> origin[u] == origin[v],
        decreases all@.len() - i,
    {
        let s: u64 = all[i];
        if colors.contains_key(&s) {
            i += 1;
            continue;
        }
        let ghost colors0 = colors@;
        let ghost origin0 = origin;
        let dist = distances_from(g, s);
        for kv in it: dist.iter()
            invariant
                n == g@,
                !colors0.contains_key(s),
                forall|u: u64, v: u64| colors0.contains_key(u) && #[trigger] connected(n, u, v) ==> colors0.contains_key(v),
                forall|v: u64| #[trigger] dist@.contains_key(v) <==> connected(n, s, v),
                forall|v: u64| #[trigger] dist@.contains_key(v) ==> is_distance(n, s, v, dist@[v] as nat),
                forall|v: u64| #[trigger]
                    colors@.contains_key(v) <==> colors0.contains_key(v) || exists|j: int|
                        0 <= j < it.index() && *(#[trigger] it.seq()[j]).0 == v,
                forall|v: u64| #[trigger] colors0.contains_key(v) ==> colors@[v] == colors0[v],
                forall|v: u64| #[trigger]
                    colors@.contains_key(v) && !colors0.contains_key(v) ==> connected(n, s, v) && alternates(
                        n,
                        s,
                        v,
                        colors@[v],
                    ),
        {
            let v: u64 = *kv.0;
            let d: usize = *kv.1;
            proof {
                assert(dist@.contains_key(v));
                assert(walk(n, s, v, d as nat));
                if colors0.contains_key(v) {
                    connected_is_equivalence(n, s, v, s);
                    assert(connected(n, v, s));
                }
                assert(alternates(n, s, v, d % 2 == 0));
            }
            colors.insert(v, d % 2 == 0);
        }
        proof {
            origin =
            Map::new(
                |v: u64| true,
                |v: u64|
                    if colors0.contains_key(v) {
                        origin0[v]
                    } else {
                        s
                    },
            );
            assert forall|v: u64| connected(n, s, v) implies #[trigger] colors@.contains_key(v) by {
                assert(dist@.contains_key(v));
            }
            connected_is_equivalence(n, s, s, s);
            assert forall|u: u64, v: u64| colors@.contains_key(u) && #[trigger] connected(n, u, v) implies colors@.contains_key(
                v,
            ) by {
                if !colors0.contains_key(u) {
                    connected_is_equivalence(n, s, u, v);
                }
            }
            assert forall|u: u64, v: u64| #[trigger]
                colors@.contains_key(u) && #[trigger] colors@.contains_key(v) && connected(n, u, v) implies origin[u] == origin[v] by {
                connected_is_equivalence(n, u, v, u);
                if colors0.contains_key(u) {
                    assert(colors0.contains_key(v));
                } else if colors0.contains_key(v) {
                    assert(connected(n, v, u));
                }
            }
        }
        i += 1;
    }
    let edges = g.edges();
    let mut i: usize = 0;
    while i < edges.len()
        invariant
            n == g@,
            n.wf(),
            all@ == n.vertices,
            edges@ == n.edges,
            i <= edges@.len(),
            forall|j: int| 0 <= j < all@.len() ==> colors@.contains_key(#[trigger] all@[j]),
            forall|v: u64| #[trigger] colors@.contains_key(v) ==> alternates(n, origin[v], v, colors@[v]),
            forall|u: u64, v: u64| #[trigger]
                colors@.contains_key(u) && #[trigger] colors@.contains_key(v) && connected(n, u, v) ==> origin[u] == origin[v],
            forall|j: int| 0 <= j < i ==> colors@[(#[trigger] edges@[j]).from] != colors@[edges@[j].to],
        decreases edges@.len() - i,
    {
        let u: u64 = edges[i].from;
        let v: u64 = edges[i].to;
        proof {
            assert(n.vertices.contains(n.edges[i as int].from));
            let a = n.vertices.index_of(u);
            let b = n.vertices.index_of(v);
            assert(colors@.contains_key(all@[a]) && colors@.contains_key(all@[b]));
        }
        let same = match (colors.get(&u), colors.get(&v)) {
            (Some(a), Some(b)) => *a == *b,
            _ => false,
        };
        if same {
            proof {
                assert(n.edge(u, v)) by {
                    assert(n.edges[i as int] == edges@[i as int]);
                }
                assert(walk(n, u, u, 0));
                lemma_walk_step(n, u, u, v, 0);
                assert(connected(n, u, v));
                if bipartite(n) {
                    let color = choose|color: spec_fn(u64) -> bool| two_colors(n, color);
                    let s = origin[u];
                    assert(n.adjacent(u, v));
                    assert(alternates(n, s, u, colors@[u]));
                    assert(alternates(n, s, v, colors@[v]));
                    let ka = choose|k: nat| walk(n, s, u, k) && colors@[u] == (k % 2 == 0);
                    let kb = choose|k: nat| walk(n, s, v, k) && colors@[v] == (k % 2 == 0);
                    lemma_colors_alternate(n, color, s, u, ka);
                    lemma_colors_alternate(n, color, s, v, kb);
                    assert(color(u) == color(v));
                }
            }
            return false;
        }
        i += 1;
    }
    proof {
        let map = colors@;
        let color = |v: u64| map[v];
        assert forall|u: u64, v: u64| #[trigger] n.adjacent(u, v) implies color(u) != color(v) by {
            if n.edge(u, v) {
                let j = n.edges.index_of(crate::graph::Edge { from: u, to: v });
                assert(edges@[j].from == u);
            } else {
                let j = n.edges.index_of(crate::graph::Edge { from: v, to: u });
                assert(edges@[j].from == v);
            }
        }
        assert(two_colors(n, color));
    }
    true
}

/// Whether a walk from `s` to `v` has an even number of edges exactly if the color is the first.
spec fn alternates(n: Network, s: u64, v: u64, color: bool) -> bool {
    exists|k: nat| walk(n, s, v, k) && color == (k % 2 == 0)
}

} // verus!
