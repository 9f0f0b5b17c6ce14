//! Directed graphs with repeated edges, as the algorithms read them.
use std::collections::{HashMap, HashSet};

use vstd::prelude::*;

pub mod betweenness;
pub mod centrality;
pub mod cliques;
pub mod clustering_laws;
pub mod coloring;
pub mod community;
pub mod community_laws;
pub mod components;
pub mod cores;
pub mod cuts;
pub mod dag;
pub mod distance;
pub mod labels;
pub mod links;
pub mod measure_laws;
pub mod order;
pub mod partition;
pub mod paths;
pub mod rank_laws;
pub mod ranks;
pub mod richness;
pub mod scc;
pub mod scores;
pub mod sums;
pub mod triangles;
pub mod unionfind;
pub mod walk_laws;
pub mod walks;

verus! {

broadcast use vstd::std_specs::hash::group_hash_axioms;

/// The number by which a vertex is known.
pub type Gid = u64;

/// A directed edge.
#[derive(Clone, Copy, Debug, PartialEq, Eq, Structural)]
pub struct Edge {
    pub from: u64,
    pub to: u64,
}

/// The mathematical model of a graph: its vertices and its edges, in the order of the storage.
pub struct Network {
    pub vertices: Seq<u64>,
    pub edges: Seq<Edge>,
}

/// Where the edges that leave a vertex lead, in the order of the edges.
pub open spec fn targets(edges: Seq<Edge>, u: u64) -> Seq<u64>
    decreases edges.len(),
{
    if edges.len() == 0 {
        Seq::empty()
    } else {
        let before = targets(edges.drop_last(), u);
        if edges.last().from == u {
            before.push(edges.last().to)
        } else {
            before
        }
    }
}

/// Where the edges that reach a vertex come from, in the order of the edges.
pub open spec fn sources(edges: Seq<Edge>, u: u64) -> Seq<u64>
    decreases edges.len(),
{
    if edges.len() == 0 {
        Seq::empty()
    } else {
        let before = sources(edges.drop_last(), u);
        if edges.last().to == u {
            before.push(edges.last().from)
        } else {
            before
        }
    }
}

impl Network {
    /// Whether no vertex is listed twice and every edge connects listed vertices.
    pub open spec fn wf(self) -> bool {
        &&& self.vertices.no_duplicates()
        &&& forall|i: int|
            0 <= i < self.edges.len() ==> self.vertices.contains((#[trigger] self.edges[i]).from) && self.vertices.contains(
                self.edges[i].to,
            )
    }

    /// Whether an edge leads from one vertex to another.
    pub open spec fn edge(self, u: u64, v: u64) -> bool {
        self.edges.contains(Edge { from: u, to: v })
    }

    /// Whether an edge connects two vertices, in either direction.
    pub open spec fn adjacent(self, u: u64, v: u64) -> bool {
        self.edge(u, v) || self.edge(v, u)
    }

    pub open spec fn out_of(self, u: u64) -> Seq<u64> {
        targets(self.edges, u)
    }

    pub open spec fn into(self, u: u64) -> Seq<u64> {
        sources(self.edges, u)
    }

    /// The other ends of the edges at a vertex: those that leave it, then those that reach it.
    pub open spec fn neighbors(self, u: u64) -> Seq<u64> {
        self.out_of(u) + self.into(u)
    }

    /// The number of edges that leave or reach a vertex.
    pub open spec fn degree(self, u: u64) -> nat {
        self.neighbors(u).len()
    }

    /// The vertices that are adjacent to a vertex.
    pub open spec fn neighbor_set(self, u: u64) -> Set<u64> {
        self.neighbors(u).to_set()
    }
}

/// A vertex is among the targets of another exactly if an edge leads there.
pub proof fn lemma_targets(edges: Seq<Edge>, u: u64, v: u64)
    ensures
        targets(edges, u).contains(v) <==> edges.contains(Edge { from: u, to: v }),
        sources(edges, u).contains(v) <==> edges.contains(Edge { from: v, to: u }),
        targets(edges, u).len() + sources(edges, u).len() <= 2 * edges.len(),
    decreases edges.len(),
{
    if edges.len() > 0 {
        let e = edges.drop_last();
        lemma_targets(e, u, v);
        let a = Edge { from: u, to: v };
        let b = Edge { from: v, to: u };
        assert(edges =~= e.push(edges.last()));
        assert(edges.contains(a) <==> e.contains(a) || edges.last() == a) by {
            if e.contains(a) {
                let i = e.index_of(a);
                assert(edges[i] == a);
            }
            if edges.last() == a {
                assert(edges[edges.len() - 1] == a);
            }
        }
        assert(edges.contains(b) <==> e.contains(b) || edges.last() == b) by {
            if e.contains(b) {
                let i = e.index_of(b);
                assert(edges[i] == b);
            }
            if edges.last() == b {
                assert(edges[edges.len() - 1] == b);
            }
        }
        let t = targets(e, u);
        let s = sources(e, u);
        assert(t.push(edges.last().to).contains(v) <==> t.contains(v) || edges.last().to == v) by {
            if t.contains(v) {
                assert(t.push(edges.last().to)[t.index_of(v)] == v);
            }
            if edges.last().to == v {
                assert(t.push(edges.last().to)[t.len() as int] == v);
            }
        }
        assert(s.push(edges.last().from).contains(v) <==> s.contains(v) || edges.last().from == v) by {
            if s.contains(v) {
                assert(s.push(edges.last().from)[s.index_of(v)] == v);
            }
            if edges.last().from == v {
                assert(s.push(edges.last().from)[s.len() as int] == v);
            }
        }
    }
}

/// The neighbors of a vertex are the vertices adjacent to it.
pub proof fn lemma_neighbors(n: Network, u: u64, v: u64)
    ensures
        n.neighbors(u).contains(v) <==> n.adjacent(u, v),
        n.neighbor_set(u).contains(v) <==> n.adjacent(u, v),
        n.out_of(u).contains(v) <==> n.edge(u, v),
        n.into(u).contains(v) <==> n.edge(v, u),
        n.adjacent(u, v) <==> n.adjacent(v, u),
        n.wf() && n.adjacent(u, v) ==> n.vertices.contains(u) && n.vertices.contains(v),
{
    lemma_targets(n.edges, u, v);
    let a = n.out_of(u);
    let b = n.into(u);
    assert((a + b).contains(v) <==> a.contains(v) || b.contains(v)) by {
        if a.contains(v) {
            assert((a + b)[a.index_of(v)] == v);
        }
        if b.contains(v) {
            assert((a + b)[a.len() + b.index_of(v)] == v);
        }
    }
    if n.wf() && n.edge(u, v) {
        let i = n.edges.index_of(Edge { from: u, to: v });
        assert(n.edges[i].from == u);
    }
    if n.wf() && n.edge(v, u) {
        let i = n.edges.index_of(Edge { from: v, to: u });
        assert(n.edges[i].from == v);
    }
}

/// A directed graph with repeated edges.
pub struct Graph {
    vertices: Vec<u64>,
    edges: Vec<Edge>,
    out: HashMap<u64, Vec<u64>>,
    into: HashMap<u64, Vec<u64>>,
}

impl View for Graph {
    type V = Network;

    closed spec fn view(&self) -> Network {
        Network { vertices: self.vertices@, edges: self.edges@ }
    }
}

/// The list under a key, empty where there is none.
pub open spec fn list_of(m: Map<u64, Vec<u64>>, u: u64) -> Seq<u64> {
    if m.contains_key(u) {
        m[u]@
    } else {
        Seq::empty()
    }
}

/// Appends a value to the list under a key.
pub fn append_to(m: &mut HashMap<u64, Vec<u64>>, key: u64, value: u64)
    ensures
        forall|u: u64| #[trigger]
            list_of(final(m)@, u) == if u == key {
                list_of(old(m)@, u).push(value)
            } else {
                list_of(old(m)@, u)
            },
{
    let mut list: Vec<u64> = match m.remove(&key) {
        Some(v) => v,
        None => Vec::new(),
    };
    list.push(value);
    m.insert(key, list);
    assert(list_of(m@, key) =~= list_of(old(m)@, key).push(value));
}

/// A copy of the list under a key.
pub fn copy_of(m: &HashMap<u64, Vec<u64>>, key: u64) -> (r: Vec<u64>)
    ensures
        r@ == list_of(m@, key),
{
    match m.get(&key) {
        Some(v) => {
            let r = v.clone();
            assert(r@ =~= v@);
            r
        },
        None => Vec::new(),
    }
}

impl Graph {
    #[verifier::type_invariant]
    spec fn inv(self) -> bool {
        &&& self@.wf()
        &&& forall|u: u64| #[trigger] list_of(self.out@, u) == targets(self.edges@, u)
        &&& forall|u: u64| #[trigger] list_of(self.into@, u) == sources(self.edges@, u)
    }

    /// The graph with these vertices and edges; none if a vertex is listed twice or an edge ends
    /// outside of them.
    pub fn new(vertices: Vec<u64>, edges: Vec<Edge>) -> (r: Option<Self>)
        ensures
            r is Some <==> (Network { vertices: vertices@, edges: edges@ }).wf(),
            r matches Some(g) ==> g@ == (Network { vertices: vertices@, edges: edges@ }),
    {
        let mut known: HashSet<u64> = HashSet::new();
        let mut i: usize = 0;
        while i < vertices.len()
            invariant
                i <= vertices@.len(),
                forall|v: u64| #[trigger] known@.contains(v) <==> exists|j: int| 0 <= j < i && vertices@[j] == v,
                forall|a: int, b: int| 0 <= a < b < i ==> vertices@[a] != vertices@[b],
            decreases vertices@.len() - i,
        {
            if known.contains(&vertices[i]) {
                assert(!vertices@.no_duplicates());
                return None;
            }
            known.insert(vertices[i]);
            i += 1;
        }
        let mut out: HashMap<u64, Vec<u64>> = HashMap::new();
        let mut into: HashMap<u64, Vec<u64>> = HashMap::new();
        let mut i: usize = 0;
        assert(edges@.take(0) =~= Seq::empty());
        while i < edges.len()
            invariant
                i <= edges@.len(),
                vertices@.no_duplicates(),
                forall|v: u64| #[trigger] known@.contains(v) <==> vertices@.contains(v),
                forall|j: int|
                    0 <= j < i ==> vertices@.contains((#[trigger] edges@[j]).from) && vertices@.contains(edges@[j].to),
                forall|u: u64| #[trigger] list_of(out@, u) == targets(edges@.take(i as int), u),
                forall|u: u64| #[trigger] list_of(into@, u) == sources(edges@.take(i as int), u),
            decreases edges@.len() - i,
        {
            let e = edges[i];
            if !known.contains(&e.from) || !known.contains(&e.to) {
                proof {
                    let n = Network { vertices: vertices@, edges: edges@ };
                    assert(n.edges[i as int] == e);
                    assert(!n.wf());
                }
                return None;
            }
            append_to(&mut out, e.from, e.to);
            append_to(&mut into, e.to, e.from);
            assert(edges@.take(i + 1).drop_last() =~= edges@.take(i as int));
            assert(edges@.take(i + 1).last() == e);
            i += 1;
        }
        assert(edges@.take(i as int) =~= edges@);
        Some(Graph { vertices, edges, out, into })
    }

    /// The vertices, in the order of the storage.
    pub fn vertices(&self) -> (r: &Vec<u64>)
        ensures
            r@ == self@.vertices,
            self@.wf(),
    {
        proof {
            use_type_invariant(self);
        }
        &self.vertices
    }

    /// The edges, in the order of the storage.
    pub fn edges(&self) -> (r: &Vec<Edge>)
        ensures
            r@ == self@.edges,
            self@.wf(),
    {
        proof {
            use_type_invariant(self);
        }
        &self.edges
    }

    /// Where the edges that leave a vertex lead.
    pub fn out_edges(&self, u: u64) -> (r: Vec<u64>)
        ensures
            r@ == self@.out_of(u),
            self@.wf(),
    {
        proof {
            use_type_invariant(self);
        }
        let r = copy_of(&self.out, u);
        assert(r@ == list_of(self.out@, u));
        r
    }

    /// Where the edges that reach a vertex come from.
    pub fn in_edges(&self, u: u64) -> (r: Vec<u64>)
        ensures
            r@ == self@.into(u),
            self@.wf(),
    {
        proof {
            use_type_invariant(self);
        }
        let r = copy_of(&self.into, u);
        assert(r@ == list_of(self.into@, u));
        r
    }

    /// The other ends of the edges at a vertex: those that leave it, then those that reach it.
    pub fn neighbors(&self, u: u64) -> (r: Vec<u64>)
        ensures
            r@ == self@.neighbors(u),
            self@.wf(),
    {
        let mut r = self.out_edges(u);
        let mut more = self.in_edges(u);
        r.append(&mut more);
        r
    }

    /// The vertices adjacent to a vertex, each once.
    pub fn neighbor_set(&self, u: u64) -> (r: HashSet<u64>)
        ensures
            r@ == self@.neighbor_set(u),
            r@.finite(),
            self@.wf(),
    {
        let list = self.neighbors(u);
        let mut r: HashSet<u64> = HashSet::new();
        let mut i: usize = 0;
        while i < list.len()
            invariant
                i <= list@.len(),
                list@ == self@.neighbors(u),
                forall|v: u64| #[trigger] r@.contains(v) <==> exists|j: int| 0 <= j < i && list@[j] == v,
            decreases list@.len() - i,
        {
            r.insert(list[i]);
            i += 1;
        }
        assert(r@ =~= self@.neighbor_set(u));
        r
    }
}

} // verus!
