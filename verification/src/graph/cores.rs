//! Cores: the largest parts of a graph in which every vertex has at least a given degree.
use std::collections::{HashMap, HashSet};

use vstd::prelude::*;

use crate::graph::dag::{lemma_occurrences_prefix, occurrences};
use crate::graph::{sources, targets, Edge, Graph, Network};

verus! {

broadcast use vstd::std_specs::hash::group_hash_axioms;

/// A measure of how a vertex is tied to the vertices of a set.
pub type Tie = spec_fn(Set<u64>, u64) -> nat;

/// How many vertices of a set are adjacent to a vertex.
pub open spec fn near_count(n: Network, s: Set<u64>, v: u64) -> nat {
    n.neighbor_set(v).intersect(s).len()
}

/// How many entries of a list belong to a set.
pub open spec fn entries_within(list: Seq<u64>, s: Set<u64>) -> nat
    decreases list.len(),
{
    if list.len() == 0 {
        0
    } else {
        entries_within(list.drop_last(), s) + if s.contains(list.last()) {
            1nat
        } else {
            0nat
        }
    }
}

/// How many edge ends at a vertex lead to a set.
pub open spec fn edges_within(n: Network, s: Set<u64>, v: u64) -> nat {
    entries_within(n.neighbors(v), s)
}

pub open spec fn by_neighbors(n: Network) -> Tie {
    |s: Set<u64>, v: u64| near_count(n, s, v)
}

pub open spec fn by_edges(n: Network) -> Tie {
    |s: Set<u64>, v: u64| edges_within(n, s, v)
}

/// Whether every vertex of a set of vertices is tied to the set at least `k` times.
pub open spec fn is_core(n: Network, tie: Tie, s: Set<u64>, k: nat) -> bool {
    s.subset_of(n.vertices.to_set()) && forall|v: u64| #[trigger] s.contains(v) ==> tie(s, v) >= k
}

/// Whether a vertex belongs to a part of the graph in which every vertex is tied `k` times.
pub open spec fn in_core(n: Network, tie: Tie, v: u64, k: nat) -> bool {
    exists|s: Set<u64>| #[trigger] is_core(n, tie, s, k) && s.contains(v)
}

/// Whether a number is the largest for which a vertex belongs to a core.
pub open spec fn is_core_number(n: Network, tie: Tie, v: u64, c: nat) -> bool {
    in_core(n, tie, v, c) && forall|k: nat| #[trigger] in_core(n, tie, v, k) ==> k <= c
}

/// Whether a tie to a larger set is at least as strong.
spec fn grows(tie: Tie) -> bool {
    forall|s: Set<u64>, t: Set<u64>, v: u64| s.subset_of(t) ==> #[trigger] tie(s, v) <= #[trigger] tie(t, v)
}

proof fn lemma_near_count_grows(n: Network)
    ensures
        grows(by_neighbors(n)),
{
    let tie = by_neighbors(n);
    assert forall|s: Set<u64>, t: Set<u64>, v: u64| s.subset_of(t) implies #[trigger] tie(s, v) <= #[trigger] tie(t, v) by {
        let a = n.neighbor_set(v);
        assert(a.intersect(s).subset_of(a.intersect(t)));
        vstd::set_lib::lemma_len_subset(a.intersect(s), a.intersect(t));
    }
}

proof fn lemma_entries_grow(list: Seq<u64>, s: Set<u64>, t: Set<u64>)
    requires
        s.subset_of(t),
    ensures
        entries_within(list, s) <= entries_within(list, t),
    decreases list.len(),
{
    if list.len() > 0 {
        lemma_entries_grow(list.drop_last(), s, t);
    }
}

proof fn lemma_edges_grow(n: Network)
    ensures
        grows(by_edges(n)),
{
    let tie = by_edges(n);
    assert forall|s: Set<u64>, t: Set<u64>, v: u64| s.subset_of(t) implies #[trigger] tie(s, v) <= #[trigger] tie(t, v) by {
        lemma_entries_grow(n.neighbors(v), s, t);
    }
}

/// Whether every core with at least `k` ties lies in a set.
spec fn holds_cores(n: Network, tie: Tie, rest: Set<u64>, k: nat) -> bool {
    forall|s: Set<u64>| #[trigger] is_core(n, tie, s, k) ==> s.subset_of(rest)
}

proof fn lemma_smaller_core(n: Network, tie: Tie, s: Set<u64>, j: nat, k: nat)
    requires
        is_core(n, tie, s, j),
        k <= j,
    ensures
        is_core(n, tie, s, k),
{
}

/// A vertex that is tied to what is left at most `k` times, and belonged to a core with `k` ties,
/// has core number `k`, and can be taken out.
proof fn lemma_peel(n: Network, tie: Tie, core: Set<u64>, rest: Set<u64>, v: u64, k: nat)
    requires
        grows(tie),
        is_core(n, tie, core, k),
        core.contains(v),
        rest.contains(v),
        tie(rest, v) <= k,
        holds_cores(n, tie, rest, k + 1),
    ensures
        is_core_number(n, tie, v, k),
        holds_cores(n, tie, rest.remove(v), k + 1),
{
    assert forall|s: Set<u64>| #[trigger] is_core(n, tie, s, k + 1) implies s.subset_of(rest.remove(v)) by {
        assert(s.subset_of(rest));
        if s.contains(v) {
            assert(tie(s, v) <= tie(rest, v));
        }
    }
    assert(in_core(n, tie, v, k));
    assert forall|j: nat| #[trigger] in_core(n, tie, v, j) implies j <= k by {
        let s = choose|s: Set<u64>| #[trigger] is_core(n, tie, s, j) && s.contains(v);
        if j > k {
            lemma_smaller_core(n, tie, s, j, k + 1);
            assert(s.subset_of(rest.remove(v)));
        }
    }
}

/// How many vertices that are left are adjacent to a vertex.
fn count_near(g: &Graph, rest: &HashSet<u64>, v: u64) -> (r: usize)
    ensures
        r == near_count(g@, rest@, v),
        g@.wf(),
{
    let list = g.neighbors(v);
    let mut both: HashSet<u64> = HashSet::new();
    let mut i: usize = 0;
    while i < list.len()
        invariant
            list@ == g@.neighbors(v),
            i <= list@.len(),
            both@.finite(),
            forall|u: u64| #[trigger] both@.contains(u) <==> rest@.contains(u) && exists|j: int| 0 <= j < i && list@[j] == u,
        decreases list@.len() - i,
    {
        if rest.contains(&list[i]) {
            both.insert(list[i]);
        }
        i += 1;
    }
    assert(both@ =~= g@.neighbor_set(v).intersect(rest@));
    both.len()
}

/// K-core decomposition: returns the coreness (maximum k for which the vertex belongs to the
/// k-core) for each vertex. A k-core is a maximal subgraph where every vertex has at least k
/// different neighbors.
pub fn coreness(g: &Graph) -> (r: HashMap<u64, usize>)
    ensures
        r@.dom() == g@.vertices.to_set(),
        forall|v: u64| #[trigger] r@.contains_key(v) ==> is_core_number(g@, by_neighbors(g@), v, r@[v] as nat),
{
    let all = g.vertices();
    let ghost n = g@;
    let ghost tie = by_neighbors(n);
    let mut rest: HashSet<u64> = HashSet::new();
    let mut i: usize = 0;
    while i < all.len()
        invariant
            i <= all@.len(),
            rest@.finite(),
            forall|v: u64| #[trigger] rest@.contains(v) <==> exists|j: int| 0 <= j < i && all@[j] == v,
        decreases all@.len() - i,
    {
        rest.insert(all[i]);
        i += 1;
    }
    proof {
        lemma_near_count_grows(n);
        assert(rest@ =~= n.vertices.to_set());
        n.vertices.unique_seq_to_set();
    }
    let mut r: HashMap<u64, usize> = HashMap::new();
    let mut k: usize = 0;
    assert(r@.dom() =~= n.vertices.to_set().difference(rest@));
    while rest.len() > 0
        invariant
            n == g@,
            n.wf(),
            tie == by_neighbors(n),
            grows(tie),
            all@ == n.vertices,
            n.vertices.to_set().len() == n.vertices.len(),
            k <= n.vertices.len(),
            rest@.finite(),
            rest@.subset_of(n.vertices.to_set()),
            r@.dom() == n.vertices.to_set().difference(rest@),
            forall|v: u64| #[trigger] r@.contains_key(v) ==> is_core_number(n, tie, v, r@[v] as nat),
            is_core(n, tie, rest@, k as nat),
            rest@.len() > 0 ==> holds_cores(n, tie, rest@, k as nat),
        decreases n.vertices.len() + 1 - k, rest@.len(),
    {
        let ghost core = rest@;
        proof {
            assert forall|s: Set<u64>| #[trigger] is_core(n, tie, s, (k + 1) as nat) implies s.subset_of(rest@) by {
                lemma_smaller_core(n, tie, s, (k + 1) as nat, k as nat);
            }
        }
        let mut changed = true;
        while changed
            invariant
                n == g@,
                n.wf(),
                tie == by_neighbors(n),
                grows(tie),
                all@ == n.vertices,
                rest@.finite(),
                rest@.subset_of(core),
                core.subset_of(n.vertices.to_set()),
                r@.dom() == n.vertices.to_set().difference(rest@),
                forall|v: u64| #[trigger] r@.contains_key(v) ==> is_core_number(n, tie, v, r@[v] as nat),
                is_core(n, tie, core, k as nat),
                holds_cores(n, tie, rest@, (k + 1) as nat),
                !changed ==> forall|v: u64| #[trigger] rest@.contains(v) ==> tie(rest@, v) > k,
            decreases rest@.len(), (if changed { 1int } else { 0int }),
        {
            let ghost before = rest@;
            changed = false;
            let mut i: usize = 0;
            while i < all.len()
                invariant
                    n == g@,
                    n.wf(),
                    tie == by_neighbors(n),
                    grows(tie),
                    all@ == n.vertices,
                    i <= all@.len(),
                    rest@.finite(),
                    rest@.subset_of(core),
                    core.subset_of(n.vertices.to_set()),
                    r@.dom() == n.vertices.to_set().difference(rest@),
                    forall|v: u64| #[trigger] r@.contains_key(v) ==> is_core_number(n, tie, v, r@[v] as nat),
                    is_core(n, tie, core, k as nat),
                    holds_cores(n, tie, rest@, (k + 1) as nat),
                    !changed ==> rest@ == before,
                    changed ==> rest@.len() < before.len(),
                    !changed ==> forall|j: int| 0 <= j < i && rest@.contains(#[trigger] all@[j]) ==> tie(rest@, all@[j]) > k,
                decreases all@.len() - i,
            {
                let v: u64 = all[i];
                if rest.contains(&v) {
                    let d: usize = count_near(g, &rest, v);
                    assert(d == tie(rest@, v));
                    if d <= k {
                        proof {
                            lemma_peel(n, tie, core, rest@, v, k as nat);
                        }
                        rest.remove(&v);
                        r.insert(v, k);
                        changed = true;
                        assert(r@.dom() =~= n.vertices.to_set().difference(rest@));
                    }
                }
                i += 1;
            }
            proof {
                if !changed {
                    assert forall|v: u64| #[trigger] rest@.contains(v) implies tie(rest@, v) > k by {
                        assert(n.vertices.to_set().contains(v));
                        assert(all@[n.vertices.index_of(v)] == v);
                    }
                }
            }
        }
        if rest.len() > 0 {
            proof {
                let x = rest@.choose();
                assert(rest@.contains(x));
                let a = n.neighbor_set(x);
                assert(a.intersect(rest@).subset_of(n.vertices.to_set()));
                vstd::set_lib::lemma_len_subset(a.intersect(rest@), n.vertices.to_set());
                assert(tie(rest@, x) > k);
                assert(tie(rest@, x) == near_count(n, rest@, x));
                assert(k < all.len());
            }
            k += 1;
        }
    }
    proof {
        assert(rest@ =~= Set::<u64>::empty());
        assert(r@.dom() =~= n.vertices.to_set());
    }
    r
}

proof fn lemma_targets_sources(edges: Seq<Edge>, u: u64, v: u64)
    ensures
        occurrences(targets(edges, u), v) == occurrences(sources(edges, v), u),
    decreases edges.len(),
{
    if edges.len() > 0 {
        let e = edges.drop_last();
        lemma_targets_sources(e, u, v);
        if edges.last().from == u {
            let t = targets(e, u);
            assert(t.push(edges.last().to).drop_last() =~= t);
        }
        if edges.last().to == v {
            let s = sources(e, v);
            assert(s.push(edges.last().from).drop_last() =~= s);
        }
    }
}

proof fn lemma_occurrences_joined(a: Seq<u64>, b: Seq<u64>, x: u64)
    ensures
        occurrences(a + b, x) == occurrences(a, x) + occurrences(b, x),
    decreases b.len(),
{
    if b.len() > 0 {
        lemma_occurrences_joined(a, b.drop_last(), x);
        assert((a + b).drop_last() =~= a + b.drop_last());
    } else {
        assert(a + b =~= a);
    }
}

/// Two vertices occur equally often among each other's neighbors.
proof fn lemma_mutual(n: Network, u: u64, v: u64)
    ensures
        occurrences(n.neighbors(u), v) == occurrences(n.neighbors(v), u),
{
    lemma_targets_sources(n.edges, u, v);
    lemma_targets_sources(n.edges, v, u);
    lemma_occurrences_joined(n.out_of(u), n.into(u), v);
    lemma_occurrences_joined(n.out_of(v), n.into(v), u);
}

proof fn lemma_entries_without(list: Seq<u64>, s: Set<u64>, v: u64)
    requires
        s.contains(v),
    ensures
        entries_within(list, s.remove(v)) + occurrences(list, v) == entries_within(list, s),
    decreases list.len(),
{
    if list.len() > 0 {
        lemma_entries_without(list.drop_last(), s, v);
    }
}

proof fn lemma_entries_all(list: Seq<u64>, s: Set<u64>)
    requires
        forall|i: int| 0 <= i < list.len() ==> s.contains(#[trigger] list[i]),
    ensures
        entries_within(list, s) == list.len(),
    decreases list.len(),
{
    if list.len() > 0 {
        assert(s.contains(list[list.len() - 1]));
        lemma_entries_all(list.drop_last(), s);
    }
}

spec fn larger(a: int, b: int) -> int {
    if a >= b {
        a
    } else {
        b
    }
}

/// Whether each vertex that is left has its ties on record, but no less than a level.
spec fn recorded(n: Network, degrees: Map<u64, usize>, rest: Set<u64>, level: int) -> bool {
    forall|w: u64| #[trigger] rest.contains(w) ==> degrees.contains_key(w) && degrees[w] == larger(edges_within(n, rest, w) as int, level)
}

/// Lowers the record of a vertex by one, if it is above a level.
fn lower(degrees: &mut HashMap<u64, usize>, key: u64, level: usize)
    requires
        old(degrees)@.contains_key(key),
    ensures
        final(degrees)@ == if old(degrees)@[key] > level {
            old(degrees)@.insert(key, (old(degrees)@[key] - 1) as usize)
        } else {
            old(degrees)@
        },
{
    let d: usize = match degrees.get(&key) {
        Some(d) => *d,
        None => 0,
    };
    if d > level {
        degrees.insert(key, d - 1);
    }
}

/// The vertex that is left with the smallest record, the first in the order of the storage.
fn lowest(all: &Vec<u64>, degrees: &HashMap<u64, usize>, removed: &HashSet<u64>) -> (r: Option<(u64, usize)>)
    requires
        forall|v: u64| #[trigger] all@.contains(v) && !removed@.contains(v) ==> degrees@.contains_key(v),
    ensures
        r is None ==> forall|v: u64| #[trigger] all@.contains(v) ==> removed@.contains(v),
        r matches Some(p) ==> all@.contains(p.0) && !removed@.contains(p.0) && degrees@[p.0] == p.1 && forall|w: u64|
            #[trigger] all@.contains(w) && !removed@.contains(w) ==> p.1 <= degrees@[w],
{
    let mut best: Option<(u64, usize)> = None;
    let mut i: usize = 0;
    while i < all.len()
        invariant
            forall|v: u64| #[trigger] all@.contains(v) && !removed@.contains(v) ==> degrees@.contains_key(v),
            i <= all@.len(),
            best is None ==> forall|j: int| 0 <= j < i ==> removed@.contains(#[trigger] all@[j]),
            best matches Some(p) ==> all@.contains(p.0) && !removed@.contains(p.0) && degrees@[p.0] == p.1 && forall|j: int|
                0 <= j < i && !removed@.contains(#[trigger] all@[j]) ==> p.1 <= degrees@[all@[j]],
        decreases all@.len() - i,
    {
        let v: u64 = all[i];
        assert(all@.contains(v));
        if !removed.contains(&v) {
            let d: usize = match degrees.get(&v) {
                Some(d) => *d,
                None => 0,
            };
            let better = match best {
                Some(p) => d < p.1,
                None => true,
            };
            if better {
                best = Some((v, d));
            }
        }
        i += 1;
    }
    proof {
        assert forall|v: u64| #[trigger] all@.contains(v) && best is None implies removed@.contains(v) by {
            assert(all@[all@.index_of(v)] == v);
        }
        if best is Some {
            assert forall|w: u64| #[trigger] all@.contains(w) && !removed@.contains(w) implies (best->0).1 <= degrees@[w] by {
                assert(all@[all@.index_of(w)] == w);
            }
        }
    }
    best
}

/// Compute the core number for each vertex (maximum k for which the vertex belongs to the k-core).
/// Every edge counts at both of its ends.
pub fn core_decomposition(g: &Graph) -> (r: HashMap<u64, usize>)
    ensures
        r@.dom() == g@.vertices.to_set(),
        forall|v: u64| #[trigger] r@.contains_key(v) ==> is_core_number(g@, by_edges(g@), v, r@[v] as nat),
{
    let all = g.vertices();
    let ghost n = g@;
    let ghost tie = by_edges(n);
    let mut degrees: HashMap<u64, usize> = HashMap::new();
    let mut i: usize = 0;
    while i < all.len()
        invariant
            n == g@,
            n.wf(),
            all@ == n.vertices,
            i <= all@.len(),
            forall|j: int| 0 <= j < i ==> degrees@.contains_key(#[trigger] all@[j]) && degrees@[all@[j]] == n.degree(all@[j]),
        decreases all@.len() - i,
    {
        let d: usize = g.neighbors(all[i]).len();
        degrees.insert(all[i], d);
        i += 1;
    }
    let mut removed: HashSet<u64> = HashSet::new();
    let mut r: HashMap<u64, usize> = HashMap::new();
    let ghost mut rest = n.vertices.to_set();
    let ghost mut core = rest;
    let ghost mut level: int = 0;
    proof {
        lemma_edges_grow(n);
        assert forall|w: u64| #[trigger] rest.contains(w) implies degrees@.contains_key(w) && degrees@[w] == larger(
            edges_within(n, rest, w) as int,
            0,
        ) by {
            assert(all@[n.vertices.index_of(w)] == w);
            let list = n.neighbors(w);
            assert forall|k: int| 0 <= k < list.len() implies rest.contains(#[trigger] list[k]) by {
                crate::graph::lemma_neighbors(n, w, list[k]);
                assert(list.contains(list[k]));
            }
            lemma_entries_all(list, rest);
        }
        assert(r@.dom() =~= n.vertices.to_set().difference(rest));
    }
    let mut next = lowest(all, &degrees, &removed);
    while next.is_some()
        invariant
            n == g@,
            n.wf(),
            tie == by_edges(n),
            grows(tie),
            all@ == n.vertices,
            rest.subset_of(n.vertices.to_set()),
            rest.subset_of(core),
            rest.finite(),
            forall|v: u64| #[trigger] removed@.contains(v) <==> n.vertices.contains(v) && !rest.contains(v),
            r@.dom() == n.vertices.to_set().difference(rest),
            forall|v: u64| #[trigger] r@.contains_key(v) ==> is_core_number(n, tie, v, r@[v] as nat),
            level >= 0,
            recorded(n, degrees@, rest, level),
            is_core(n, tie, core, level as nat),
            holds_cores(n, tie, rest, (level + 1) as nat),
            next is None ==> forall|v: u64| #[trigger] all@.contains(v) ==> removed@.contains(v),
            next matches Some(p) ==> all@.contains(p.0) && !removed@.contains(p.0) && degrees@[p.0] == p.1 && forall|w: u64|
                #[trigger] all@.contains(w) && !removed@.contains(w) ==> p.1 <= degrees@[w],
        decreases rest.len(),
    {
        let (v, m): (u64, usize) = match next {
            Some(p) => p,
            None => (0, 0),
        };
        proof {
            assert(rest.contains(v));
            if m > level {
                assert forall|w: u64| #[trigger] rest.contains(w) implies tie(rest, w) >= m by {
                    assert(n.vertices.to_set().contains(w));
                    assert(all@.contains(w) && !removed@.contains(w));
                }
                core = rest;
            }
            assert forall|s: Set<u64>| #[trigger] is_core(n, tie, s, (m + 1) as nat) implies s.subset_of(rest) by {
                lemma_smaller_core(n, tie, s, (m + 1) as nat, (level + 1) as nat);
            }
            assert(tie(rest, v) <= m);
            lemma_peel(n, tie, core, rest, v, m as nat);
        }
        removed.insert(v);
        r.insert(v, m);
        let list = g.neighbors(v);
        let ghost before = rest;
        proof {
            rest = rest.remove(v);
            assert(r@.dom() =~= n.vertices.to_set().difference(rest));
            assert(list@.take(0) =~= Seq::empty());
            assert forall|w: u64| #[trigger] rest.contains(w) implies degrees@.contains_key(w) && degrees@[w] == larger(
                edges_within(n, before, w) - occurrences(list@.take(0), w),
                m as int,
            ) by {
                assert(before.contains(w));
                assert(n.vertices.to_set().contains(w));
                assert(all@.contains(w) && !removed@.contains(w));
            }
        }
        let mut i: usize = 0;
        while i < list.len()
            invariant
                n == g@,
                n.wf(),
                all@ == n.vertices,
                list@ == n.neighbors(v),
                i <= list@.len(),
                before.contains(v),
                rest == before.remove(v),
                rest.subset_of(n.vertices.to_set()),
                forall|x: u64| #[trigger] removed@.contains(x) <==> n.vertices.contains(x) && !rest.contains(x),
                forall|w: u64| #[trigger]
                    rest.contains(w) ==> degrees@.contains_key(w) && degrees@[w] == larger(
                        edges_within(n, before, w) - occurrences(list@.take(i as int), w),
                        m as int,
                    ),
            decreases list@.len() - i,
        {
            let x: u64 = list[i];
            let ghost d0 = degrees@;
            proof {
                crate::graph::lemma_neighbors(n, v, x);
                assert(list@.contains(x));
            }
            if !removed.contains(&x) {
                assert(rest.contains(x));
                lower(&mut degrees, x, m);
            }
            proof {
                assert forall|w: u64| #[trigger] rest.contains(w) implies degrees@.contains_key(w) && degrees@[w] == larger(
                    edges_within(n, before, w) - occurrences(list@.take(i + 1), w),
                    m as int,
                ) by {
                    lemma_occurrences_prefix(list@, i as int, w);
                    assert(d0.contains_key(w));
                }
            }
            i += 1;
        }
        proof {
            assert(list@.take(i as int) =~= list@);
            assert forall|w: u64| #[trigger] rest.contains(w) implies degrees@.contains_key(w) && degrees@[w] == larger(
                edges_within(n, rest, w) as int,
                m as int,
            ) by {
                lemma_entries_without(n.neighbors(w), before, v);
                lemma_mutual(n, v, w);
            }
            level = m as int;
            assert forall|x: u64| #[trigger] all@.contains(x) && !removed@.contains(x) implies degrees@.contains_key(x) by {
                assert(rest.contains(x));
            }
        }
        next = lowest(all, &degrees, &removed);
    }
    proof {
        assert forall|v: u64| !rest.contains(v) by {
            if rest.contains(v) {
                assert(n.vertices.to_set().contains(v));
                assert(all@.contains(v));
            }
        }
        assert(r@.dom() =~= n.vertices.to_set());
    }
    r
}

proof fn lemma_core_number_bounds(n: Network, tie: Tie, v: u64, c: nat, k: nat)
    requires
        is_core_number(n, tie, v, c),
    ensures
        in_core(n, tie, v, k) <==> k <= c,
{
    if k <= c {
        let s = choose|s: Set<u64>| #[trigger] is_core(n, tie, s, c) && s.contains(v);
        lemma_smaller_core(n, tie, s, c, k);
    }
}

/// Get the k-core: all vertices with core number >= k.
pub fn k_core(g: &Graph, k: usize) -> (r: Vec<u64>)
    ensures
        r@.no_duplicates(),
        forall|v: u64| #[trigger] r@.contains(v) <==> in_core(g@, by_edges(g@), v, k as nat),
        is_core(g@, by_edges(g@), r@.to_set(), k as nat),
{
    let all = g.vertices();
    let ghost n = g@;
    let ghost tie = by_edges(n);
    let cores = core_decomposition(g);
    let mut r: Vec<u64> = Vec::new();
    let mut i: usize = 0;
    while i < all.len()
        invariant
            n == g@,
            n.wf(),
            tie == by_edges(n),
            all@ == n.vertices,
            i <= all@.len(),
            cores@.dom() == n.vertices.to_set(),
            forall|v: u64| #[trigger] cores@.contains_key(v) ==> is_core_number(n, tie, v, cores@[v] as nat),
            r@.no_duplicates(),
            forall|v: u64| #[trigger] r@.contains(v) <==> in_core(n, tie, v, k as nat) && exists|j: int| 0 <= j < i && all@[j] == v,
        decreases all@.len() - i,
    {
        let v: u64 = all[i];
        let ghost s = r@;
        assert(cores@.contains_key(v)) by {
            assert(n.vertices.contains(v));
            assert(n.vertices.to_set().contains(v));
        }
        let c: usize = match cores.get(&v) {
            Some(c) => *c,
            None => 0,
        };
        proof {
            lemma_core_number_bounds(n, tie, v, c as nat, k as nat);
        }
        if c >= k {
            r.push(v);
        }
        proof {
            if c >= k {
                assert(!s.contains(v));
                assert forall|x: u64| #[trigger] r@.contains(x) <==> in_core(n, tie, x, k as nat) && exists|j: int|
                    0 <= j < i + 1 && all@[j] == x by {
                    if s.contains(x) {
                        assert(r@[s.index_of(x)] == x);
                    }
                    if x == v {
                        assert(r@[s.len() as int] == v);
                        assert(all@[i as int] == v);
                    }
                    if r@.contains(x) && x != v {
                        assert(s[r@.index_of(x)] == x);
                    }
                }
            }
        }
        i += 1;
    }
    proof {
        let whole = r@.to_set();
        lemma_edges_grow(n);
        assert forall|v: u64| #[trigger] r@.contains(v) <==> in_core(n, tie, v, k as nat) by {
            if in_core(n, tie, v, k as nat) {
                let s = choose|s: Set<u64>| #[trigger] is_core(n, tie, s, k as nat) && s.contains(v);
                assert(n.vertices.to_set().contains(v));
                assert(all@[n.vertices.index_of(v)] == v);
            }
        }
        assert forall|v: u64| #[trigger] whole.contains(v) implies tie(whole, v) >= k by {
            assert(r@.contains(v));
            let s = choose|s: Set<u64>| #[trigger] is_core(n, tie, s, k as nat) && s.contains(v);
            assert(s.subset_of(whole)) by {
                assert forall|x: u64| s.contains(x) implies whole.contains(x) by {
                    assert(in_core(n, tie, x, k as nat));
                    assert(r@.contains(x));
                }
            }
            assert(tie(s, v) <= tie(whole, v));
        }
        assert(whole.subset_of(n.vertices.to_set())) by {
            assert forall|x: u64| whole.contains(x) implies n.vertices.to_set().contains(x) by {
                assert(r@.contains(x));
            }
        }
    }
    r
}

/// Whether a number is the largest core number, or zero where there is no vertex.
pub open spec fn is_degeneracy(n: Network, d: nat) -> bool {
    &&& forall|v: u64, c: nat| #[trigger] in_core(n, by_edges(n), v, c) ==> c <= d
    &&& n.vertices.len() == 0 ==> d == 0
    &&& n.vertices.len() > 0 ==> exists|v: u64| #[trigger] is_core_number(n, by_edges(n), v, d)
}

/// Degeneracy of the graph: the maximum core number.
pub fn degeneracy(g: &Graph) -> (r: usize)
    ensures
        is_degeneracy(g@, r as nat),
{
    let all = g.vertices();
    let ghost n = g@;
    let ghost tie = by_edges(n);
    let cores = core_decomposition(g);
    let mut r: usize = 0;
    let mut i: usize = 0;
    while i < all.len()
        invariant
            n == g@,
            n.wf(),
            tie == by_edges(n),
            all@ == n.vertices,
            i <= all@.len(),
            cores@.dom() == n.vertices.to_set(),
            forall|v: u64| #[trigger] cores@.contains_key(v) ==> is_core_number(n, tie, v, cores@[v] as nat),
            forall|j: int| 0 <= j < i ==> cores@[#[trigger] all@[j]] <= r,
            i == 0 ==> r == 0,
            i > 0 ==> exists|v: u64| #[trigger] is_core_number(n, tie, v, r as nat),
        decreases all@.len() - i,
    {
        let v: u64 = all[i];
        assert(cores@.contains_key(v)) by {
            assert(n.vertices.contains(v));
            assert(n.vertices.to_set().contains(v));
        }
        let c: usize = match cores.get(&v) {
            Some(c) => *c,
            None => 0,
        };
        assert(is_core_number(n, tie, v, c as nat));
        if c > r || i == 0 {
            r = c;
        }
        i += 1;
    }
    proof {
        assert forall|v: u64, c: nat| #[trigger] in_core(n, tie, v, c) implies c <= r by {
            let s = choose|s: Set<u64>| #[trigger] is_core(n, tie, s, c) && s.contains(v);
            assert(n.vertices.to_set().contains(v));
            assert(all@[n.vertices.index_of(v)] == v);
            assert(cores@.contains_key(v));
            assert(is_core_number(n, tie, v, cores@[v] as nat));
        }
    }
    r
}

} // verus!
