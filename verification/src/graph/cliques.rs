//! Maximal cliques (Bron-Kerbosch). Edges are taken in both directions.
use std::collections::HashSet;

use vstd::prelude::*;

use crate::graph::order::{ascending, holds, sorted};
use crate::graph::{lemma_neighbors, Graph, Network};

verus! {

broadcast use vstd::std_specs::hash::group_hash_axioms;

/// Whether all vertices of a set are adjacent to each other. An edge from a vertex to itself does not
/// count.
pub open spec fn is_clique(n: Network, c: Set<u64>) -> bool {
    &&& forall|v: u64| #[trigger] c.contains(v) ==> n.vertices.contains(v)
    &&& forall|u: u64, v: u64| #[trigger] c.contains(u) && #[trigger] c.contains(v) && u != v ==> n.adjacent(u, v)
}

/// Whether a vertex that is not in a set is adjacent to all vertices of the set.
pub open spec fn extends_clique(n: Network, c: Set<u64>, w: u64) -> bool {
    n.vertices.contains(w) && !c.contains(w) && forall|v: u64| #[trigger] c.contains(v) ==> n.adjacent(w, v)
}

/// Whether a set is a clique that no vertex extends.
pub open spec fn is_maximal_clique(n: Network, c: Set<u64>) -> bool {
    &&& is_clique(n, c)
    &&& forall|w: u64| !#[trigger] extends_clique(n, c, w)
}

/// Whether a list of cliques holds a set.
pub open spec fn lists(cliques: Seq<Vec<u64>>, c: Set<u64>) -> bool {
    exists|i: int| 0 <= i < cliques.len() && (#[trigger] cliques[i])@.to_set() == c
}

/// The vertices of a list, but for one and those of another list, that are in a set.
fn common(p: &Vec<u64>, near: &HashSet<u64>, v: u64, done: &Vec<u64>) -> (r: Vec<u64>)
    requires
        p@.no_duplicates(),
        p@.contains(v),
    ensures
        r@.no_duplicates(),
        r@.len() < p@.len(),
        forall|w: u64| #[trigger]
            r@.contains(w) <==> p@.contains(w) && near@.contains(w) && w != v && !done@.contains(w),
{
    let mut r: Vec<u64> = Vec::new();
    let mut i: usize = 0;
    while i < p.len()
        invariant
            p@.no_duplicates(),
            p@.contains(v),
            i <= p@.len(),
            r@.len() <= i,
            p@.index_of(v) < i ==> r@.len() < i,
            r@.no_duplicates(),
            forall|w: u64| #[trigger]
                r@.contains(w) <==> near@.contains(w) && w != v && !done@.contains(w) && p@.take(i as int).contains(w),
        decreases p@.len() - i,
    {
        let w: u64 = p[i];
        let ghost s = r@;
        proof {
            lemma_take_contains(p@, i as int);
        }
        if w != v && near.contains(&w) && !holds(done, w) {
            proof {
                assert(!p@.take(i as int).contains(w)) by {
                    if p@.take(i as int).contains(w) {
                        let k = p@.take(i as int).index_of(w);
                        assert(p@[k] == w);
                    }
                }
                assert(!s.contains(w));
                lemma_push_contains(s, w);
            }
            r.push(w);
        }
        i += 1;
    }
    assert(p@.take(i as int) =~= p@);
    r
}

proof fn lemma_push_contains(s: Seq<u64>, w: u64)
    ensures
        forall|x: u64| #[trigger] s.push(w).contains(x) <==> s.contains(x) || x == w,
{
    assert forall|x: u64| #[trigger] s.push(w).contains(x) <==> s.contains(x) || x == w by {
        if s.contains(x) {
            assert(s.push(w)[s.index_of(x)] == x);
        }
        assert(s.push(w)[s.len() as int] == w);
        if s.push(w).contains(x) && x != w {
            assert(s[s.push(w).index_of(x)] == x);
        }
    }
}

proof fn lemma_take_contains(s: Seq<u64>, i: int)
    requires
        0 <= i < s.len(),
    ensures
        forall|x: u64| #[trigger] s.take(i + 1).contains(x) <==> s.take(i).contains(x) || x == s[i],
{
    assert(s.take(i + 1) =~= s.take(i).push(s[i]));
    lemma_push_contains(s.take(i), s[i]);
}

/// The vertices of a list that are in a set.
fn among(list: &Vec<u64>, near: &HashSet<u64>) -> (r: Vec<u64>)
    ensures
        forall|w: u64| #[trigger] r@.contains(w) <==> list@.contains(w) && near@.contains(w),
{
    let mut r: Vec<u64> = Vec::new();
    let mut i: usize = 0;
    while i < list.len()
        invariant
            i <= list@.len(),
            forall|w: u64| #[trigger] r@.contains(w) <==> near@.contains(w) && list@.take(i as int).contains(w),
        decreases list@.len() - i,
    {
        proof {
            lemma_take_contains(list@, i as int);
            lemma_push_contains(r@, list@[i as int]);
        }
        if near.contains(&list[i]) {
            r.push(list[i]);
        }
        i += 1;
    }
    assert(list@.take(i as int) =~= list@);
    r
}

/// One list after another.
fn joined(p: &Vec<u64>, x: &Vec<u64>) -> (r: Vec<u64>)
    ensures
        r@ == p@ + x@,
{
    let mut r: Vec<u64> = p.clone();
    assert(r@ =~= p@);
    let mut i: usize = 0;
    while i < x.len()
        invariant
            i <= x@.len(),
            r@ == p@ + x@.take(i as int),
        decreases x@.len() - i,
    {
        r.push(x[i]);
        i += 1;
        assert(p@ + x@.take(i as int) =~= (p@ + x@.take(i - 1)).push(x@[i - 1]));
    }
    assert(x@.take(i as int) =~= x@);
    r
}

/// The number of vertices of a list that are in a set.
spec fn shared_count(p: Seq<u64>, near: Set<u64>) -> nat {
    p.filter(|w: u64| near.contains(w)).len()
}

/// The number of vertices of a list that are in a set.
fn count_common(p: &Vec<u64>, near: &HashSet<u64>) -> (r: usize)
    ensures
        r == shared_count(p@, near@),
{
    let mut r: usize = 0;
    let mut i: usize = 0;
    while i < p.len()
        invariant
            i <= p@.len(),
            r <= i,
            r == shared_count(p@.take(i as int), near@),
        decreases p@.len() - i,
    {
        proof {
            reveal(Seq::filter);
            assert(p@.take(i + 1).drop_last() =~= p@.take(i as int));
        }
        if near.contains(&p[i]) {
            r += 1;
        }
        i += 1;
    }
    assert(p@.take(i as int) =~= p@);
    r
}

/// One of some vertices that is adjacent to most of a list.
fn pivot(g: &Graph, p: &Vec<u64>, all: &Vec<u64>) -> (r: u64)
    requires
        all@.len() > 0,
    ensures
        all@.contains(r),
        forall|w: u64| #[trigger]
            all@.contains(w) ==> shared_count(p@, g@.neighbor_set(w)) <= shared_count(p@, g@.neighbor_set(r)),
{
    let mut best: u64 = all[0];
    assert(all@.contains(all@[0]));
    let mut most: usize = 0;
    let mut i: usize = 0;
    while i < all.len()
        invariant
            i <= all@.len(),
            all@.contains(best),
            most <= shared_count(p@, g@.neighbor_set(best)),
            forall|j: int| 0 <= j < i ==> shared_count(p@, g@.neighbor_set(#[trigger] all@[j])) <= most,
        decreases all@.len() - i,
    {
        let count: usize = count_common(p, &g.neighbor_set(all[i]));
        if count > most {
            most = count;
            best = all[i];
            assert(all@.contains(all@[i as int]));
        }
        i += 1;
    }
    best
}

/// A maximal clique that holds a clique holds the pivot, or a vertex that the pivot is not adjacent
/// to.
proof fn lemma_pivot(n: Network, r: Set<u64>, c: Set<u64>, u: u64) -> (v: u64)
    requires
        is_maximal_clique(n, c),
        r.subset_of(c),
        extends_clique(n, r, u),
    ensures
        c.contains(v),
        !r.contains(v),
        v == u || !n.adjacent(u, v),
{
    if c.contains(u) {
        u
    } else {
        if forall|v: u64| #[trigger] c.contains(v) && !r.contains(v) ==> n.adjacent(u, v) {
            assert(extends_clique(n, c, u)) by {
                assert forall|v: u64| #[trigger] c.contains(v) implies n.adjacent(u, v) by {
                    if r.contains(v) {
                    }
                }
            }
        }
        choose|v: u64| #[trigger] c.contains(v) && !r.contains(v) && !n.adjacent(u, v)
    }
}

/// Whether a list holds a set from some position on.
spec fn lists_from(cliques: Seq<Vec<u64>>, start: nat, c: Set<u64>) -> bool {
    exists|i: int| start <= i < cliques.len() && (#[trigger] cliques[i])@.to_set() == c
}

/// Whether a list was continued by the sets that are sought, each once and in ascending order.
spec fn adds(start: Seq<Vec<u64>>, now: Seq<Vec<u64>>, sought: spec_fn(Set<u64>) -> bool) -> bool {
    &&& start.len() <= now.len()
    &&& forall|i: int| 0 <= i < start.len() ==> #[trigger] now[i] == start[i]
    &&& forall|i: int| start.len() <= i < now.len() ==> ascending((#[trigger] now[i])@) && sought(now[i]@.to_set())
    &&& forall|c: Set<u64>| #[trigger] sought(c) ==> lists_from(now, start.len(), c)
    &&& forall|i: int, j: int|
        start.len() <= i < j < now.len() ==> (#[trigger] now[i])@.to_set() != (#[trigger] now[j])@.to_set()
}

/// The maximal cliques that hold all of some vertices and none of others.
spec fn between(n: Network, r: Set<u64>, x: Set<u64>) -> spec_fn(Set<u64>) -> bool {
    |c: Set<u64>| is_maximal_clique(n, c) && r.subset_of(c) && c.disjoint(x)
}

/// Those of them that hold a vertex that was tried.
spec fn between_tried(n: Network, r: Set<u64>, x: Set<u64>, tried: Set<u64>) -> spec_fn(Set<u64>) -> bool {
    |c: Set<u64>| is_maximal_clique(n, c) && r.subset_of(c) && c.disjoint(x) && !c.disjoint(tried)
}

proof fn lemma_adds_same(
    start: Seq<Vec<u64>>,
    now: Seq<Vec<u64>>,
    f: spec_fn(Set<u64>) -> bool,
    h: spec_fn(Set<u64>) -> bool,
)
    requires
        adds(start, now, f),
        forall|c: Set<u64>| #[trigger] f(c) <==> h(c),
    ensures
        adds(start, now, h),
{
    assert forall|c: Set<u64>| #[trigger] h(c) implies lists_from(now, start.len(), c) by {
        assert(f(c));
    }
    assert forall|i: int| start.len() <= i < now.len() implies ascending((#[trigger] now[i])@) && h(now[i]@.to_set()) by {
        assert(f(now[i]@.to_set()));
    }
}

/// A list that is continued twice, by sets of two kinds, is continued by the sets of either kind.
proof fn lemma_adds_join(
    start: Seq<Vec<u64>>,
    mid: Seq<Vec<u64>>,
    now: Seq<Vec<u64>>,
    f: spec_fn(Set<u64>) -> bool,
    k: spec_fn(Set<u64>) -> bool,
    h: spec_fn(Set<u64>) -> bool,
)
    requires
        adds(start, mid, f),
        adds(mid, now, k),
        forall|c: Set<u64>| #[trigger] h(c) <==> f(c) || k(c),
        forall|c: Set<u64>| !(#[trigger] f(c) && k(c)),
    ensures
        adds(start, now, h),
{
    assert forall|i: int| 0 <= i < start.len() implies #[trigger] now[i] == start[i] by {
        assert(mid[i] == start[i]);
    }
    assert forall|i: int| start.len() <= i < now.len() implies ascending((#[trigger] now[i])@) && h(now[i]@.to_set()) by {
        if i < mid.len() {
            assert(now[i] == mid[i]);
            assert(f(mid[i]@.to_set()));
        }
        assert(h(now[i]@.to_set()));
    }
    assert forall|c: Set<u64>| #[trigger] h(c) implies lists_from(now, start.len(), c) by {
        if f(c) {
            let i = choose|i: int| start.len() <= i < mid.len() && (#[trigger] mid[i])@.to_set() == c;
            assert(now[i]@.to_set() == c);
        } else {
            assert(k(c));
            let i = choose|i: int| mid.len() <= i < now.len() && (#[trigger] now[i])@.to_set() == c;
            assert(now[i]@.to_set() == c);
        }
    }
    assert forall|i: int, j: int| start.len() <= i < j < now.len() implies (#[trigger] now[i])@.to_set() != (#[trigger] now[j])@.to_set() by {
        if j < mid.len() {
            assert(mid[i] == now[i] && mid[j] == now[j]);
        } else if i < mid.len() {
            assert(mid[i] == now[i]);
            assert(f(mid[i]@.to_set()) && k(now[j]@.to_set()));
        }
    }
}

/// Adds the maximal cliques that hold all of `r` and none of `x`, where the vertices that extend `r`
/// are those of `p` and those of `x`.
#[verifier::spinoff_prover]
fn bron_kerbosch_pivot(g: &Graph, r: &Vec<u64>, p: &Vec<u64>, x: &Vec<u64>, cliques: &mut Vec<Vec<u64>>)
    requires
        r@.no_duplicates(),
        is_clique(g@, r@.to_set()),
        p@.no_duplicates(),
        forall|w: u64| p@.contains(w) ==> !#[trigger] x@.contains(w),
        forall|w: u64| #[trigger] extends_clique(g@, r@.to_set(), w) <==> p@.contains(w) || x@.contains(w),
    ensures
        adds(old(cliques)@, final(cliques)@, between(g@, r@.to_set(), x@.to_set())),
    decreases p@.len(),
{
    let ghost n = g@;
    let ghost rs = r@.to_set();
    let ghost xs = x@.to_set();
    let ghost start = cliques@;
    if p.len() == 0 && x.len() == 0 {
        let clique = sorted(r);
        cliques.push(clique);
        proof {
            let now = cliques@;
            assert forall|w: u64| !#[trigger] extends_clique(n, rs, w) by {
                assert(!p@.contains(w) && !x@.contains(w));
            }
            assert(rs.disjoint(xs));
            assert(between(n, rs, xs)(rs));
            assert(now[start.len() as int]@.to_set() == rs);
            assert forall|c: Set<u64>| #[trigger] between(n, rs, xs)(c) implies lists_from(now, start.len(), c) by {
                assert forall|v: u64| c.contains(v) implies rs.contains(v) by {
                    if !rs.contains(v) {
                        assert(extends_clique(n, rs, v));
                    }
                }
                assert(c =~= rs);
                assert(now[start.len() as int]@.to_set() == c);
            }
        }
        return;
    }
    let all = joined(p, x);
    let u: u64 = pivot(g, p, &all);
    proof {
        let k = all@.index_of(u);
        if k < p@.len() {
            assert(p@[k] == u);
        } else {
            assert(x@[k - p@.len()] == u);
        }
        assert(extends_clique(n, rs, u));
    }
    let near = g.neighbor_set(u);
    let mut done: Vec<u64> = x.clone();
    assert(done@ =~= x@);
    let ghost mut tried: Set<u64> = Set::empty();
    let mut i: usize = 0;
    assert(adds(start, cliques@, between_tried(n, rs, xs, tried)));
    while i < p.len()
        invariant
            n == g@,
            n.wf(),
            rs == r@.to_set(),
            xs == x@.to_set(),
            r@.no_duplicates(),
            is_clique(n, rs),
            p@.no_duplicates(),
            forall|w: u64| p@.contains(w) ==> !#[trigger] x@.contains(w),
            forall|w: u64| #[trigger] extends_clique(n, rs, w) <==> p@.contains(w) || x@.contains(w),
            near@ == n.neighbor_set(u),
            i <= p@.len(),
            forall|w: u64| #[trigger] done@.contains(w) <==> x@.contains(w) || tried.contains(w),
            forall|w: u64| #[trigger]
                tried.contains(w) <==> p@.take(i as int).contains(w) && (w == u || !near@.contains(w)),
            adds(start, cliques@, between_tried(n, rs, xs, tried)),
        decreases p@.len() - i,
    {
        let v: u64 = p[i];
        let ghost before = cliques@;
        proof {
            assert(p@.contains(v));
            lemma_take_contains(p@, i as int);
            assert forall|w: u64| p@.take(i as int).contains(w) implies p@.contains(w) && w != v by {
                let k = p@.take(i as int).index_of(w);
                assert(p@[k] == w);
            }
        }
        if v == u || !near.contains(&v) {
            let mut r2: Vec<u64> = r.clone();
            assert(r2@ =~= r@);
            r2.push(v);
            let near_v = g.neighbor_set(v);
            let p2 = common(p, &near_v, v, &done);
            let x2 = among(&done, &near_v);
            let ghost rs2 = r2@.to_set();
            let ghost xs2 = x2@.to_set();
            proof {
                lemma_push_contains(r@, v);
                assert(rs2 =~= rs.insert(v));
                assert(extends_clique(n, rs, v));
                assert(!r@.contains(v)) by {
                    assert(!rs.contains(v));
                }
                assert(is_clique(n, rs2)) by {
                    assert forall|a: u64, b: u64|
                        #[trigger] rs2.contains(a) && #[trigger] rs2.contains(b) && a != b implies n.adjacent(a, b) by {
                        assert(a == v || rs.contains(a));
                        assert(b == v || rs.contains(b));
                    }
                }
                assert(!done@.contains(v)) by {
                    assert(!x@.contains(v) && !tried.contains(v));
                }
                assert forall|w: u64| #[trigger] extends_clique(n, rs2, w) <==> p2@.contains(w) || x2@.contains(w) by {
                    lemma_extension(n, rs, v, w);
                    lemma_neighbors(n, v, w);
                }
                assert forall|w: u64| p2@.contains(w) implies !#[trigger] x2@.contains(w) by {
                }
            }
            bron_kerbosch_pivot(g, &r2, &p2, &x2, cliques);
            proof {
                let f = between_tried(n, rs, xs, tried);
                let k = between(n, rs2, xs2);
                let h = between_tried(n, rs, xs, tried.insert(v));
                assert forall|c: Set<u64>| #[trigger] h(c) <==> f(c) || k(c) by {
                    lemma_next_sought(n, rs, x@, done@, tried, v, x2@, c);
                }
                assert forall|c: Set<u64>| !(#[trigger] f(c) && k(c)) by {
                    lemma_next_sought(n, rs, x@, done@, tried, v, x2@, c);
                }
                lemma_adds_join(start, before, cliques@, f, k, h);
                lemma_push_contains(done@, v);
                tried = tried.insert(v);
            }
            done.push(v);
        }
        i += 1;
    }
    proof {
        assert(p@.take(i as int) =~= p@);
        let f = between_tried(n, rs, xs, tried);
        let h = between(n, rs, xs);
        assert forall|c: Set<u64>| #[trigger] f(c) <==> h(c) by {
            if h(c) {
                let v = lemma_pivot(n, rs, c, u);
                assert(extends_clique(n, rs, v)) by {
                    assert forall|w: u64| #[trigger] rs.contains(w) implies n.adjacent(v, w) by {
                        assert(c.contains(w));
                    }
                }
                assert(!xs.contains(v));
                assert(!x@.contains(v));
                assert(p@.contains(v));
                lemma_neighbors(n, u, v);
                assert(tried.contains(v));
                assert(c.contains(v));
            }
        }
        lemma_adds_same(start, cliques@, f, h);
    }
}

/// A vertex extends a clique that was extended by another vertex exactly if it extends the clique and
/// is adjacent to that vertex.
proof fn lemma_extension(n: Network, rs: Set<u64>, v: u64, w: u64)
    requires
        extends_clique(n, rs, v),
    ensures
        extends_clique(n, rs.insert(v), w) <==> extends_clique(n, rs, w) && w != v && n.adjacent(w, v),
{
    let rs2 = rs.insert(v);
    if extends_clique(n, rs2, w) {
        assert(rs2.contains(v));
        assert forall|y: u64| #[trigger] rs.contains(y) implies n.adjacent(w, y) by {
            assert(rs2.contains(y));
        }
    }
}

/// The cliques that are sought with a vertex are those of the next kind: they hold the vertex, and
/// none that was tried before it.
proof fn lemma_next_sought(
    n: Network,
    rs: Set<u64>,
    x: Seq<u64>,
    done: Seq<u64>,
    tried: Set<u64>,
    v: u64,
    x2: Seq<u64>,
    c: Set<u64>,
)
    requires
        forall|w: u64| #[trigger] done.contains(w) <==> x.contains(w) || tried.contains(w),
        forall|w: u64| #[trigger] x2.contains(w) <==> done.contains(w) && n.neighbor_set(v).contains(w),
        !done.contains(v),
    ensures
        between(n, rs.insert(v), x2.to_set())(c) <==> is_maximal_clique(n, c) && rs.subset_of(c) && c.contains(v)
            && c.disjoint(x.to_set()) && c.disjoint(tried),
        between_tried(n, rs, x.to_set(), tried.insert(v))(c) <==> between_tried(n, rs, x.to_set(), tried)(c) || between(
            n,
            rs.insert(v),
            x2.to_set(),
        )(c),
        !(between_tried(n, rs, x.to_set(), tried)(c) && between(n, rs.insert(v), x2.to_set())(c)),
{
    let k = between(n, rs.insert(v), x2.to_set());
    let exact = is_maximal_clique(n, c) && rs.subset_of(c) && c.contains(v) && c.disjoint(x.to_set()) && c.disjoint(tried);
    if k(c) {
        assert(rs.insert(v).contains(v));
        assert(c.contains(v));
        assert forall|w: u64| #[trigger] rs.contains(w) implies c.contains(w) by {
            assert(rs.insert(v).contains(w));
        }
        assert forall|w: u64| #[trigger] c.contains(w) implies !done.contains(w) by {
            if done.contains(w) {
                lemma_neighbors(n, v, w);
                assert(n.adjacent(v, w));
                assert(x2.contains(w));
                assert(x2.to_set().contains(w));
            }
        }
        assert forall|w: u64| c.contains(w) implies !#[trigger] x.to_set().contains(w) by {
            assert(!done.contains(w));
        }
        assert forall|w: u64| c.contains(w) implies !#[trigger] tried.contains(w) by {
            assert(!done.contains(w));
        }
        assert(exact);
    }
    if exact {
        assert forall|w: u64| c.contains(w) implies !#[trigger] x2.to_set().contains(w) by {
            if x2.to_set().contains(w) {
                assert(x2.contains(w));
                assert(done.contains(w));
                assert(x.to_set().contains(w) || tried.contains(w));
            }
        }
        assert(c.disjoint(x2.to_set()));
        assert(k(c));
    }
    let f = between_tried(n, rs, x.to_set(), tried);
    let h = between_tried(n, rs, x.to_set(), tried.insert(v));
    if h(c) {
        let w = choose|w: u64| c.contains(w) && tried.insert(v).contains(w);
        if c.disjoint(tried) {
            assert(w == v);
        }
    }
    if f(c) {
        let w = choose|w: u64| c.contains(w) && tried.contains(w);
        assert(c.contains(w) && tried.insert(v).contains(w));
    }
    if exact {
        assert(c.contains(v) && tried.insert(v).contains(v));
    }
}

/// All maximal cliques, each once and in ascending order.
pub fn maximal_cliques(g: &Graph) -> (r: Vec<Vec<u64>>)
    ensures
        forall|i: int| 0 <= i < r@.len() ==> ascending((#[trigger] r@[i])@) && is_maximal_clique(g@, r@[i]@.to_set()),
        forall|c: Set<u64>| is_maximal_clique(g@, c) ==> #[trigger] lists(r@, c),
        forall|i: int, j: int| 0 <= i < j < r@.len() ==> (#[trigger] r@[i])@ != (#[trigger] r@[j])@,
{
    let mut cliques: Vec<Vec<u64>> = Vec::new();
    let none: Vec<u64> = Vec::new();
    let all = g.vertices();
    proof {
        assert(none@.to_set() =~= Set::empty());
        assert forall|w: u64| #[trigger] extends_clique(g@, none@.to_set(), w) <==> all@.contains(w) || none@.contains(w) by {
        }
    }
    bron_kerbosch_pivot(g, &none, all, &none, &mut cliques);
    proof {
        let sought = between(g@, none@.to_set(), none@.to_set());
        assert forall|c: Set<u64>| is_maximal_clique(g@, c) implies #[trigger] lists(cliques@, c) by {
            assert(sought(c));
            let i = choose|i: int| 0 <= i < cliques@.len() && (#[trigger] cliques@[i])@.to_set() == c;
            assert(cliques@[i]@.to_set() == c);
        }
        assert forall|i: int| 0 <= i < cliques@.len() implies ascending((#[trigger] cliques@[i])@) && is_maximal_clique(
            g@,
            cliques@[i]@.to_set(),
        ) by {
            assert(sought(cliques@[i]@.to_set()));
        }
    }
    cliques
}

/// All maximal cliques with a vertex, each once and in ascending order.
pub fn cliques_containing(g: &Graph, vertex: u64) -> (r: Vec<Vec<u64>>)
    ensures
        forall|i: int|
            0 <= i < r@.len() ==> ascending((#[trigger] r@[i])@) && is_maximal_clique(g@, r@[i]@.to_set())
                && r@[i]@.contains(vertex),
        forall|c: Set<u64>| is_maximal_clique(g@, c) && c.contains(vertex) ==> #[trigger] lists(r@, c),
        forall|i: int, j: int| 0 <= i < j < r@.len() ==> (#[trigger] r@[i])@ != (#[trigger] r@[j])@,
{
    let mut all = maximal_cliques(g);
    let ghost listed = all@;
    let mut r: Vec<Vec<u64>> = Vec::new();
    while all.len() > 0
        invariant
            all@.len() <= listed.len(),
            all@ == listed.take(all@.len() as int),
            forall|i: int|
                0 <= i < listed.len() ==> ascending((#[trigger] listed[i])@) && is_maximal_clique(g@, listed[i]@.to_set()),
            forall|i: int|
                0 <= i < r@.len() ==> ascending((#[trigger] r@[i])@) && is_maximal_clique(g@, r@[i]@.to_set())
                    && r@[i]@.contains(vertex),
            forall|i: int|
                all@.len() <= i < listed.len() && (#[trigger] listed[i])@.contains(vertex) ==> lists(r@, listed[i]@.to_set()),
            forall|i: int, j: int| 0 <= i < j < listed.len() ==> (#[trigger] listed[i])@ != (#[trigger] listed[j])@,
            forall|i: int, j: int| 0 <= i < r@.len() && 0 <= j < all@.len() ==> (#[trigger] r@[i])@ != (#[trigger] listed[j])@,
            forall|i: int, j: int| 0 <= i < j < r@.len() ==> (#[trigger] r@[i])@ != (#[trigger] r@[j])@,
        decreases all@.len(),
    {
        let ghost k = all@.len() - 1;
        let ghost before = r@;
        match all.pop() {
            Some(c) => {
                assert(c == listed[k]);
                assert(all@ =~= listed.take(k));
                if holds(&c, vertex) {
                    r.push(c);
                    assert(r@[before.len() as int]@.to_set() == listed[k]@.to_set());
                }
                proof {
                    assert forall|i: int| k <= i < listed.len() && (#[trigger] listed[i])@.contains(vertex) implies lists(
                        r@,
                        listed[i]@.to_set(),
                    ) by {
                        if i > k {
                            assert(lists(before, listed[i]@.to_set()));
                            let j = choose|j: int|
                                0 <= j < before.len() && (#[trigger] before[j])@.to_set() == listed[i]@.to_set();
                            assert(r@[j]@.to_set() == listed[i]@.to_set());
                        }
                    }
                }
            },
            None => {},
        }
    }
    proof {
        assert forall|c: Set<u64>| is_maximal_clique(g@, c) && c.contains(vertex) implies #[trigger] lists(r@, c) by {
            assert(lists(listed, c));
            let i = choose|i: int| 0 <= i < listed.len() && (#[trigger] listed[i])@.to_set() == c;
            assert(listed[i]@.to_set().contains(vertex));
            assert(listed[i]@.contains(vertex));
        }
    }
    r
}

/// Whether a number is the size of a largest clique; none is larger.
pub open spec fn is_clique_number(n: Network, k: nat) -> bool {
    &&& exists|c: Set<u64>| #[trigger] is_maximal_clique(n, c) && c.len() == k
    &&& forall|c: Set<u64>| #[trigger] is_maximal_clique(n, c) ==> c.len() <= k
}

/// Size of the largest maximal clique (clique number).
pub fn clique_number(g: &Graph) -> (r: usize)
    ensures
        is_clique_number(g@, r as nat),
{
    let all = maximal_cliques(g);
    let mut r: usize = 0;
    let mut i: usize = 0;
    while i < all.len()
        invariant
            i <= all@.len(),
            forall|j: int| 0 <= j < i ==> (#[trigger] all@[j])@.len() <= r,
            i > 0 ==> exists|j: int| 0 <= j < i && (#[trigger] all@[j])@.len() == r,
        decreases all@.len() - i,
    {
        if i == 0 || all[i].len() > r {
            r = all[i].len();
        }
        i += 1;
        assert(all@[i - 1]@.len() <= r);
    }
    proof {
        let n = g@;
        let ghost c0 = lemma_some_clique(n);
        assert(lists(all@, c0));
        let j = choose|j: int| 0 <= j < all@.len() && (#[trigger] all@[j])@.len() == r;
        assert forall|k: int| 0 <= k < all@.len() implies (#[trigger] all@[k])@.to_set().len() == all@[k]@.len() by {
            all@[k]@.unique_seq_to_set();
        }
        assert(is_maximal_clique(n, all@[j]@.to_set()) && all@[j]@.to_set().len() == r);
        assert forall|c: Set<u64>| #[trigger] is_maximal_clique(n, c) implies c.len() <= r by {
            assert(lists(all@, c));
            let k = choose|k: int| 0 <= k < all@.len() && (#[trigger] all@[k])@.to_set() == c;
            assert(all@[k]@.to_set().len() == all@[k]@.len());
        }
    }
    r
}

/// Every clique can be extended to a maximal one.
pub proof fn cliques_extend_to_maximal(n: Network, c: Set<u64>) -> (m: Set<u64>)
    requires
        is_clique(n, c),
    ensures
        is_maximal_clique(n, m),
        c.subset_of(m),
    decreases n.vertices.to_set().difference(c).len(),
{
    let rest = n.vertices.to_set().difference(c);
    if forall|w: u64| !#[trigger] extends_clique(n, c, w) {
        c
    } else {
        let w = choose|w: u64| #[trigger] extends_clique(n, c, w);
        let d = c.insert(w);
        assert(rest.contains(w));
        assert(n.vertices.to_set().difference(d) =~= rest.remove(w));
        assert forall|a: u64, b: u64| #[trigger] d.contains(a) && #[trigger] d.contains(b) && a != b implies n.adjacent(a, b) by {
            assert(a == w || c.contains(a));
            assert(b == w || c.contains(b));
        }
        cliques_extend_to_maximal(n, d)
    }
}

proof fn lemma_some_clique(n: Network) -> (c: Set<u64>)
    ensures
        is_maximal_clique(n, c),
{
    cliques_extend_to_maximal(n, Set::empty())
}

} // verus!
