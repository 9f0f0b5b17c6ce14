//! Orders of vertices: ascending, and by degree.
use vstd::prelude::*;

use crate::graph::{Graph, Network};

verus! {

/// Whether each value is below those that follow it.
pub open spec fn ascending(s: Seq<u64>) -> bool {
    forall|i: int, j: int| 0 <= i < j < s.len() ==> s[i] < s[j]
}

/// Puts a new value at its place in an ascending list.
pub fn insert_ascending(list: &mut Vec<u64>, x: u64)
    requires
        ascending(old(list)@),
        !old(list)@.contains(x),
    ensures
        ascending(final(list)@),
        final(list)@.to_set() == old(list)@.to_set().insert(x),
        final(list)@.len() == old(list)@.len() + 1,
{
    let ghost s = list@;
    let mut i: usize = 0;
    while i < list.len() && list[i] < x
        invariant
            list@ == s,
            i <= s.len(),
            forall|j: int| 0 <= j < i ==> s[j] < x,
        decreases s.len() - i,
    {
        i += 1;
    }
    list.insert(i, x);
    proof {
        let t = list@;
        assert(t =~= s.insert(i as int, x));
        assert forall|a: int, b: int| 0 <= a < b < t.len() implies t[a] < t[b] by {
            if i < s.len() {
                assert(s[i as int] != x) by {
                    assert(s.contains(s[i as int]));
                }
            }
        }
        assert forall|v: u64| t.to_set().contains(v) <==> s.to_set().insert(x).contains(v) by {
            if t.contains(v) && v != x {
                let k = t.index_of(v);
                if k < i {
                    assert(s[k] == v);
                } else {
                    assert(s[k - 1] == v);
                }
            }
            if s.contains(v) {
                let k = s.index_of(v);
                if k < i {
                    assert(t[k] == v);
                } else {
                    assert(t[k + 1] == v);
                }
            }
            assert(t[i as int] == x);
        }
        assert(t.to_set() =~= s.to_set().insert(x));
    }
}

/// The values of a list without repetition, in ascending order.
pub fn sorted(list: &Vec<u64>) -> (r: Vec<u64>)
    requires
        list@.no_duplicates(),
    ensures
        ascending(r@),
        r@.to_set() == list@.to_set(),
        r@.len() == list@.len(),
{
    let mut r: Vec<u64> = Vec::new();
    let mut i: usize = 0;
    assert(r@.to_set() =~= list@.take(0).to_set());
    while i < list.len()
        invariant
            list@.no_duplicates(),
            i <= list@.len(),
            ascending(r@),
            r@.len() == i,
            r@.to_set() == list@.take(i as int).to_set(),
        decreases list@.len() - i,
    {
        proof {
            let s = list@.take(i as int);
            let t = list@.take(i + 1);
            if r@.contains(list@[i as int]) {
                assert(r@.to_set().contains(list@[i as int]));
                assert(s.to_set().contains(list@[i as int]));
                let k = s.index_of(list@[i as int]);
                assert(list@[k] == list@[i as int]);
            }
            assert forall|v: u64| t.to_set().contains(v) <==> s.to_set().insert(list@[i as int]).contains(v) by {
                if s.contains(v) {
                    assert(t[s.index_of(v)] == v);
                }
                assert(t[i as int] == list@[i as int]);
                if t.contains(v) && v != list@[i as int] {
                    assert(s[t.index_of(v)] == v);
                }
            }
            assert(t.to_set() =~= s.to_set().insert(list@[i as int]));
        }
        insert_ascending(&mut r, list[i]);
        i += 1;
    }
    assert(list@.take(i as int) =~= list@);
    r
}

/// The vertices adjacent to a vertex, each once, in ascending order.
pub fn sorted_neighbors(g: &Graph, u: u64) -> (r: Vec<u64>)
    ensures
        ascending(r@),
        r@.no_duplicates(),
        r@.to_set() == g@.neighbor_set(u),
        g@.wf(),
{
    let list = g.neighbors(u);
    let mut r: Vec<u64> = Vec::new();
    let mut i: usize = 0;
    assert(r@.to_set() =~= list@.take(0).to_set());
    while i < list.len()
        invariant
            i <= list@.len(),
            ascending(r@),
            r@.to_set() == list@.take(i as int).to_set(),
        decreases list@.len() - i,
    {
        let x: u64 = list[i];
        let known = holds(&r, x);
        proof {
            let s = list@.take(i as int);
            let t = list@.take(i + 1);
            assert forall|v: u64| t.to_set().contains(v) <==> s.to_set().insert(x).contains(v) by {
                if s.contains(v) {
                    assert(t[s.index_of(v)] == v);
                }
                assert(t[i as int] == x);
                if t.contains(v) && v != x {
                    assert(s[t.index_of(v)] == v);
                }
            }
            assert(t.to_set() =~= s.to_set().insert(x));
            if known {
                assert(r@.to_set().contains(x));
                assert(s.to_set().insert(x) =~= s.to_set());
            }
        }
        if !known {
            insert_ascending(&mut r, x);
        }
        i += 1;
    }
    assert(list@.take(i as int) =~= list@);
    r
}

/// Whether a list holds a value.
pub fn holds(list: &Vec<u64>, x: u64) -> (r: bool)
    ensures
        r == list@.contains(x),
{
    let mut i: usize = 0;
    while i < list.len()
        invariant
            i <= list@.len(),
            forall|j: int| 0 <= j < i ==> list@[j] != x,
        decreases list@.len() - i,
    {
        if list[i] == x {
            assert(list@[i as int] == x);
            return true;
        }
        i += 1;
    }
    false
}

/// Two ascending sequences of the same values are the same.
pub proof fn lemma_ascending_unique(a: Seq<u64>, b: Seq<u64>)
    requires
        ascending(a),
        ascending(b),
        a.to_set() == b.to_set(),
    ensures
        a == b,
    decreases a.len(),
{
    if a.len() == 0 {
        if b.len() > 0 {
            assert(b.to_set().contains(b[0]));
            assert(a.contains(b[0]));
        }
    } else {
        assert(a.to_set().contains(a.last())) by {
            assert(a.contains(a.last()));
        }
        assert(b.contains(a.last()));
        let j = b.index_of(a.last());
        assert(b.to_set().contains(b.last())) by {
            assert(b.contains(b.last()));
        }
        assert(a.contains(b.last()));
        let i = a.index_of(b.last());
        assert(a.last() == b.last());
        let x = a.drop_last();
        let y = b.drop_last();
        assert forall|v: u64| x.to_set().contains(v) <==> y.to_set().contains(v) by {
            if x.contains(v) {
                let k = x.index_of(v);
                assert(a[k] == v);
                assert(a.to_set().contains(v));
                let m = b.index_of(v);
                assert(b[m] == v);
                assert(y[m] == v);
            }
            if y.contains(v) {
                let k = y.index_of(v);
                assert(b[k] == v);
                assert(b.to_set().contains(v));
                let m = a.index_of(v);
                assert(a[m] == v);
                assert(x[m] == v);
            }
        }
        assert(x.to_set() =~= y.to_set());
        lemma_ascending_unique(x, y);
        assert(a =~= x.push(a.last()));
        assert(b =~= y.push(b.last()));
    }
}

/// The members of a set in ascending order.
pub open spec fn ordered(s: Set<u64>) -> Seq<u64> {
    choose|q: Seq<u64>| ascending(q) && q.to_set() == s
}

/// An ascending sequence of the members of a set is the one that `ordered` names.
pub proof fn lemma_ordered(q: Seq<u64>)
    requires
        ascending(q),
    ensures
        ordered(q.to_set()) == q,
{
    let p = ordered(q.to_set());
    assert(ascending(p) && p.to_set() == q.to_set());
    lemma_ascending_unique(p, q);
}

/// Whether a vertex stands before another where higher degrees come first and vertices of one
/// degree keep the order of the storage.
pub open spec fn ranks_before(n: Network, a: u64, b: u64) -> bool {
    ||| n.degree(a) > n.degree(b)
    ||| n.degree(a) == n.degree(b) && n.vertices.index_of(a) < n.vertices.index_of(b)
}

/// Whether a list holds every vertex with its degree, by rank.
pub open spec fn is_ranking(n: Network, r: Seq<(u64, usize)>) -> bool {
    &&& r.len() == n.vertices.len()
    &&& forall|i: int| 0 <= i < r.len() ==> n.vertices.contains((#[trigger] r[i]).0) && r[i].1 == n.degree(r[i].0)
    &&& forall|i: int, j: int| 0 <= i < j < r.len() ==> ranks_before(n, (#[trigger] r[i]).0, (#[trigger] r[j]).0)
}

/// Degree centrality: the vertices sorted by degree (in + out), the highest first.
pub fn degree_centrality(g: &Graph) -> (r: Vec<(u64, usize)>)
    ensures
        is_ranking(g@, r@),
{
    let all = g.vertices();
    let ghost n = g@;
    let mut r: Vec<(u64, usize)> = Vec::new();
    let mut i: usize = 0;
    while i < all.len()
        invariant
            n == g@,
            n.wf(),
            all@ == n.vertices,
            i <= all@.len(),
            r@.len() == i,
            forall|a: int|
                0 <= a < i ==> n.vertices.contains((#[trigger] r@[a]).0) && n.vertices.index_of(r@[a].0) < i && r@[a].1
                    == n.degree(r@[a].0),
            forall|a: int, b: int| 0 <= a < b < i ==> ranks_before(n, (#[trigger] r@[a]).0, (#[trigger] r@[b]).0),
        decreases all@.len() - i,
    {
        let v: u64 = all[i];
        let d: usize = g.neighbors(v).len();
        let ghost s = r@;
        let mut k: usize = r.len();
        while k > 0 && r[k - 1].1 < d
            invariant
                r@ == s,
                k <= s.len(),
                forall|a: int| k <= a < s.len() ==> (#[trigger] s[a]).1 < d,
            decreases k,
        {
            k -= 1;
        }
        r.insert(k, (v, d));
        proof {
            let t = r@;
            assert(t =~= s.insert(k as int, (v, d)));
            assert(n.vertices[i as int] == v);
            assert(n.vertices.contains(v));
            assert(n.vertices.index_of(v) == i);
            assert forall|a: int| 0 <= a < t.len() implies n.vertices.contains((#[trigger] t[a]).0) && n.vertices.index_of(t[a].0)
                < i + 1 && t[a].1 == n.degree(t[a].0) by {
                if a < k {
                    assert(t[a] == s[a]);
                } else if a > k {
                    assert(t[a] == s[a - 1]);
                }
            }
            assert forall|a: int, b: int| 0 <= a < b < t.len() implies ranks_before(
                n,
                (#[trigger] t[a]).0,
                (#[trigger] t[b]).0,
            ) by {
                if b < k {
                    assert(t[a] == s[a] && t[b] == s[b]);
                } else if b == k {
                    assert(t[a] == s[a]);
                    if a < k - 1 {
                        assert(ranks_before(n, s[a].0, s[k - 1].0));
                    }
                    assert(s[k - 1].1 >= d);
                } else if a < k {
                    assert(t[a] == s[a] && t[b] == s[b - 1]);
                } else if a == k {
                    assert(t[b] == s[b - 1]);
                } else {
                    assert(t[a] == s[a - 1] && t[b] == s[b - 1]);
                }
            }
        }
        i += 1;
    }
    r
}

/// A ranking holds every vertex once.
pub proof fn ranking_holds_every_vertex(n: Network, r: Seq<(u64, usize)>)
    requires
        n.wf(),
        is_ranking(n, r),
    ensures
        r.map_values(|p: (u64, usize)| p.0).no_duplicates(),
        r.map_values(|p: (u64, usize)| p.0).to_set() == n.vertices.to_set(),
{
    let line = r.map_values(|p: (u64, usize)| p.0);
    assert forall|i: int, j: int| 0 <= i < line.len() && 0 <= j < line.len() && i != j implies line[i] != line[j] by {
        if i < j {
            assert(ranks_before(n, r[i].0, r[j].0));
        } else {
            assert(ranks_before(n, r[j].0, r[i].0));
        }
    }
    line.unique_seq_to_set();
    n.vertices.unique_seq_to_set();
    assert(line.to_set().subset_of(n.vertices.to_set())) by {
        assert forall|v: u64| line.to_set().contains(v) implies n.vertices.to_set().contains(v) by {
            let i = line.index_of(v);
            assert(n.vertices.contains(r[i].0));
        }
    }
    vstd::set_lib::lemma_subset_equality(line.to_set(), n.vertices.to_set());
}

} // verus!
