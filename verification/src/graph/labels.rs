//! Label propagation community detection (Raghavan et al., 2007).
//!
//! Fast near-linear time algorithm that propagates the most frequent
//! neighbor label to each vertex until convergence.
use std::collections::HashMap;

use vstd::prelude::*;

use crate::graph::centrality::for_each_vertex;
use crate::graph::order::{ascending, holds, insert_ascending, lemma_ordered, ordered};
use crate::graph::{lemma_neighbors, Graph, Network};

verus! {

broadcast use vstd::std_specs::hash::group_hash_axioms;

/// How often a label stands at the first `k` vertices of a list.
pub open spec fn label_count(list: Seq<u64>, labels: Map<u64, u64>, k: nat, l: u64) -> nat
    decreases k,
{
    if k == 0 {
        0
    } else {
        label_count(list, labels, (k - 1) as nat, l) + if labels[list[k - 1]] == l {
            1nat
        } else {
            0nat
        }
    }
}

/// Whether a label is the most frequent one on a list, and the smallest of these.
pub open spec fn is_best_label(list: Seq<u64>, labels: Map<u64, u64>, l: u64) -> bool {
    &&& label_count(list, labels, list.len(), l) > 0
    &&& forall|m: u64|
        #![trigger label_count(list, labels, list.len(), m)]
        {
            let a = label_count(list, labels, list.len(), l);
            let b = label_count(list, labels, list.len(), m);
            b < a || (b == a && l <= m)
        }
}

/// The most frequent label on a list, the smallest of those.
pub open spec fn best_label(list: Seq<u64>, labels: Map<u64, u64>) -> u64 {
    choose|l: u64| is_best_label(list, labels, l)
}

proof fn lemma_best_label(list: Seq<u64>, labels: Map<u64, u64>, l: u64)
    requires
        is_best_label(list, labels, l),
    ensures
        best_label(list, labels) == l,
{
    let m = best_label(list, labels);
    assert(is_best_label(list, labels, m));
    assert(label_count(list, labels, list.len(), m) > 0);
    assert(label_count(list, labels, list.len(), l) > 0);
}

/// The labels after the first `k` vertices have taken the best label around them.
pub open spec fn labels_after(n: Network, labels: Map<u64, u64>, k: nat) -> Map<u64, u64>
    decreases k,
{
    if k == 0 {
        labels
    } else {
        let before = labels_after(n, labels, (k - 1) as nat);
        let v = n.vertices[k - 1];
        if n.neighbors(v).len() == 0 {
            before
        } else {
            before.insert(v, best_label(n.neighbors(v), before))
        }
    }
}

/// The labels after up to `k` rounds over all vertices; a round that changes nothing is the last.
pub open spec fn labels_settled(n: Network, labels: Map<u64, u64>, k: nat) -> Map<u64, u64>
    decreases k,
{
    if k == 0 {
        labels
    } else {
        let next = labels_after(n, labels, n.vertices.len());
        if next == labels {
            labels
        } else {
            labels_settled(n, next, (k - 1) as nat)
        }
    }
}

/// The labels at the start: each vertex has its position.
pub open spec fn own_labels(n: Network) -> Map<u64, u64> {
    Map::new(|v: u64| n.vertices.contains(v), |v: u64| n.vertices.index_of(v) as u64)
}

/// The labels that are in use.
pub open spec fn labels_used(labels: Map<u64, u64>) -> Set<u64> {
    Set::new(|l: u64| is_used(labels, l))
}

pub open spec fn is_used(labels: Map<u64, u64>, l: u64) -> bool {
    exists|v: u64| #[trigger] labels.contains_key(v) && labels[v] == l
}

pub(crate) fn label_of(labels: &HashMap<u64, u64>, v: u64) -> (r: u64)
    requires
        labels@.contains_key(v),
    ensures
        r == labels@[v],
{
    match labels.get(&v) {
        Some(l) => *l,
        None => 0,
    }
}

pub(crate) proof fn lemma_label_counted(list: Seq<u64>, labels: Map<u64, u64>, k: nat, l: u64)
    requires
        k <= list.len(),
    ensures
        label_count(list, labels, k, l) <= k,
        label_count(list, labels, k, l) > 0 <==> exists|i: int| 0 <= i < k && labels[#[trigger] list[i]] == l,
    decreases k,
{
    if k > 0 {
        lemma_label_counted(list, labels, (k - 1) as nat, l);
        if label_count(list, labels, k, l) > 0 {
            if labels[list[k - 1]] != l {
                let i = choose|i: int| 0 <= i < k - 1 && labels[#[trigger] list[i]] == l;
                assert(0 <= i < k && labels[list[i]] == l);
            }
        }
        if exists|i: int| 0 <= i < k && labels[#[trigger] list[i]] == l {
            let i = choose|i: int| 0 <= i < k && labels[#[trigger] list[i]] == l;
            if i < k - 1 {
                assert(0 <= i < k - 1 && labels[list[i]] == l);
            }
        }
    }
}

fn count_label(list: &Vec<u64>, labels: &HashMap<u64, u64>, l: u64) -> (r: usize)
    requires
        forall|i: int| 0 <= i < list@.len() ==> labels@.contains_key(#[trigger] list@[i]),
    ensures
        r == label_count(list@, labels@, list@.len(), l),
{
    let mut r: usize = 0;
    let mut i: usize = 0;
    while i < list.len()
        invariant
            forall|j: int| 0 <= j < list@.len() ==> labels@.contains_key(#[trigger] list@[j]),
            i <= list@.len(),
            r <= i,
            r == label_count(list@, labels@, i as nat, l),
        decreases list@.len() - i,
    {
        if label_of(labels, list[i]) == l {
            r += 1;
        }
        i += 1;
    }
    r
}

fn find_best_label(list: &Vec<u64>, labels: &HashMap<u64, u64>) -> (r: u64)
    requires
        list@.len() > 0,
        forall|i: int| 0 <= i < list@.len() ==> labels@.contains_key(#[trigger] list@[i]),
    ensures
        r == best_label(list@, labels@),
{
    let ghost size = list@.len();
    let mut best: u64 = label_of(labels, list[0]);
    let mut most: usize = count_label(list, labels, best);
    let mut i: usize = 1;
    proof {
        assert(labels@[list@[0]] == best);
        lemma_label_counted(list@, labels@, size, best);
    }
    while i < list.len()
        invariant
            size == list@.len(),
            forall|j: int| 0 <= j < size ==> labels@.contains_key(#[trigger] list@[j]),
            1 <= i <= size,
            most > 0,
            most == label_count(list@, labels@, size, best),
            forall|j: int|
                0 <= j < i ==> {
                    let b = label_count(list@, labels@, size, labels@[#[trigger] list@[j]]);
                    b < most || (b == most && best <= labels@[list@[j]])
                },
        decreases size - i,
    {
        let l: u64 = label_of(labels, list[i]);
        let count: usize = count_label(list, labels, l);
        if count > most || (count == most && l < best) {
            most = count;
            best = l;
        }
        i += 1;
    }
    proof {
        assert forall|m: u64|
            #![trigger label_count(list@, labels@, size, m)]
            {
                let b = label_count(list@, labels@, size, m);
                b < most || (b == most && best <= m)
            } by {
            lemma_label_counted(list@, labels@, size, m);
            if label_count(list@, labels@, size, m) > 0 {
                let j = choose|j: int| 0 <= j < size && labels@[#[trigger] list@[j]] == m;
                assert(labels@[list@[j]] == m);
            }
        }
        lemma_best_label(list@, labels@, best);
    }
    best
}

proof fn lemma_labels_keep_domain(n: Network, labels: Map<u64, u64>, k: nat)
    requires
        labels.dom() == n.vertices.to_set(),
        k <= n.vertices.len(),
    ensures
        labels_after(n, labels, k).dom() == n.vertices.to_set(),
    decreases k,
{
    if k > 0 {
        lemma_labels_keep_domain(n, labels, (k - 1) as nat);
        let before = labels_after(n, labels, (k - 1) as nat);
        let v = n.vertices[k - 1];
        assert(n.vertices.contains(v));
        assert(before.insert(v, best_label(n.neighbors(v), before)).dom() =~= n.vertices.to_set());
    }
}

/// A vertex that has not yet had its turn keeps its label.
proof fn lemma_label_waits(n: Network, labels: Map<u64, u64>, k: nat, j: int)
    requires
        n.wf(),
        k <= j < n.vertices.len(),
    ensures
        labels_after(n, labels, k)[n.vertices[j]] == labels[n.vertices[j]],
    decreases k,
{
    if k > 0 {
        lemma_label_waits(n, labels, (k - 1) as nat, j);
    }
}

/// Gives each vertex its position as its label.
pub(crate) fn take_own_labels(g: &Graph) -> (labels: HashMap<u64, u64>)
    ensures
        labels@ == own_labels(g@),
        labels@.dom() == g@.vertices.to_set(),
{
    let all = g.vertices();
    let ghost n = g@;
    let mut labels: HashMap<u64, u64> = HashMap::new();
    let mut i: usize = 0;
    while i < all.len()
        invariant
            n == g@,
            n.wf(),
            all@ == n.vertices,
            i <= all@.len(),
            forall|v: u64| #[trigger] labels@.contains_key(v) <==> exists|j: int| 0 <= j < i && all@[j] == v,
            forall|j: int| 0 <= j < i ==> labels@[#[trigger] all@[j]] == j,
        decreases all@.len() - i,
    {
        labels.insert(all[i], i as u64);
        i += 1;
    }
    proof {
        assert forall|v: u64| labels@.contains_key(v) implies labels@[v] == own_labels(n)[v] by {
            let j = choose|j: int| 0 <= j < i && all@[j] == v;
            assert(n.vertices.contains(v));
            assert(n.vertices.index_of(v) == j);
            assert(labels@[all@[j]] == j);
        }
        assert forall|v: u64| n.vertices.contains(v) implies labels@.contains_key(v) by {
            assert(all@[n.vertices.index_of(v)] == v);
        }
        assert(labels@ =~= own_labels(n));
        assert(labels@.dom() =~= n.vertices.to_set());
    }
    labels
}

/// The labels of a graph once they have settled, or after a number of rounds.
pub fn propagate(g: &Graph, rounds: usize) -> (labels: HashMap<u64, u64>)
    ensures
        labels@ == labels_settled(g@, own_labels(g@), rounds as nat),
        for_each_vertex(g@, labels@),
{
    let all = g.vertices();
    let ghost n = g@;
    let mut labels = take_own_labels(g);
    let ghost whole = labels_settled(n, labels@, rounds as nat);
    let mut changed = true;
    let mut round: usize = 0;
    while changed && round < rounds
        invariant
            n == g@,
            n.wf(),
            all@ == n.vertices,
            round <= rounds,
            labels@.dom() == n.vertices.to_set(),
            changed ==> whole == labels_settled(n, labels@, (rounds - round) as nat),
            !changed ==> whole == labels@,
        decreases rounds - round,
    {
        let ghost start = labels@;
        changed = false;
        round += 1;
        let mut i: usize = 0;
        while i < all.len()
            invariant
                n == g@,
                n.wf(),
                all@ == n.vertices,
                i <= all@.len(),
                start.dom() == n.vertices.to_set(),
                labels@.dom() == n.vertices.to_set(),
                labels@ == labels_after(n, start, i as nat),
                changed <==> labels@ != start,
                forall|j: int| 0 <= j < i && !changed ==> labels@[#[trigger] all@[j]] == start[all@[j]],
                changed ==> exists|j: int| 0 <= j < i && labels@[#[trigger] all@[j]] != start[all@[j]],
            decreases all@.len() - i,
        {
            let v: u64 = all[i];
            let list = g.neighbors(v);
            let ghost before = labels@;
            assert(n.vertices.contains(v));
            if list.len() > 0 {
                proof {
                    assert forall|j: int| 0 <= j < list@.len() implies labels@.contains_key(#[trigger] list@[j]) by {
                        lemma_neighbors(n, v, list@[j]);
                        assert(list@.contains(list@[j]));
                        assert(n.vertices.to_set().contains(list@[j]));
                    }
                    assert(n.vertices.to_set().contains(v));
                    assert(labels@.contains_key(v));
                    lemma_label_waits(n, start, i as nat, i as int);
                }
                let best: u64 = find_best_label(&list, &labels);
                if label_of(&labels, v) != best {
                    labels.insert(v, best);
                    changed = true;
                    proof {
                        assert(labels@[all@[i as int]] != start[all@[i as int]]);
                    }
                } else {
                    assert(labels@.insert(v, best) =~= labels@);
                }
                proof {
                    lemma_labels_keep_domain(n, start, (i + 1) as nat);
                    if before != start {
                        let j = choose|j: int| 0 <= j < i && before[#[trigger] all@[j]] != start[all@[j]];
                        assert(all@[j] != v);
                        assert(labels@[all@[j]] != start[all@[j]]);
                    }
                }
            } else if changed {
                proof {
                    let j = choose|j: int| 0 <= j < i && labels@[#[trigger] all@[j]] != start[all@[j]];
                    assert(0 <= j < i + 1 && labels@[all@[j]] != start[all@[j]]);
                }
            }
            i += 1;
        }
    }
    labels
}

/// Label propagation community detection.
/// Returns a map from vertex to community id; the ids are contiguous.
pub fn label_propagation(g: &Graph, max_iterations: usize) -> (r: HashMap<u64, usize>)
    ensures
        for_each_vertex(g@, r@),
        forall|v: u64| #[trigger]
            r@.contains_key(v) ==> {
                let labels = labels_settled(g@, own_labels(g@), max_iterations as nat);
                r@[v] == ordered(labels_used(labels)).index_of(labels[v])
            },
{
    let all = g.vertices();
    let ghost n = g@;
    let labels = propagate(g, max_iterations);
    let mut used: Vec<u64> = Vec::new();
    let mut i: usize = 0;
    while i < all.len()
        invariant
            all@ == n.vertices,
            i <= all@.len(),
            labels@.dom() == n.vertices.to_set(),
            ascending(used@),
            forall|l: u64| #[trigger] used@.contains(l) <==> exists|j: int| 0 <= j < i && labels@[#[trigger] all@[j]] == l,
        decreases all@.len() - i,
    {
        proof {
            assert(n.vertices.contains(all@[i as int]));
            assert(n.vertices.to_set().contains(all@[i as int]));
            assert(labels@.contains_key(all@[i as int]));
        }
        let l: u64 = label_of(&labels, all[i]);
        let ghost before = used@;
        if !holds(&used, l) {
            insert_ascending(&mut used, l);
            proof {
                assert forall|m: u64| #[trigger] used@.contains(m) <==> before.contains(m) || m == l by {
                    assert(used@.to_set().contains(m) <==> before.to_set().insert(l).contains(m));
                }
            }
        }
        assert(labels@[all@[i as int]] == l);
        i += 1;
    }
    proof {
        assert forall|l: u64| used@.to_set().contains(l) <==> labels_used(labels@).contains(l) by {
            if used@.contains(l) {
                let j = choose|j: int| 0 <= j < i && labels@[#[trigger] all@[j]] == l;
                assert(n.vertices.contains(all@[j]));
                assert(labels@.contains_key(all@[j]));
            }
            if is_used(labels@, l) {
                let v = choose|v: u64| #[trigger] labels@.contains_key(v) && labels@[v] == l;
                assert(n.vertices.to_set().contains(v));
                assert(all@[n.vertices.index_of(v)] == v);
            }
        }
        assert(used@.to_set() =~= labels_used(labels@));
        lemma_ordered(used@);
    }
    let mut r: HashMap<u64, usize> = HashMap::new();
    let mut i: usize = 0;
    while i < all.len()
        invariant
            all@ == n.vertices,
            i <= all@.len(),
            labels@.dom() == n.vertices.to_set(),
            ascending(used@),
            forall|j: int| 0 <= j < all@.len() ==> used@.contains(labels@[#[trigger] all@[j]]),
            forall|v: u64| #[trigger] r@.contains_key(v) <==> exists|j: int| 0 <= j < i && all@[j] == v,
            forall|v: u64| #[trigger] r@.contains_key(v) ==> r@[v] == used@.index_of(labels@[v]),
        decreases all@.len() - i,
    {
        let v: u64 = all[i];
        proof {
            assert(n.vertices.contains(v));
            assert(n.vertices.to_set().contains(v));
            assert(labels@.contains_key(v));
        }
        let l: u64 = label_of(&labels, v);
        assert(labels@[all@[i as int]] == l);
        let k: usize = position(&used, l);
        r.insert(v, k);
        i += 1;
    }
    assert(r@.dom() =~= n.vertices.to_set());
    r
}

fn position(list: &Vec<u64>, x: u64) -> (r: usize)
    requires
        ascending(list@),
        list@.contains(x),
    ensures
        r == list@.index_of(x),
{
    let mut i: usize = 0;
    while i < list.len() && list[i] != x
        invariant
            i <= list@.len(),
            forall|j: int| 0 <= j < i ==> list@[j] != x,
        decreases list@.len() - i,
    {
        i += 1;
    }
    proof {
        let k = list@.index_of(x);
        assert(list@[k] == x);
    }
    i
}

} // verus!
