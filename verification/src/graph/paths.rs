//! Counts of paths. Edges are taken in both directions.
use std::collections::HashMap;

use vstd::prelude::*;

use crate::graph::centrality::for_each_vertex;
use crate::graph::{lemma_neighbors, Graph, Network};

verus! {

broadcast use vstd::std_specs::hash::group_hash_axioms;

/// The number of ways to follow `k` edges from a vertex.
pub open spec fn path_count(n: Network, v: u64, k: nat) -> nat
    decreases k, 1int, 0nat,
{
    if k == 0 {
        1
    } else {
        counts_behind(n, v, n.neighbors(v).len(), (k - 1) as nat)
    }
}

/// The number of ways to follow one of the first `j` edge ends at a vertex, and then `k` edges.
pub open spec fn counts_behind(n: Network, v: u64, j: nat, k: nat) -> nat
    decreases k, 2int, j,
{
    if j == 0 {
        0
    } else {
        counts_behind(n, v, (j - 1) as nat, k) + path_count(n, n.neighbors(v)[j - 1], k)
    }
}

proof fn lemma_counts_grow(n: Network, v: u64, i: nat, j: nat, k: nat)
    requires
        i <= j,
    ensures
        counts_behind(n, v, i, k) <= counts_behind(n, v, j, k),
    decreases j - i,
{
    if i < j {
        lemma_counts_grow(n, v, i, (j - 1) as nat, k);
    }
}

/// Whether the numbers of paths up to a length fit in a machine word.
pub open spec fn counts_fit(n: Network, k: nat) -> bool {
    forall|v: u64, j: nat| n.vertices.contains(v) && j <= k ==> #[trigger] path_count(n, v, j) <= usize::MAX
}

/// Whether a map holds the number of paths from each vertex.
pub open spec fn holds_counts(n: Network, m: Map<u64, usize>, k: nat) -> bool {
    for_each_vertex(n, m) && forall|v: u64| #[trigger] m.contains_key(v) ==> m[v] == path_count(n, v, k)
}

/// Count all paths of length exactly `k` from each vertex.
/// Returns a map from vertex to the number of paths of length k.
pub fn count_paths_of_length(g: &Graph, k: usize) -> (r: HashMap<u64, usize>)
    requires
        counts_fit(g@, k as nat),
    ensures
        holds_counts(g@, r@, k as nat),
{
    let all = g.vertices();
    let ghost n = g@;
    let mut dp: HashMap<u64, usize> = HashMap::new();
    let mut i: usize = 0;
    while i < all.len()
        invariant
            all@ == n.vertices,
            i <= all@.len(),
            forall|v: u64| #[trigger] dp@.contains_key(v) <==> exists|j: int| 0 <= j < i && all@[j] == v,
            forall|v: u64| #[trigger] dp@.contains_key(v) ==> dp@[v] == 1,
        decreases all@.len() - i,
    {
        dp.insert(all[i], 1);
        i += 1;
    }
    assert(dp@.dom() =~= n.vertices.to_set());
    let mut step: usize = 0;
    while step < k
        invariant
            n == g@,
            n.wf(),
            all@ == n.vertices,
            step <= k,
            counts_fit(n, k as nat),
            holds_counts(n, dp@, step as nat),
        decreases k - step,
    {
        let mut next: HashMap<u64, usize> = HashMap::new();
        let mut i: usize = 0;
        while i < all.len()
            invariant
                n == g@,
                n.wf(),
                all@ == n.vertices,
                i <= all@.len(),
                step < k,
                counts_fit(n, k as nat),
                holds_counts(n, dp@, step as nat),
                forall|v: u64| #[trigger] next@.contains_key(v) <==> exists|j: int| 0 <= j < i && all@[j] == v,
                forall|v: u64| #[trigger] next@.contains_key(v) ==> next@[v] == path_count(n, v, (step + 1) as nat),
            decreases all@.len() - i,
        {
            let v: u64 = all[i];
            let list = g.neighbors(v);
            let mut count: usize = 0;
            let mut j: usize = 0;
            assert(n.vertices.contains(v));
            assert(path_count(n, v, (step + 1) as nat) <= usize::MAX);
            while j < list.len()
                invariant
                    n == g@,
                    n.wf(),
                    list@ == n.neighbors(v),
                    j <= list@.len(),
                    path_count(n, v, (step + 1) as nat) <= usize::MAX,
                    holds_counts(n, dp@, step as nat),
                    count == counts_behind(n, v, j as nat, step as nat),
                decreases list@.len() - j,
            {
                proof {
                    let x = list@[j as int];
                    lemma_neighbors(n, v, x);
                    assert(list@.contains(x));
                    assert(n.vertices.to_set().contains(x));
                    assert(dp@.contains_key(x));
                    lemma_counts_grow(n, v, (j + 1) as nat, list@.len(), step as nat);
                }
                let c: usize = match dp.get(&list[j]) {
                    Some(c) => *c,
                    None => 0,
                };
                count += c;
                j += 1;
            }
            next.insert(v, count);
            i += 1;
        }
        assert(next@.dom() =~= n.vertices.to_set());
        dp = next;
        step += 1;
    }
    dp
}

} // verus!
