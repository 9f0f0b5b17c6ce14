//! Strongly connected components (Tarjan's algorithm). Edges are followed in their direction.
use std::collections::HashMap;

use vstd::prelude::*;

use crate::graph::dag::{directed_walk, lemma_directed_last, lemma_directed_step};
use crate::graph::{lemma_neighbors, Graph, Network};

verus! {

broadcast use vstd::std_specs::hash::group_hash_axioms;

/// Whether edges lead from one vertex to another.
pub open spec fn reachable(n: Network, u: u64, v: u64) -> bool {
    exists|k: nat| directed_walk(n, u, v, k)
}

/// Whether two vertices can be reached from each other.
pub open spec fn mutual(n: Network, u: u64, v: u64) -> bool {
    reachable(n, u, v) && reachable(n, v, u)
}

proof fn lemma_join(n: Network, u: u64, w: u64, v: u64, a: nat, b: nat)
    requires
        directed_walk(n, u, w, a),
        directed_walk(n, w, v, b),
    ensures
        directed_walk(n, u, v, a + b),
    decreases b,
{
    if b > 0 {
        let x = lemma_directed_last(n, w, v, b);
        lemma_join(n, u, w, x, a, (b - 1) as nat);
        lemma_directed_step(n, u, x, v, (a + b - 1) as nat);
    }
}

/// Every vertex can be reached from itself, and what can be reached from a reachable vertex can be
/// reached.
pub proof fn reachability_is_a_preorder(n: Network, u: u64, w: u64, v: u64)
    ensures
        reachable(n, u, u),
        n.edge(u, v) ==> reachable(n, u, v),
        reachable(n, u, w) && reachable(n, w, v) ==> reachable(n, u, v),
{
    assert(directed_walk(n, u, u, 0));
    if n.edge(u, v) {
        lemma_directed_step(n, u, u, v, 0);
    }
    if reachable(n, u, w) && reachable(n, w, v) {
        let a = choose|k: nat| directed_walk(n, u, w, k);
        let b = choose|k: nat| directed_walk(n, w, v, k);
        lemma_join(n, u, w, v, a, b);
    }
}

/// A set that no edge leaves holds all that can be reached from it.
proof fn lemma_closed_set(n: Network, s: Set<u64>, u: u64, v: u64)
    requires
        s.contains(u),
        forall|a: u64, b: u64| s.contains(a) && #[trigger] n.edge(a, b) ==> s.contains(b),
        reachable(n, u, v),
    ensures
        s.contains(v),
{
    let k = choose|k: nat| directed_walk(n, u, v, k);
    lemma_closed_walk(n, s, u, v, k);
}

proof fn lemma_closed_walk(n: Network, s: Set<u64>, u: u64, v: u64, k: nat)
    requires
        s.contains(u),
        forall|a: u64, b: u64| s.contains(a) && #[trigger] n.edge(a, b) ==> s.contains(b),
        directed_walk(n, u, v, k),
    ensures
        s.contains(v),
    decreases k,
{
    if k > 0 {
        let w = lemma_directed_last(n, u, v, k);
        lemma_closed_walk(n, s, u, w, (k - 1) as nat);
    }
}

/// What the search holds: the number of each visited vertex, the visited vertices whose component
/// is still open, and the component of each other.
struct Tarjan {
    index: usize,
    stack: Vec<u64>,
    indices: HashMap<u64, usize>,
    comp: HashMap<u64, usize>,
    count: usize,
}

/// Whether each component that is done is numbered after those that edges lead to from it.
#[verifier::opaque]
spec fn done_well(n: Network, comp: Map<u64, usize>, count: usize) -> bool {
    &&& forall|u: u64, w: u64| comp.contains_key(u) && #[trigger] n.edge(u, w) ==> comp.contains_key(w) && comp[w] <= comp[u]
    &&& forall|u: u64, v: u64|
        comp.contains_key(u) && comp.contains_key(v) ==> (comp[u] == comp[v] <==> #[trigger] mutual(n, u, v))
    &&& forall|u: u64| #[trigger] comp.contains_key(u) ==> comp[u] < count
    &&& forall|c: usize| c < count ==> #[trigger] is_id(comp, c)
}

pub open spec fn is_id(comp: Map<u64, usize>, c: usize) -> bool {
    exists|v: u64| #[trigger] comp.contains_key(v) && comp[v] == c
}

/// Whether a vertex leads back to a vertex under way that was visited no later.
spec fn leads_under_way(n: Network, indices: Map<u64, usize>, gray: Set<u64>, y: u64) -> bool {
    exists|x: u64| #[trigger] gray.contains(x) && indices[x] <= indices[y] && reachable(n, y, x)
}

/// Which vertices are visited, on the stack and done. The vertices under way are `gray`.
spec fn sorted_out(n: Network, t: Tarjan, gray: Set<u64>) -> bool {
    let idx = t.indices@;
    let stack = t.stack@;
    &&& n.wf()
    &&& forall|v: u64| #[trigger] idx.contains_key(v) ==> n.vertices.contains(v) && idx[v] < t.index
    &&& idx.dom().finite()
    &&& t.index == idx.dom().len()
    &&& t.count <= t.comp@.dom().len()
    &&& t.comp@.dom().finite()
    &&& forall|v: u64| #[trigger] t.comp@.contains_key(v) ==> idx.contains_key(v)
    &&& forall|v: u64| #[trigger] stack.contains(v) <==> idx.contains_key(v) && !t.comp@.contains_key(v)
    &&& forall|x: u64| #[trigger] gray.contains(x) ==> stack.contains(x)
}

/// Whether the stack holds vertices in the order of their numbers.
#[verifier::opaque]
spec fn in_order(t: Tarjan) -> bool {
    forall|i: int, j: int| 0 <= i < j < t.stack@.len() ==> t.indices@[#[trigger] t.stack@[i]] < t.indices@[#[trigger] t.stack@[j]]
}

/// Whether each vertex on the stack can be reached from those below it.
#[verifier::opaque]
spec fn chained(n: Network, stack: Seq<u64>) -> bool {
    forall|i: int, j: int| 0 <= i <= j < stack.len() ==> reachable(n, #[trigger] stack[i], #[trigger] stack[j])
}

/// Whether each vertex on the stack leads back to one under way.
#[verifier::opaque]
spec fn all_lead_under_way(n: Network, t: Tarjan, gray: Set<u64>) -> bool {
    forall|i: int| 0 <= i < t.stack@.len() ==> leads_under_way(n, t.indices@, gray, #[trigger] t.stack@[i])
}

/// Whether the edges of each visited vertex that is not under way have been followed.
#[verifier::opaque]
spec fn followed(n: Network, idx: Map<u64, usize>, gray: Set<u64>) -> bool {
    forall|u: u64, w: u64| idx.contains_key(u) && !gray.contains(u) && #[trigger] n.edge(u, w) ==> idx.contains_key(w)
}

/// What is known of the search between two steps.
spec fn searching(n: Network, t: Tarjan, gray: Set<u64>) -> bool {
    &&& sorted_out(n, t, gray)
    &&& in_order(t)
    &&& done_well(n, t.comp@, t.count)
    &&& chained(n, t.stack@)
    &&& all_lead_under_way(n, t, gray)
    &&& followed(n, t.indices@, gray)
}

/// What a search keeps of what was there before.
spec fn extends(a: Tarjan, b: Tarjan) -> bool {
    &&& a.stack@.len() <= b.stack@.len()
    &&& b.stack@.take(a.stack@.len() as int) == a.stack@
    &&& forall|v: u64| #[trigger] a.indices@.contains_key(v) ==> b.indices@.contains_key(v) && b.indices@[v] == a.indices@[v]
    &&& forall|v: u64| #[trigger] b.indices@.contains_key(v) && !a.indices@.contains_key(v) ==> b.indices@[v] >= a.index
    &&& a.index <= b.index
}

/// Whether the edges from the vertices on the stack from a position on to those below a base lead
/// to numbers no lower than `low`.
#[verifier::opaque]
spec fn low_enough(n: Network, t: Tarjan, base: int, from: int, low: usize) -> bool {
    forall|i: int, j: int|
        from <= i < t.stack@.len() && 0 <= j < base && n.edge(#[trigger] t.stack@[i], #[trigger] t.stack@[j]) ==> low
            <= t.indices@[t.stack@[j]]
}

/// Whether a number is that of a vertex on the stack that can be reached from `v`.
spec fn is_reached_number(n: Network, t: Tarjan, v: u64, low: usize) -> bool {
    exists|y: u64| #[trigger] t.stack@.contains(y) && t.indices@[y] == low && reachable(n, v, y)
}

/// A new vertex is put on the stack.
proof fn lemma_open(n: Network, a: Tarjan, b: Tarjan, gray: Set<u64>, v: u64)
    requires
        searching(n, a, gray),
        n.vertices.contains(v),
        !a.indices@.contains_key(v),
        forall|x: u64| #[trigger] gray.contains(x) ==> reachable(n, x, v),
        b.stack@ == a.stack@.push(v),
        b.indices@ == a.indices@.insert(v, a.index),
        b.index == a.index + 1,
        b.comp@ == a.comp@,
        b.count == a.count,
    ensures
        searching(n, b, gray.insert(v)),
        extends(a, b),
        is_reached_number(n, b, v, a.index),
{
    reveal(in_order);
    reveal(chained);
    reveal(all_lead_under_way);
    reveal(followed);
    let idx = b.indices@;
    let stack = b.stack@;
    let old_stack = a.stack@;
    let under = gray.insert(v);
    assert(idx.dom() =~= a.indices@.dom().insert(v));
    assert forall|x: u64| #[trigger] stack.contains(x) <==> idx.contains_key(x) && !b.comp@.contains_key(x) by {
        if old_stack.contains(x) {
            assert(stack[old_stack.index_of(x)] == x);
        }
        if x == v {
            assert(stack[old_stack.len() as int] == v);
        }
        if stack.contains(x) && x != v {
            assert(old_stack[stack.index_of(x)] == x);
        }
    }
    assert forall|i: int, j: int| 0 <= i < j < stack.len() implies idx[#[trigger] stack[i]] < idx[#[trigger] stack[j]] by {
        assert(old_stack.contains(old_stack[i]));
        if j < old_stack.len() {
            assert(old_stack.contains(old_stack[j]));
        }
    }
    assert forall|i: int, j: int| 0 <= i <= j < stack.len() implies reachable(n, #[trigger] stack[i], #[trigger] stack[j]) by {
        reachability_is_a_preorder(n, v, v, v);
        if i < old_stack.len() && j == old_stack.len() {
            let y = old_stack[i];
            assert(leads_under_way(n, a.indices@, gray, old_stack[i]));
            let x = choose|x: u64| #[trigger] gray.contains(x) && a.indices@[x] <= a.indices@[y] && reachable(n, y, x);
            reachability_is_a_preorder(n, y, x, v);
        } else if j < old_stack.len() {
            assert(reachable(n, old_stack[i], old_stack[j]));
        }
    }
    assert forall|x: u64| #[trigger] under.contains(x) implies stack.contains(x) by {
        if x != v {
            assert(old_stack.contains(x));
        }
    }
    assert forall|i: int| 0 <= i < stack.len() implies leads_under_way(n, idx, under, #[trigger] stack[i]) by {
        if i < old_stack.len() {
            let y = old_stack[i];
            assert(old_stack.contains(y));
            assert(leads_under_way(n, a.indices@, gray, old_stack[i]));
            let x = choose|x: u64| #[trigger] gray.contains(x) && a.indices@[x] <= a.indices@[y] && reachable(n, y, x);
            assert(old_stack.contains(x));
            assert(under.contains(x));
        } else {
            reachability_is_a_preorder(n, v, v, v);
            assert(under.contains(v));
        }
    }
    assert(stack.take(old_stack.len() as int) =~= old_stack);
    assert(stack.contains(v));
    reachability_is_a_preorder(n, v, v, v);
}

/// What is known of the vertices on the stack from a base on.
proof fn lemma_part(n: Network, t: Tarjan, gray: Set<u64>, v: u64, base: int)
    requires
        searching(n, t, gray),
        0 <= base < t.stack@.len(),
        t.stack@[base] == v,
    ensures
        t.stack@.skip(base).to_set().contains(v),
        forall|x: u64| #[trigger]
            t.stack@.skip(base).to_set().contains(x) ==> t.stack@.contains(x) && t.indices@[x] >= t.indices@[v] && reachable(n, v, x),
        forall|x: u64| #[trigger]
            t.stack@.take(base).contains(x) ==> !t.stack@.skip(base).to_set().contains(x) && t.indices@[x] < t.indices@[v]
                && t.stack@.contains(x),
        forall|x: u64| #[trigger]
            t.stack@.contains(x) ==> t.stack@.take(base).contains(x) || t.stack@.skip(base).to_set().contains(x),
{
    reveal(in_order);
    reveal(chained);
    let full = t.stack@;
    let part = full.skip(base);
    let idx = t.indices@;
    assert(part[0] == v);
    assert forall|x: u64| #[trigger] part.to_set().contains(x) implies full.contains(x) && idx[x] >= idx[v] && reachable(n, v, x) by {
        let k = part.index_of(x);
        assert(full[base + k] == x);
        assert(reachable(n, full[base], full[base + k]));
        if k > 0 {
            assert(idx[full[base]] < idx[full[base + k]]);
        }
    }
    assert forall|x: u64| #[trigger] full.take(base).contains(x) implies !part.to_set().contains(x) && idx[x] < idx[v] && full.contains(x) by {
        let k = full.take(base).index_of(x);
        assert(full[k] == x);
        assert(idx[full[k]] < idx[full[base]]);
    }
    assert forall|x: u64| #[trigger] full.contains(x) implies full.take(base).contains(x) || part.to_set().contains(x) by {
        let k = full.index_of(x);
        if k >= base {
            assert(part[k - base] == x);
        } else {
            assert(full.take(base)[k] == x);
        }
    }
}

/// No edge leads from the component to what stays on the stack.
proof fn lemma_part_closed(n: Network, t: Tarjan, gray: Set<u64>, v: u64, base: int)
    requires
        searching(n, t, gray.insert(v)),
        0 <= base < t.stack@.len(),
        t.stack@[base] == v,
        forall|x: u64| #[trigger] gray.contains(x) ==> t.stack@.take(base).contains(x),
        forall|w: u64| #[trigger] n.edge(v, w) ==> t.indices@.contains_key(w),
        low_enough(n, t, base, base, t.indices@[v]),
    ensures
        forall|x: u64, w: u64|
            (t.comp@.dom() + t.stack@.skip(base).to_set()).contains(x) && #[trigger] n.edge(x, w) ==> (t.comp@.dom()
                + t.stack@.skip(base).to_set()).contains(w),
{
    lemma_part(n, t, gray.insert(v), v, base);
    let c = t.stack@.skip(base).to_set();
    let full = t.stack@;
    let part = full.skip(base);
    let idx = t.indices@;
    let all = t.comp@.dom() + c;
    let under = gray.insert(v);
    assert forall|x: u64, w: u64| all.contains(x) && #[trigger] n.edge(x, w) implies all.contains(w) by {
        if c.contains(x) {
            let k = part.index_of(x);
            assert(full[base + k] == x);
            assert(idx.contains_key(w)) by {
                if x != v {
                    assert(!under.contains(x)) by {
                        if gray.contains(x) {
                            assert(full.take(base).contains(x));
                        }
                    }
                    assert(full.contains(x));
                    reveal(followed);
                }
            }
            if !t.comp@.contains_key(w) {
                assert(full.contains(w));
                if full.take(base).contains(w) {
                    let j = full.take(base).index_of(w);
                    assert(full[j] == w);
                    assert(n.edge(full[base + k], full[j]));
                    reveal(low_enough);
                }
            }
        } else {
            reveal(done_well);
        }
    }
}

/// The vertices of the component lead back to the first of them.
proof fn lemma_part_leads_back(n: Network, t: Tarjan, gray: Set<u64>, v: u64, base: int)
    requires
        searching(n, t, gray.insert(v)),
        0 <= base < t.stack@.len(),
        t.stack@[base] == v,
        forall|x: u64| #[trigger] gray.contains(x) ==> t.stack@.take(base).contains(x),
        forall|x: u64, w: u64|
            (t.comp@.dom() + t.stack@.skip(base).to_set()).contains(x) && #[trigger] n.edge(x, w) ==> (t.comp@.dom()
                + t.stack@.skip(base).to_set()).contains(w),
    ensures
        forall|x: u64| #[trigger] t.stack@.skip(base).to_set().contains(x) ==> reachable(n, x, v),
{
    lemma_part(n, t, gray.insert(v), v, base);
    let full = t.stack@;
    let part = full.skip(base);
    let c = part.to_set();
    let idx = t.indices@;
    let under = gray.insert(v);
    assert forall|x: u64| #[trigger] c.contains(x) implies reachable(n, x, v) by {
        let k = part.index_of(x);
        assert(full[base + k] == x);
        assert(leads_under_way(n, idx, under, full[base + k])) by {
            reveal(all_lead_under_way);
        }
        let y = choose|y: u64| #[trigger] under.contains(y) && idx[y] <= idx[x] && reachable(n, x, y);
        lemma_closed_set(n, t.comp@.dom() + c, x, y);
        assert(full.contains(y));
        if y != v {
            assert(full.take(base).contains(y));
        }
    }
}

/// A closed set of vertices that can all be reached from each other is a component.
proof fn lemma_done_grows(n: Network, done: Map<u64, usize>, now: Map<u64, usize>, count: usize, c: Set<u64>, v: u64)
    requires
        done_well(n, done, count),
        count < usize::MAX,
        now.dom() == done.dom() + c,
        c.contains(v),
        forall|x: u64| #[trigger] c.contains(x) ==> !done.contains_key(x) && now[x] == count && reachable(n, x, v) && reachable(n, v, x),
        forall|x: u64| #[trigger] done.contains_key(x) ==> now[x] == done[x],
        forall|x: u64, w: u64| (done.dom() + c).contains(x) && #[trigger] n.edge(x, w) ==> (done.dom() + c).contains(w),
    ensures
        done_well(n, now, (count + 1) as usize),
{
    reveal(done_well);
    assert forall|x: u64, y: u64| now.contains_key(x) && now.contains_key(y) implies (now[x] == now[y] <==> #[trigger] mutual(
        n,
        x,
        y,
    )) by {
        assert(now.dom().contains(x) && now.dom().contains(y));
        if c.contains(x) && c.contains(y) {
            reachability_is_a_preorder(n, x, v, y);
            reachability_is_a_preorder(n, y, v, x);
        } else if done.contains_key(x) && done.contains_key(y) {
            assert(done[x] == done[y] <==> mutual(n, x, y));
        } else if done.contains_key(x) {
            assert(done[x] < count);
            if reachable(n, x, y) {
                lemma_closed_set(n, done.dom(), x, y);
            }
        } else {
            assert(done[y] < count);
            if reachable(n, y, x) {
                lemma_closed_set(n, done.dom(), y, x);
            }
        }
    }
    assert forall|x: u64, w: u64| now.contains_key(x) && #[trigger] n.edge(x, w) implies now.contains_key(w) && now[w] <= now[x] by {
        assert((done.dom() + c).contains(x));
        assert((done.dom() + c).contains(w));
        if done.contains_key(w) {
            assert(done[w] < count);
        }
    }
    assert forall|x: u64| #[trigger] now.contains_key(x) implies now[x] < count + 1 by {
        assert((done.dom() + c).contains(x));
    }
    assert forall|k: usize| k < count + 1 implies #[trigger] is_id(now, k) by {
        if k == count {
            assert(now.contains_key(v) && now[v] == k);
        } else {
            assert(is_id(done, k));
            let x = choose|x: u64| #[trigger] done.contains_key(x) && done[x] == k;
            assert(now.contains_key(x));
        }
    }
}

/// The vertices from a base on are a component, and are taken off the stack.
proof fn lemma_close(n: Network, a: Tarjan, b: Tarjan, gray: Set<u64>, v: u64, base: int)
    requires
        searching(n, a, gray.insert(v)),
        0 <= base < a.stack@.len(),
        a.stack@[base] == v,
        a.count < usize::MAX,
        forall|x: u64| #[trigger] gray.contains(x) ==> a.stack@.take(base).contains(x),
        forall|w: u64| #[trigger] n.edge(v, w) ==> a.indices@.contains_key(w),
        low_enough(n, a, base, base, a.indices@[v]),
        b.stack@ == a.stack@.take(base),
        b.indices@ == a.indices@,
        b.index == a.index,
        b.count == a.count + 1,
        b.comp@.dom() == a.comp@.dom() + a.stack@.skip(base).to_set(),
        forall|x: u64| #[trigger] a.comp@.contains_key(x) ==> b.comp@[x] == a.comp@[x],
        forall|x: u64| #[trigger] b.comp@.contains_key(x) && !a.comp@.contains_key(x) ==> b.comp@[x] == a.count,
    ensures
        searching(n, b, gray),
        b.comp@.contains_key(v),
{
    let idx = a.indices@;
    let full = a.stack@;
    let c = full.skip(base).to_set();
    let done = a.comp@;
    let now = b.comp@;
    let under = gray.insert(v);
    lemma_part(n, a, under, v, base);
    lemma_part_closed(n, a, gray, v, base);
    lemma_part_leads_back(n, a, gray, v, base);
    assert forall|x: u64| #[trigger] c.contains(x) implies now.contains_key(x) by {
        assert(now.dom().contains(x));
    }
    lemma_done_grows(n, done, now, a.count, c, v);
    assert(now.dom().len() >= done.dom().len() + 1) by {
        vstd::set_lib::lemma_len_subset(done.dom().insert(v), now.dom());
    }
    assert(sorted_out(n, b, gray)) by {
        assert forall|x: u64| #[trigger] b.stack@.contains(x) <==> idx.contains_key(x) && !now.contains_key(x) by {
            assert(now.contains_key(x) <==> done.contains_key(x) || c.contains(x)) by {
                assert(now.dom().contains(x) <==> (done.dom() + c).contains(x));
            }
            assert(full.contains(x) <==> idx.contains_key(x) && !done.contains_key(x));
        }
        assert forall|x: u64| #[trigger] now.contains_key(x) implies idx.contains_key(x) by {
            assert(now.dom().contains(x));
        }
    }
    assert(in_order(b)) by {
        reveal(in_order);
    }
    assert(chained(n, b.stack@)) by {
        reveal(chained);
    }
    assert(all_lead_under_way(n, b, gray)) by {
        reveal(all_lead_under_way);
        assert forall|i: int| 0 <= i < b.stack@.len() implies leads_under_way(n, idx, gray, #[trigger] b.stack@[i]) by {
            let y = full[i];
            assert(leads_under_way(n, idx, under, full[i]));
            let x = choose|x: u64| #[trigger] under.contains(x) && idx[x] <= idx[y] && reachable(n, y, x);
            assert(full.take(base)[i] == y);
            assert(full.take(base).contains(y));
            assert(x != v);
            assert(gray.contains(x));
        }
    }
    assert(followed(n, idx, gray)) by {
        reveal(followed);
        assert forall|x: u64, w: u64| idx.contains_key(x) && !gray.contains(x) && #[trigger] n.edge(x, w) implies idx.contains_key(
            w,
        ) by {
            if x != v {
                assert(!under.contains(x));
            }
        }
    }
}

/// A vertex stays on the stack once all its edges have been followed.
proof fn lemma_leave_open(n: Network, t: Tarjan, gray: Set<u64>, v: u64, low: usize)
    requires
        searching(n, t, gray.insert(v)),
        t.stack@.contains(v),
        forall|x: u64| #[trigger] gray.contains(x) ==> t.stack@.contains(x),
        forall|w: u64| #[trigger] n.edge(v, w) ==> t.indices@.contains_key(w),
        low < t.indices@[v],
        is_reached_number(n, t, v, low),
    ensures
        searching(n, t, gray),
{
    reveal(all_lead_under_way);
    reveal(followed);
    let idx = t.indices@;
    let stack = t.stack@;
    let under = gray.insert(v);
    let y0 = choose|y: u64| #[trigger] stack.contains(y) && idx[y] == low && reachable(n, v, y);
    let k0 = stack.index_of(y0);
    assert(leads_under_way(n, idx, under, stack[k0]));
    let x0 = choose|x: u64| #[trigger] under.contains(x) && idx[x] <= idx[y0] && reachable(n, y0, x);
    assert(x0 != v);
    assert(gray.contains(x0));
    assert forall|i: int| 0 <= i < stack.len() implies leads_under_way(n, idx, gray, #[trigger] stack[i]) by {
        let y = stack[i];
        assert(leads_under_way(n, idx, under, stack[i]));
        let x = choose|x: u64| #[trigger] under.contains(x) && idx[x] <= idx[y] && reachable(n, y, x);
        if x == v {
            reachability_is_a_preorder(n, y, v, y0);
            reachability_is_a_preorder(n, y, y0, x0);
            assert(gray.contains(x0));
        } else {
            assert(gray.contains(x));
        }
    }
    assert forall|x: u64, w: u64| idx.contains_key(x) && !gray.contains(x) && #[trigger] n.edge(x, w) implies idx.contains_key(w) by {
        if x != v {
            assert(!under.contains(x));
        }
    }
}

proof fn lemma_extends(a: Tarjan, b: Tarjan, c: Tarjan)
    requires
        extends(a, b),
        extends(b, c),
    ensures
        extends(a, c),
{
    assert(c.stack@.take(a.stack@.len() as int) =~= a.stack@) by {
        assert(c.stack@.take(b.stack@.len() as int) == b.stack@);
        assert forall|i: int| 0 <= i < a.stack@.len() implies c.stack@[i] == a.stack@[i] by {
            assert(b.stack@.take(a.stack@.len() as int)[i] == b.stack@[i]);
            assert(c.stack@.take(b.stack@.len() as int)[i] == c.stack@[i]);
        }
    }
    assert forall|v: u64| #[trigger] c.indices@.contains_key(v) && !a.indices@.contains_key(v) implies c.indices@[v] >= a.index by {
        if b.indices@.contains_key(v) {
            assert(c.indices@[v] == b.indices@[v]);
        }
    }
}

proof fn lemma_room(n: Network, t: Tarjan, gray: Set<u64>, v: u64)
    requires
        searching(n, t, gray),
        n.vertices.contains(v),
        !t.indices@.contains_key(v),
    ensures
        t.index < n.vertices.len(),
{
    let all = n.vertices.to_set();
    n.vertices.unique_seq_to_set();
    let dom = t.indices@.dom();
    assert(dom.insert(v).subset_of(all));
    vstd::set_lib::lemma_len_subset(dom.insert(v), all);
}

fn number_of(m: &HashMap<u64, usize>, v: u64) -> (r: usize)
    requires
        m@.contains_key(v),
    ensures
        r == m@[v],
{
    match m.get(&v) {
        Some(x) => *x,
        None => 0,
    }
}

fn close_component(t: &mut Tarjan, base: usize, limit: usize)
    requires
        base <= old(t).stack@.len(),
        old(t).count < limit,
        old(t).comp@.dom().finite(),
    ensures
        final(t).stack@ == old(t).stack@.take(base as int),
        final(t).indices@ == old(t).indices@,
        final(t).index == old(t).index,
        final(t).count == old(t).count + 1,
        final(t).comp@.dom() == old(t).comp@.dom() + old(t).stack@.skip(base as int).to_set(),
        final(t).comp@.dom().finite(),
        forall|x: u64| #[trigger] old(t).comp@.contains_key(x) && !old(t).stack@.contains(x) ==> final(t).comp@[x] == old(t).comp@[x],
        forall|x: u64| #[trigger] old(t).stack@.skip(base as int).contains(x) ==> final(t).comp@[x] == old(t).count,
{
    let ghost full = t.stack@;
    let ghost done = t.comp@;
    let id: usize = t.count;
    assert(full.take(full.len() as int) =~= full);
    assert(full.skip(full.len() as int).to_set() =~= Set::empty());
    while t.stack.len() > base
        invariant
            base <= t.stack@.len() <= full.len(),
            t.stack@ == full.take(t.stack@.len() as int),
            t.indices@ == old(t).indices@,
            t.index == old(t).index,
            t.count == id,
            id == old(t).count,
            t.comp@.dom() =~= done.dom() + full.skip(t.stack@.len() as int).to_set(),
            t.comp@.dom().finite(),
            forall|x: u64| #[trigger] done.contains_key(x) && !full.contains(x) ==> t.comp@[x] == done[x],
            forall|x: u64| #[trigger] full.skip(t.stack@.len() as int).contains(x) ==> t.comp@[x] == id,
        decreases t.stack@.len(),
    {
        let ghost k = t.stack@.len() - 1;
        let ghost before = full.skip(k + 1);
        let ghost comp0 = t.comp@;
        match t.stack.pop() {
            Some(w) => {
                t.comp.insert(w, id);
                proof {
                    assert(w == full[k]);
                    assert(full.contains(full[k]));
                    assert(t.stack@ =~= full.take(k));
                    let after = full.skip(k);
                    assert(after[0] == w);
                    assert forall|x: u64| after.contains(x) <==> before.contains(x) || x == w by {
                        if before.contains(x) {
                            assert(after[before.index_of(x) + 1] == x);
                        }
                        if after.contains(x) && x != w {
                            assert(before[after.index_of(x) - 1] == x);
                        }
                    }
                    assert(after.to_set() =~= before.to_set().insert(w));
                    assert(t.comp@.dom() =~= done.dom() + after.to_set());
                }
            },
            None => {},
        }
    }
    t.count = id + 1;
}

/// Whether the first `j` vertices of a list that stand on the stack below a base have numbers no
/// lower than `low`.
#[verifier::opaque]
spec fn low_on_list(t: Tarjan, list: Seq<u64>, j: int, base: int, low: usize) -> bool {
    forall|k: int, p: int|
        0 <= k < j && 0 <= p < base && #[trigger] list[k] == #[trigger] t.stack@[p] ==> low <= t.indices@[t.stack@[p]]
}

/// What is known after the search from the vertex at position `j` of a list has returned.
proof fn lemma_after_call(
    n: Network,
    a: Tarjan,
    b: Tarjan,
    list: Seq<u64>,
    j: int,
    base: int,
    v: u64,
    w: u64,
    low0: usize,
    lw: usize,
    low: usize,
)
    requires
        0 <= base < a.stack@.len(),
        0 <= j < list.len(),
        list[j] == w,
        n.edge(v, w),
        forall|x: u64| #[trigger] a.stack@.contains(x) ==> a.indices@.contains_key(x),
        !a.indices@.contains_key(w),
        extends(a, b),
        low == if lw < low0 { lw } else { low0 },
        low0 <= a.index,
        b.comp@.contains_key(w) ==> lw == a.index,
        is_reached_number(n, a, v, low0),
        !b.comp@.contains_key(w) ==> is_reached_number(n, b, w, lw),
        low_enough(n, a, base, base + 1, low0),
        low_enough(n, b, a.stack@.len() as int, a.stack@.len() as int, lw),
        low_on_list(a, list, j, base, low0),
    ensures
        b.stack@[base] == a.stack@[base],
        base < b.stack@.len(),
        is_reached_number(n, b, v, low),
        low_enough(n, b, base, base + 1, low),
        low_on_list(b, list, j + 1, base, low),
{
    let len = a.stack@.len() as int;
    assert forall|i: int| 0 <= i < len implies b.stack@[i] == #[trigger] a.stack@[i] && b.indices@[a.stack@[i]] == a.indices@[a.stack@[i]] by {
        assert(b.stack@.take(len)[i] == b.stack@[i]);
        assert(a.stack@.contains(a.stack@[i]));
    }
    if low == low0 {
        let y = choose|y: u64| #[trigger] a.stack@.contains(y) && a.indices@[y] == low && reachable(n, v, y);
        let k = a.stack@.index_of(y);
        assert(b.stack@[k] == y);
        assert(b.stack@.contains(y));
    } else {
        let y = choose|y: u64| #[trigger] b.stack@.contains(y) && b.indices@[y] == low && reachable(n, w, y);
        reachability_is_a_preorder(n, v, v, w);
        reachability_is_a_preorder(n, v, w, y);
        assert(b.stack@.contains(y));
    }
    assert(low_enough(n, b, base, base + 1, low)) by {
        reveal(low_enough);
        assert forall|i: int, p: int|
            base + 1 <= i < b.stack@.len() && 0 <= p < base && n.edge(#[trigger] b.stack@[i], #[trigger] b.stack@[p]) implies low
            <= b.indices@[b.stack@[p]] by {
            assert(b.stack@[p] == a.stack@[p]);
            if i < len {
                assert(b.stack@[i] == a.stack@[i]);
                assert(n.edge(a.stack@[i], a.stack@[p]));
            }
        }
    }
    assert(low_on_list(b, list, j + 1, base, low)) by {
        reveal(low_on_list);
        assert forall|k: int, p: int| 0 <= k < j + 1 && 0 <= p < base && #[trigger] list[k] == #[trigger] b.stack@[p] implies low
            <= b.indices@[b.stack@[p]] by {
            assert(b.stack@[p] == a.stack@[p]);
            assert(a.stack@.contains(a.stack@[p]));
            if k < j {
                assert(list[k] == a.stack@[p]);
            }
        }
    }
}

fn strongconnect(g: &Graph, v: u64, t: &mut Tarjan, Ghost(gray): Ghost<Set<u64>>) -> (low: usize)
    requires
        searching(g@, *old(t), gray),
        g@.vertices.contains(v),
        !old(t).indices@.contains_key(v),
        forall|x: u64| #[trigger] gray.contains(x) ==> reachable(g@, x, v),
    ensures
        searching(g@, *final(t), gray),
        extends(*old(t), *final(t)),
        final(t).indices@.contains_key(v),
        final(t).indices@[v] == old(t).index,
        low <= old(t).index,
        final(t).comp@.contains_key(v) ==> low == old(t).index,
        !final(t).comp@.contains_key(v) ==> is_reached_number(g@, *final(t), v, low),
        low_enough(g@, *final(t), old(t).stack@.len() as int, old(t).stack@.len() as int, low),
    decreases g@.vertices.len() - old(t).indices@.dom().len(),
{
    let ghost n = g@;
    let ghost t0 = *t;
    let base: usize = t.stack.len();
    let own: usize = t.index;
    let total: usize = g.vertices().len();
    proof {
        lemma_room(n, t0, gray, v);
    }
    t.indices.insert(v, own);
    t.index = own + 1;
    t.stack.push(v);
    let ghost under = gray.insert(v);
    proof {
        lemma_open(n, t0, *t, gray, v);
        assert(t.indices@.dom() =~= t0.indices@.dom().insert(v));
    }
    let list = g.out_edges(v);
    let mut low: usize = own;
    let mut j: usize = 0;
    proof {
        reveal(low_enough);
        reveal(low_on_list);
    }
    while j < list.len()
        invariant
            n == g@,
            n.wf(),
            total == n.vertices.len(),
            under == gray.insert(v),
            list@ == n.out_of(v),
            j <= list@.len(),
            t0 == *old(t),
            base == t0.stack@.len(),
            own == t0.index,
            searching(n, t0, gray),
            !t0.indices@.contains_key(v),
            forall|x: u64| #[trigger] gray.contains(x) ==> reachable(n, x, v),
            searching(n, *t, under),
            extends(t0, *t),
            base < t.stack@.len(),
            t.stack@[base as int] == v,
            t.indices@.contains_key(v),
            t.indices@[v] == own,
            t.indices@.dom().len() > t0.indices@.dom().len(),
            low <= own,
            is_reached_number(n, *t, v, low),
            low_enough(n, *t, base as int, base + 1, low),
            forall|k: int| 0 <= k < j ==> t.indices@.contains_key(#[trigger] list@[k]),
            low_on_list(*t, list@, j as int, base as int, low),
        decreases list@.len() - j,
    {
        let w: u64 = list[j];
        let ghost t1 = *t;
        let ghost low0 = low;
        proof {
            lemma_neighbors(n, v, w);
            assert(list@.contains(w));
            reachability_is_a_preorder(n, v, v, w);
        }
        if !t.indices.contains_key(&w) {
            proof {
                assert forall|x: u64| #[trigger] under.contains(x) implies reachable(n, x, w) by {
                    if x != v {
                        assert(gray.contains(x));
                        reachability_is_a_preorder(n, x, v, w);
                    }
                }
            }
            proof {
                lemma_room(n, *t, under, w);
            }
            let lw: usize = strongconnect(g, w, t, Ghost(under));
            if lw < low {
                low = lw;
            }
            proof {
                lemma_extends(t0, t1, *t);
                lemma_after_call(n, t1, *t, list@, j as int, base as int, v, w, low0, lw, low);
                vstd::set_lib::lemma_len_subset(t1.indices@.dom(), t.indices@.dom());
            }
        } else if !t.comp.contains_key(&w) {
            let lw: usize = number_of(&t.indices, w);
            if lw < low {
                low = lw;
                assert(t.stack@.contains(w));
            }
            proof {
                reveal(low_on_list);
                reveal(low_enough);
            }
        } else {
            proof {
                reveal(low_on_list);
                assert forall|k: int, p: int|
                    0 <= k < j + 1 && 0 <= p < base && #[trigger] list@[k] == #[trigger] t.stack@[p] implies low
                    <= t.indices@[t.stack@[p]] by {
                    assert(t.stack@.contains(t.stack@[p]));
                }
            }
        }
        j += 1;
    }
    proof {
        assert forall|w: u64| #[trigger] n.edge(v, w) implies t.indices@.contains_key(w) by {
            lemma_neighbors(n, v, w);
            let k = list@.index_of(w);
            assert(t.indices@.contains_key(list@[k]));
        }
        assert(low_enough(n, *t, base as int, base as int, low)) by {
            reveal(low_enough);
            reveal(low_on_list);
            assert forall|i: int, p: int|
                base <= i < t.stack@.len() && 0 <= p < base && n.edge(#[trigger] t.stack@[i], #[trigger] t.stack@[p]) implies low
                <= t.indices@[t.stack@[p]] by {
                if i == base {
                    lemma_neighbors(n, v, t.stack@[p]);
                    let k = list@.index_of(t.stack@[p]);
                    assert(list@[k] == t.stack@[p]);
                }
            }
        }
        assert(t.stack@.take(base as int) == t0.stack@);
        assert(t.stack@.contains(t.stack@[base as int]));
        assert forall|x: u64| #[trigger] gray.contains(x) implies t.stack@.take(base as int).contains(x) && t.stack@.contains(x) by {
            assert(t0.stack@.contains(x));
            let k = t0.stack@.index_of(x);
            assert(t.stack@.take(base as int)[k] == x);
            assert(t.stack@[k] == x);
        }
    }
    let ghost t2 = *t;
    if low == own {
        proof {
            let done = t2.comp@.dom();
            assert(!done.contains(v));
            assert(done.insert(v).subset_of(t2.indices@.dom()));
            vstd::set_lib::lemma_len_subset(done.insert(v), t2.indices@.dom());
            let all = n.vertices.to_set();
            n.vertices.unique_seq_to_set();
            assert(t2.indices@.dom().subset_of(all));
            vstd::set_lib::lemma_len_subset(t2.indices@.dom(), all);
        }
        close_component(t, base, total);
        proof {
            let part = t2.stack@.skip(base as int);
            assert forall|x: u64| #[trigger] t2.comp@.contains_key(x) implies t.comp@[x] == t2.comp@[x] by {
                assert(!t2.stack@.contains(x));
            }
            assert forall|x: u64| #[trigger] t.comp@.contains_key(x) && !t2.comp@.contains_key(x) implies t.comp@[x] == t2.count by {
                assert(part.to_set().contains(x));
                assert(part.contains(x));
            }
            lemma_close(n, t2, *t, gray, v, base as int);
            assert(t.stack@ == t0.stack@);
            assert(t.stack@.take(base as int) =~= t0.stack@);
            assert(low_enough(n, *t, base as int, base as int, low)) by {
                reveal(low_enough);
            }
        }
    } else {
        proof {
            lemma_leave_open(n, *t, gray, v, low);
        }
    }
    low
}

/// Whether a map tells the strongly connected components apart, and numbers them from zero on, each
/// after those that edges lead to from it.
pub open spec fn tells_strong_components(n: Network, m: Map<u64, usize>) -> bool {
    &&& m.dom() == n.vertices.to_set()
    &&& forall|u: u64, v: u64|
        m.contains_key(u) && m.contains_key(v) ==> (m[u] == m[v] <==> #[trigger] mutual(n, u, v))
    &&& forall|u: u64, v: u64| #[trigger] n.edge(u, v) ==> m[v] <= m[u]
    &&& forall|u: u64, c: usize| #[trigger] m.contains_key(u) && c <= m[u] ==> #[trigger] is_id(m, c)
}

/// Strongly connected components (Tarjan's algorithm).
/// Returns a map from vertex to component id.
pub fn scc(g: &Graph) -> (r: HashMap<u64, usize>)
    ensures
        tells_strong_components(g@, r@),
{
    let all = g.vertices();
    let ghost n = g@;
    let mut t = Tarjan {
        index: 0,
        stack: Vec::new(),
        indices: HashMap::new(),
        comp: HashMap::new(),
        count: 0,
    };
    let mut i: usize = 0;
    proof {
        reveal(in_order);
        reveal(chained);
        reveal(all_lead_under_way);
        reveal(followed);
        reveal(done_well);
    }
    while i < all.len()
        invariant
            n == g@,
            n.wf(),
            all@ == n.vertices,
            i <= all@.len(),
            searching(n, t, Set::empty()),
            forall|j: int| 0 <= j < i ==> t.indices@.contains_key(#[trigger] all@[j]),
        decreases all@.len() - i,
    {
        let v: u64 = all[i];
        let ghost t0 = t;
        assert(n.vertices.contains(v));
        if !t.indices.contains_key(&v) {
            let low: usize = strongconnect(g, v, &mut t, Ghost(Set::empty()));
        }
        assert forall|j: int| 0 <= j < i + 1 implies t.indices@.contains_key(#[trigger] all@[j]) by {
            if j < i {
                assert(t0.indices@.contains_key(all@[j]));
            }
        }
        i += 1;
    }
    proof {
        let comp = t.comp@;
        reveal(all_lead_under_way);
        reveal(done_well);
        if t.stack@.len() > 0 {
            assert(leads_under_way(n, t.indices@, Set::empty(), t.stack@[0]));
        }
        assert forall|v: u64| comp.dom().contains(v) <==> n.vertices.to_set().contains(v) by {
            if n.vertices.contains(v) {
                assert(all@[n.vertices.index_of(v)] == v);
                assert(t.indices@.contains_key(v));
                assert(!t.stack@.contains(v));
            }
            if comp.contains_key(v) {
                assert(t.indices@.contains_key(v));
            }
        }
        assert(comp.dom() =~= n.vertices.to_set());
        assert forall|u: u64, v: u64| #[trigger] n.edge(u, v) implies comp[v] <= comp[u] by {
            lemma_neighbors(n, u, v);
            assert(comp.dom().contains(u));
        }
        assert forall|u: u64, c: usize| #[trigger] comp.contains_key(u) && c <= comp[u] implies #[trigger] is_id(comp, c) by {
            assert(comp[u] < t.count);
        }
    }
    t.comp
}

} // verus!
