//! Scores that are computed over and over until they settle.
//!
//! Each sum and each score is rounded to a double as soon as it is made, by the function that reads
//! quantities.
use std::collections::HashMap;

use vstd::prelude::*;

use crate::graph::{lemma_neighbors, Graph, Network};
use crate::quantity::{bits_of, compared, reads, Compared, Quantity};

verus! {

broadcast use vstd::std_specs::hash::group_hash_axioms;

/// A score for each vertex.
pub type Scores = Map<u64, Quantity>;

/// The double that a quantity is read as.
pub open spec fn rounded<B: Fn(&Quantity) -> u64>(bits: B, q: Quantity) -> Quantity {
    Quantity::Bits(bits_of(bits, q))
}

/// Rounds a quantity to a double.
pub(crate) fn round<B: Fn(&Quantity) -> u64>(bits: &B, q: Quantity) -> (r: Quantity)
    requires
        reads(*bits),
    ensures
        r == rounded(*bits, q),
{
    Quantity::Bits(bits(&q))
}

/// The sum of a term over the first `k` vertices of a list.
pub open spec fn total<B: Fn(&Quantity) -> u64>(bits: B, list: Seq<u64>, term: spec_fn(u64) -> Quantity, k: nat) -> Quantity
    decreases k,
{
    if k == 0 {
        Quantity::Count(0)
    } else {
        rounded(bits, Quantity::sum(total(bits, list, term, (k - 1) as nat), term(list[k - 1])))
    }
}

/// A score for each vertex of a graph.
pub open spec fn scores_of(n: Network, f: spec_fn(u64) -> Quantity) -> Scores {
    Map::new(|v: u64| n.vertices.contains(v), f)
}

/// Whether a function may be asked for the term of each vertex of a list, and tells it.
pub open spec fn tells<T: Fn(u64) -> Quantity>(term: T, list: Seq<u64>, f: spec_fn(u64) -> Quantity) -> bool {
    &&& forall|i: int| 0 <= i < list.len() ==> call_requires(term, (#[trigger] list[i],))
    &&& forall|i: int, q: Quantity| 0 <= i < list.len() && #[trigger] call_ensures(term, (list[i],), q) ==> q == f(list[i])
}

/// Adds a term up over a list.
pub(crate) fn add_up<B: Fn(&Quantity) -> u64, T: Fn(u64) -> Quantity>(
    bits: &B,
    list: &Vec<u64>,
    term: &T,
    Ghost(f): Ghost<spec_fn(u64) -> Quantity>,
) -> (r: Quantity)
    requires
        reads(*bits),
        tells(*term, list@, f),
    ensures
        r == total(*bits, list@, f, list@.len()),
{
    let mut r = Quantity::Count(0);
    let mut i: usize = 0;
    while i < list.len()
        invariant
            reads(*bits),
            tells(*term, list@, f),
            i <= list@.len(),
            r == total(*bits, list@, f, i as nat),
        decreases list@.len() - i,
    {
        let q = term(list[i]);
        assert(call_ensures(*term, (list@[i as int],), q));
        r = round(bits, r.plus(q));
        i += 1;
    }
    r
}

/// Gives each vertex a score.
pub(crate) fn score_all<T: Fn(u64) -> Quantity>(
    g: &Graph,
    value: &T,
    Ghost(f): Ghost<spec_fn(u64) -> Quantity>,
) -> (r: HashMap<u64, Quantity>)
    requires
        tells(*value, g@.vertices, f),
    ensures
        r@ == scores_of(g@, f),
{
    let all = g.vertices();
    let mut r: HashMap<u64, Quantity> = HashMap::new();
    let mut i: usize = 0;
    while i < all.len()
        invariant
            tells(*value, all@, f),
            i <= all@.len(),
            forall|v: u64| #[trigger] r@.contains_key(v) <==> exists|j: int| 0 <= j < i && all@[j] == v,
            forall|v: u64| #[trigger] r@.contains_key(v) ==> r@[v] == f(v),
        decreases all@.len() - i,
    {
        let v: u64 = all[i];
        let q = value(v);
        assert(call_ensures(*value, (all@[i as int],), q));
        r.insert(v, q);
        i += 1;
    }
    proof {
        assert forall|v: u64| r@.contains_key(v) <==> g@.vertices.contains(v) by {
            if g@.vertices.contains(v) {
                assert(all@[g@.vertices.index_of(v)] == v);
            }
        }
        assert(r@ =~= scores_of(g@, f));
    }
    r
}

/// The score of a vertex.
pub(crate) fn score_of(scores: &HashMap<u64, Quantity>, v: u64) -> (r: Quantity)
    requires
        scores@.contains_key(v),
    ensures
        r == scores@[v],
{
    match scores.get(&v) {
        Some(q) => q.clone(),
        None => Quantity::Count(0),
    }
}

/// Whether scores are there for all vertices of a graph.
pub open spec fn covers(n: Network, s: Scores) -> bool {
    forall|v: u64| n.vertices.contains(v) ==> #[trigger] s.contains_key(v)
}

/// The other end of an edge at a vertex has a score.
pub proof fn lemma_near_scores(n: Network, s: Scores, v: u64)
    requires
        n.wf(),
        covers(n, s),
    ensures
        forall|i: int| 0 <= i < n.neighbors(v).len() ==> s.contains_key(#[trigger] n.neighbors(v)[i]),
        forall|i: int| 0 <= i < n.into(v).len() ==> s.contains_key(#[trigger] n.into(v)[i]),
        forall|i: int| 0 <= i < n.out_of(v).len() ==> s.contains_key(#[trigger] n.out_of(v)[i]),
{
    assert forall|i: int| 0 <= i < n.neighbors(v).len() implies s.contains_key(#[trigger] n.neighbors(v)[i]) by {
        let u = n.neighbors(v)[i];
        lemma_neighbors(n, v, u);
        assert(n.neighbors(v).contains(u));
    }
    assert forall|i: int| 0 <= i < n.into(v).len() implies s.contains_key(#[trigger] n.into(v)[i]) by {
        let u = n.into(v)[i];
        lemma_neighbors(n, v, u);
        assert(n.into(v).contains(u));
    }
    assert forall|i: int| 0 <= i < n.out_of(v).len() implies s.contains_key(#[trigger] n.out_of(v)[i]) by {
        let u = n.out_of(v)[i];
        lemma_neighbors(n, v, u);
        assert(n.out_of(v).contains(u));
    }
}

/// The score of a vertex.
pub open spec fn plain(s: Scores) -> spec_fn(u64) -> Quantity {
    |u: u64| s[u]
}

/// The square of the score of a vertex.
pub open spec fn square(s: Scores) -> spec_fn(u64) -> Quantity {
    |u: u64| Quantity::product(s[u], s[u])
}

/// How far two scores of a vertex are apart.
pub open spec fn apart(s: Scores, t: Scores) -> spec_fn(u64) -> Quantity {
    |u: u64| Quantity::abs(Quantity::difference(t[u], s[u]))
}

/// The length of the vector of scores.
pub open spec fn norm<B: Fn(&Quantity) -> u64>(n: Network, bits: B, s: Scores) -> Quantity {
    rounded(bits, Quantity::sqrt(total(bits, n.vertices, square(s), n.vertices.len())))
}

/// The score of a vertex, by a divisor.
pub open spec fn divided<B: Fn(&Quantity) -> u64>(bits: B, s: Scores, d: Quantity) -> spec_fn(u64) -> Quantity {
    |u: u64| rounded(bits, Quantity::quotient(s[u], d))
}

/// How much scores change, over all vertices.
pub open spec fn change<B: Fn(&Quantity) -> u64>(n: Network, bits: B) -> spec_fn(Scores, Scores) -> Quantity {
    |s: Scores, t: Scores| total(bits, n.vertices, apart(s, t), n.vertices.len())
}

/// What is left of a state after up to `k` steps. A step may tell that the state stays; one that
/// changes less than `epsilon` is the last.
pub open spec fn settled<S, F: Fn(&Quantity, &Quantity) -> Compared>(
    compare: F,
    step: spec_fn(S) -> Option<S>,
    change: spec_fn(S, S) -> Quantity,
    epsilon: Quantity,
    s: S,
    k: nat,
) -> S
    decreases k,
{
    if k == 0 {
        s
    } else {
        match step(s) {
            None => s,
            Some(t) => if compared(compare, change(s, t), epsilon) is Less {
                t
            } else {
                settled(compare, step, change, epsilon, t, (k - 1) as nat)
            },
        }
    }
}

/// Computes the length of the vector of scores.
pub(crate) fn find_norm<B: Fn(&Quantity) -> u64>(g: &Graph, bits: &B, s: &HashMap<u64, Quantity>) -> (r: Quantity)
    requires
        reads(*bits),
        covers(g@, s@),
    ensures
        r == norm(g@, *bits, s@),
{
    let all = g.vertices();
    let term = |u: u64| -> (q: Quantity)
        requires
            s@.contains_key(u),
        ensures
            q == Quantity::product(s@[u], s@[u]),
        { score_of(s, u).times(score_of(s, u)) };
    proof {
        lemma_covered(g@, s@);
    }
    let sum = add_up(bits, all, &term, Ghost(square(s@)));
    round(bits, sum.square_root())
}

/// Each vertex of a list of all vertices has a score.
pub proof fn lemma_covered(n: Network, s: Scores)
    requires
        covers(n, s),
    ensures
        forall|i: int| 0 <= i < n.vertices.len() ==> s.contains_key(#[trigger] n.vertices[i]),
{
    assert forall|i: int| 0 <= i < n.vertices.len() implies s.contains_key(#[trigger] n.vertices[i]) by {
        assert(n.vertices.contains(n.vertices[i]));
    }
}

/// Divides all scores.
pub(crate) fn divide<B: Fn(&Quantity) -> u64>(g: &Graph, bits: &B, s: &HashMap<u64, Quantity>, d: &Quantity) -> (r: HashMap<u64, Quantity>)
    requires
        reads(*bits),
        covers(g@, s@),
    ensures
        r@ == scores_of(g@, divided(*bits, s@, *d)),
{
    let value = |u: u64| -> (q: Quantity)
        requires
            s@.contains_key(u),
        ensures
            q == rounded(*bits, Quantity::quotient(s@[u], *d)),
        { round(bits, score_of(s, u).over(d.clone())) };
    proof {
        lemma_covered(g@, s@);
    }
    score_all(g, &value, Ghost(divided(*bits, s@, *d)))
}

/// Computes how much scores change.
pub(crate) fn find_change<B: Fn(&Quantity) -> u64>(g: &Graph, bits: &B, s: &HashMap<u64, Quantity>, t: &HashMap<u64, Quantity>) -> (r: Quantity)
    requires
        reads(*bits),
        covers(g@, s@),
        covers(g@, t@),
    ensures
        r == change(g@, *bits)(s@, t@),
{
    let all = g.vertices();
    let term = |u: u64| -> (q: Quantity)
        requires
            s@.contains_key(u),
            t@.contains_key(u),
        ensures
            q == Quantity::abs(Quantity::difference(t@[u], s@[u])),
        { score_of(t, u).minus(score_of(s, u)).absolute() };
    proof {
        lemma_covered(g@, s@);
        lemma_covered(g@, t@);
    }
    add_up(bits, all, &term, Ghost(apart(s@, t@)))
}

} // verus!
