//! Centralities that settle: PageRank, eigenvector and Katz centrality, and hubs and authorities.
use std::collections::HashMap;

use vstd::prelude::*;

use crate::graph::scores::{
    add_up, change, covers, divide, divided, find_change, find_norm, lemma_covered, lemma_near_scores, norm, plain, round, rounded,
    score_all, score_of, scores_of, settled, total, Scores,
};
use crate::graph::{Graph, Network};
use crate::quantity::{compared, decides, reads, Compared, Quantity};

verus! {

broadcast use vstd::std_specs::hash::group_hash_axioms;

/// The number of edges that leave a vertex, or one where none does.
pub open spec fn outflow(n: Network, u: u64) -> u64 {
    if n.out_of(u).len() == 0 {
        1
    } else {
        n.out_of(u).len() as u64
    }
}

/// What a vertex hands to each vertex that it leads to: its damped rank, by the number of its edges.
pub open spec fn handed(n: Network, damping: Quantity, s: Scores) -> spec_fn(u64) -> Quantity {
    |u: u64| Quantity::quotient(Quantity::product(damping, s[u]), Quantity::Count(outflow(n, u)))
}

/// The rank of a vertex after one more step: what is handed to it, and what every vertex has.
pub open spec fn next_rank<B: Fn(&Quantity) -> u64>(n: Network, bits: B, damping: Quantity, s: Scores) -> spec_fn(u64) -> Quantity {
    |v: u64|
        rounded(
            bits,
            Quantity::sum(
                total(bits, n.into(v), handed(n, damping, s), n.into(v).len()),
                Quantity::quotient(
                    Quantity::difference(Quantity::Count(1), damping),
                    Quantity::Count(n.vertices.len() as u64),
                ),
            ),
        )
}

/// A step of PageRank.
pub open spec fn rank_step<B: Fn(&Quantity) -> u64>(n: Network, bits: B, damping: Quantity) -> spec_fn(Scores) -> Option<Scores> {
    |s: Scores| Some(scores_of(n, next_rank(n, bits, damping, s)))
}

/// The same share for each vertex.
pub open spec fn equal_shares(n: Network) -> spec_fn(u64) -> Quantity {
    |v: u64| Quantity::quotient(Quantity::Count(1), Quantity::Count(n.vertices.len() as u64))
}

/// The same score for each vertex: one.
pub open spec fn ones() -> spec_fn(u64) -> Quantity {
    |v: u64| Quantity::Count(1)
}

/// Gives each vertex the same share.
pub(crate) fn share_equally(g: &Graph) -> (r: HashMap<u64, Quantity>)
    ensures
        r@ == scores_of(g@, equal_shares(g@)),
{
    let count: u64 = g.vertices().len() as u64;
    let value = |v: u64| -> (q: Quantity)
        ensures
            q == Quantity::quotient(Quantity::Count(1), Quantity::Count(count)),
        { Quantity::Count(1).over(Quantity::Count(count)) };
    score_all(g, &value, Ghost(equal_shares(g@)))
}

fn give_ones(g: &Graph) -> (r: HashMap<u64, Quantity>)
    ensures
        r@ == scores_of(g@, ones()),
{
    let value = |v: u64| -> (q: Quantity)
        ensures
            q == Quantity::Count(1),
        { Quantity::Count(1) };
    score_all(g, &value, Ghost(ones()))
}

fn find_outflow(g: &Graph, u: u64) -> (r: u64)
    ensures
        r == outflow(g@, u),
{
    let count: usize = g.out_edges(u).len();
    if count == 0 {
        1
    } else {
        count as u64
    }
}

fn find_next_rank<B: Fn(&Quantity) -> u64>(g: &Graph, bits: &B, damping: &Quantity, s: &HashMap<u64, Quantity>, v: u64) -> (r: Quantity)
    requires
        reads(*bits),
        covers(g@, s@),
    ensures
        r == next_rank(g@, *bits, *damping, s@)(v),
{
    let list = g.in_edges(v);
    let term = |u: u64| -> (q: Quantity)
        requires
            s@.contains_key(u),
        ensures
            q == Quantity::quotient(Quantity::product(*damping, s@[u]), Quantity::Count(outflow(g@, u))),
        { damping.clone().times(score_of(s, u)).over(Quantity::Count(find_outflow(g, u))) };
    proof {
        lemma_near_scores(g@, s@, v);
    }
    let sum = add_up(bits, &list, &term, Ghost(handed(g@, *damping, s@)));
    let rest = Quantity::Count(1).minus(damping.clone()).over(Quantity::Count(g.vertices().len() as u64));
    round(bits, sum.plus(rest))
}

/// PageRank: the share of each vertex in a random walk that starts anew with probability
/// `1 - damping`. It ends after `max_iter` steps, or once a step changes less than `epsilon`.
pub fn pagerank<F: Fn(&Quantity, &Quantity) -> Compared, B: Fn(&Quantity) -> u64>(
    g: &Graph,
    compare: &F,
    bits: &B,
    damping: &Quantity,
    max_iter: usize,
    epsilon: &Quantity,
) -> (r: HashMap<u64, Quantity>)
    requires
        decides(*compare),
        reads(*bits),
    ensures
        r@ == settled(
            *compare,
            rank_step(g@, *bits, *damping),
            change(g@, *bits),
            *epsilon,
            scores_of(g@, equal_shares(g@)),
            max_iter as nat,
        ),
        covers(g@, r@),
{
    let mut s = share_equally(g);
    let ghost step = rank_step(g@, *bits, *damping);
    let ghost whole = settled(*compare, step, change(g@, *bits), *epsilon, s@, max_iter as nat);
    let mut i: usize = 0;
    while i < max_iter
        invariant
            decides(*compare),
            reads(*bits),
            whole == settled(*compare, step, change(g@, *bits), *epsilon, scores_of(g@, equal_shares(g@)), max_iter as nat),
            i <= max_iter,
            step == rank_step(g@, *bits, *damping),
            covers(g@, s@),
            whole == settled(*compare, step, change(g@, *bits), *epsilon, s@, (max_iter - i) as nat),
        decreases max_iter - i,
    {
        let value = |v: u64| -> (q: Quantity)
            ensures
                q == next_rank(g@, *bits, *damping, s@)(v),
            { find_next_rank(g, bits, damping, &s, v) };
        let t = score_all(g, &value, Ghost(next_rank(g@, *bits, *damping, s@)));
        let delta = find_change(g, bits, &s, &t);
        assert(step(s@) == Some(t@));
        let c = compare(&delta, epsilon);
        s = t;
        if c == Compared::Less {
            return s;
        }
        i += 1;
    }
    s
}

/// The score of a vertex after one more step, before scaling: the scores around it.
pub open spec fn scores_around<B: Fn(&Quantity) -> u64>(n: Network, bits: B, s: Scores) -> spec_fn(u64) -> Quantity {
    |v: u64| total(bits, n.neighbors(v), plain(s), n.neighbors(v).len())
}

/// A step of eigenvector centrality: the scores around each vertex, scaled to length one. Scores stay
/// where there is nothing around the vertices.
pub open spec fn eigen_step<F: Fn(&Quantity, &Quantity) -> Compared, B: Fn(&Quantity) -> u64>(
    n: Network,
    compare: F,
    bits: B,
) -> spec_fn(Scores) -> Option<Scores> {
    |s: Scores|
        {
            let t = scores_of(n, scores_around(n, bits, s));
            let length = norm(n, bits, t);
            if compared(compare, length, Quantity::decimal(1, 10)) is Less {
                None
            } else {
                Some(scores_of(n, divided(bits, t, length)))
            }
        }
}

fn find_scores_around<B: Fn(&Quantity) -> u64>(g: &Graph, bits: &B, s: &HashMap<u64, Quantity>, v: u64) -> (r: Quantity)
    requires
        reads(*bits),
        covers(g@, s@),
    ensures
        r == scores_around(g@, *bits, s@)(v),
{
    let list = g.neighbors(v);
    let term = |u: u64| -> (q: Quantity)
        requires
            s@.contains_key(u),
        ensures
            q == s@[u],
        { score_of(s, u) };
    proof {
        lemma_near_scores(g@, s@, v);
    }
    add_up(bits, &list, &term, Ghost(plain(s@)))
}

/// Eigenvector centrality: vertices are important if connected to other important vertices. The power
/// method, which ends after `max_iter` steps, or once a step changes less than `epsilon`.
pub fn eigenvector_centrality<F: Fn(&Quantity, &Quantity) -> Compared, B: Fn(&Quantity) -> u64>(
    g: &Graph,
    compare: &F,
    bits: &B,
    max_iter: usize,
    epsilon: &Quantity,
) -> (r: HashMap<u64, Quantity>)
    requires
        decides(*compare),
        reads(*bits),
    ensures
        r@ == settled(
            *compare,
            eigen_step(g@, *compare, *bits),
            change(g@, *bits),
            *epsilon,
            scores_of(g@, equal_shares(g@)),
            max_iter as nat,
        ),
        covers(g@, r@),
{
    let mut s = share_equally(g);
    let ghost step = eigen_step(g@, *compare, *bits);
    let ghost whole = settled(*compare, step, change(g@, *bits), *epsilon, s@, max_iter as nat);
    let mut i: usize = 0;
    while i < max_iter
        invariant
            decides(*compare),
            reads(*bits),
            whole == settled(*compare, step, change(g@, *bits), *epsilon, scores_of(g@, equal_shares(g@)), max_iter as nat),
            i <= max_iter,
            step == eigen_step(g@, *compare, *bits),
            covers(g@, s@),
            whole == settled(*compare, step, change(g@, *bits), *epsilon, s@, (max_iter - i) as nat),
        decreases max_iter - i,
    {
        let value = |v: u64| -> (q: Quantity)
            ensures
                q == scores_around(g@, *bits, s@)(v),
            { find_scores_around(g, bits, &s, v) };
        let around = score_all(g, &value, Ghost(scores_around(g@, *bits, s@)));
        let length = find_norm(g, bits, &around);
        if compare(&length, &Quantity::from_decimal(1, 10)) == Compared::Less {
            assert(step(s@) is None);
            return s;
        }
        let t = divide(g, bits, &around, &length);
        let delta = find_change(g, bits, &s, &t);
        assert(step(s@) == Some(t@));
        let c = compare(&delta, epsilon);
        s = t;
        if c == Compared::Less {
            return s;
        }
        i += 1;
    }
    s
}

/// The score of a vertex after one more step: the scores around it, weakened, and one.
pub open spec fn weakened<B: Fn(&Quantity) -> u64>(n: Network, bits: B, alpha: Quantity, s: Scores) -> spec_fn(u64) -> Quantity {
    |v: u64|
        rounded(bits, Quantity::sum(Quantity::product(alpha, scores_around(n, bits, s)(v)), Quantity::Count(1)))
}

/// A step of Katz centrality.
pub open spec fn katz_step<B: Fn(&Quantity) -> u64>(n: Network, bits: B, alpha: Quantity) -> spec_fn(Scores) -> Option<Scores> {
    |s: Scores| Some(scores_of(n, weakened(n, bits, alpha, s)))
}

/// Katz centrality: every walk to a vertex counts, weakened by `alpha` for each of its edges. It ends
/// after `max_iter` steps, or once a step changes less than `epsilon`.
pub fn katz_centrality<F: Fn(&Quantity, &Quantity) -> Compared, B: Fn(&Quantity) -> u64>(
    g: &Graph,
    compare: &F,
    bits: &B,
    alpha: &Quantity,
    max_iter: usize,
    epsilon: &Quantity,
) -> (r: HashMap<u64, Quantity>)
    requires
        decides(*compare),
        reads(*bits),
    ensures
        r@ == settled(
            *compare,
            katz_step(g@, *bits, *alpha),
            change(g@, *bits),
            *epsilon,
            scores_of(g@, ones()),
            max_iter as nat,
        ),
        covers(g@, r@),
{
    let mut s = give_ones(g);
    let ghost step = katz_step(g@, *bits, *alpha);
    let ghost whole = settled(*compare, step, change(g@, *bits), *epsilon, s@, max_iter as nat);
    let mut i: usize = 0;
    while i < max_iter
        invariant
            decides(*compare),
            reads(*bits),
            whole == settled(*compare, step, change(g@, *bits), *epsilon, scores_of(g@, ones()), max_iter as nat),
            i <= max_iter,
            step == katz_step(g@, *bits, *alpha),
            covers(g@, s@),
            whole == settled(*compare, step, change(g@, *bits), *epsilon, s@, (max_iter - i) as nat),
        decreases max_iter - i,
    {
        let value = |v: u64| -> (q: Quantity)
            ensures
                q == weakened(g@, *bits, *alpha, s@)(v),
            { round(bits, alpha.clone().times(find_scores_around(g, bits, &s, v)).plus(Quantity::Count(1))) };
        let t = score_all(g, &value, Ghost(weakened(g@, *bits, *alpha, s@)));
        let delta = find_change(g, bits, &s, &t);
        assert(step(s@) == Some(t@));
        let c = compare(&delta, epsilon);
        s = t;
        if c == Compared::Less {
            return s;
        }
        i += 1;
    }
    s
}

/// The authority of a vertex: the hub scores of the vertices that lead to it.
pub open spec fn authority<B: Fn(&Quantity) -> u64>(n: Network, bits: B, hub: Scores) -> spec_fn(u64) -> Quantity {
    |v: u64| total(bits, n.into(v), plain(hub), n.into(v).len())
}

/// The hub score of a vertex: the authorities of the vertices that it leads to.
pub open spec fn hub_score<B: Fn(&Quantity) -> u64>(n: Network, bits: B, auth: Scores) -> spec_fn(u64) -> Quantity {
    |v: u64| total(bits, n.out_of(v), plain(auth), n.out_of(v).len())
}

/// Scores scaled to length one, unless all are zero.
pub open spec fn scaled<F: Fn(&Quantity, &Quantity) -> Compared, B: Fn(&Quantity) -> u64>(
    n: Network,
    compare: F,
    bits: B,
    s: Scores,
) -> Scores {
    let length = norm(n, bits, s);
    if compared(compare, length, Quantity::Count(0)) is Greater {
        scores_of(n, divided(bits, s, length))
    } else {
        s
    }
}

/// A step of hubs and authorities.
pub open spec fn hits_step<F: Fn(&Quantity, &Quantity) -> Compared, B: Fn(&Quantity) -> u64>(
    n: Network,
    compare: F,
    bits: B,
) -> spec_fn((Scores, Scores)) -> Option<(Scores, Scores)> {
    |s: (Scores, Scores)|
        Some(
            (
                scaled(n, compare, bits, scores_of(n, authority(n, bits, s.1))),
                scaled(n, compare, bits, scores_of(n, hub_score(n, bits, s.0))),
            ),
        )
}

/// How far two pairs of scores of a vertex are apart.
pub open spec fn both_apart(s: (Scores, Scores), t: (Scores, Scores)) -> spec_fn(u64) -> Quantity {
    |u: u64|
        Quantity::sum(
            Quantity::abs(Quantity::difference(t.0[u], s.0[u])),
            Quantity::abs(Quantity::difference(t.1[u], s.1[u])),
        )
}

/// How much pairs of scores change, over all vertices.
pub open spec fn hits_change<B: Fn(&Quantity) -> u64>(n: Network, bits: B) -> spec_fn((Scores, Scores), (Scores, Scores)) -> Quantity {
    |s: (Scores, Scores), t: (Scores, Scores)| total(bits, n.vertices, both_apart(s, t), n.vertices.len())
}

/// Scales scores to length one, unless all are zero.
pub(crate) fn scale<F: Fn(&Quantity, &Quantity) -> Compared, B: Fn(&Quantity) -> u64>(
    g: &Graph,
    compare: &F,
    bits: &B,
    s: HashMap<u64, Quantity>,
) -> (r: HashMap<u64, Quantity>)
    requires
        decides(*compare),
        reads(*bits),
        covers(g@, s@),
    ensures
        r@ == scaled(g@, *compare, *bits, s@),
        covers(g@, r@),
{
    let length = find_norm(g, bits, &s);
    if compare(&length, &Quantity::Count(0)) == Compared::Greater {
        divide(g, bits, &s, &length)
    } else {
        s
    }
}

fn find_authority<B: Fn(&Quantity) -> u64>(g: &Graph, bits: &B, hub: &HashMap<u64, Quantity>, v: u64) -> (r: Quantity)
    requires
        reads(*bits),
        covers(g@, hub@),
    ensures
        r == authority(g@, *bits, hub@)(v),
{
    let list = g.in_edges(v);
    let term = |u: u64| -> (q: Quantity)
        requires
            hub@.contains_key(u),
        ensures
            q == hub@[u],
        { score_of(hub, u) };
    proof {
        lemma_near_scores(g@, hub@, v);
    }
    add_up(bits, &list, &term, Ghost(plain(hub@)))
}

fn find_hub_score<B: Fn(&Quantity) -> u64>(g: &Graph, bits: &B, auth: &HashMap<u64, Quantity>, v: u64) -> (r: Quantity)
    requires
        reads(*bits),
        covers(g@, auth@),
    ensures
        r == hub_score(g@, *bits, auth@)(v),
{
    let list = g.out_edges(v);
    let term = |u: u64| -> (q: Quantity)
        requires
            auth@.contains_key(u),
        ensures
            q == auth@[u],
        { score_of(auth, u) };
    proof {
        lemma_near_scores(g@, auth@, v);
    }
    add_up(bits, &list, &term, Ghost(plain(auth@)))
}

fn find_both_changes<B: Fn(&Quantity) -> u64>(
    g: &Graph,
    bits: &B,
    auth: &HashMap<u64, Quantity>,
    hub: &HashMap<u64, Quantity>,
    new_auth: &HashMap<u64, Quantity>,
    new_hub: &HashMap<u64, Quantity>,
) -> (r: Quantity)
    requires
        reads(*bits),
        covers(g@, auth@),
        covers(g@, hub@),
        covers(g@, new_auth@),
        covers(g@, new_hub@),
    ensures
        r == hits_change(g@, *bits)((auth@, hub@), (new_auth@, new_hub@)),
{
    let all = g.vertices();
    let term = |u: u64| -> (q: Quantity)
        requires
            auth@.contains_key(u),
            hub@.contains_key(u),
            new_auth@.contains_key(u),
            new_hub@.contains_key(u),
        ensures
            q == both_apart((auth@, hub@), (new_auth@, new_hub@))(u),
        {
            let a = score_of(new_auth, u).minus(score_of(auth, u)).absolute();
            let h = score_of(new_hub, u).minus(score_of(hub, u)).absolute();
            a.plus(h)
        };
    proof {
        lemma_covered(g@, auth@);
        lemma_covered(g@, hub@);
        lemma_covered(g@, new_auth@);
        lemma_covered(g@, new_hub@);
    }
    add_up(bits, all, &term, Ghost(both_apart((auth@, hub@), (new_auth@, new_hub@))))
}

/// Hubs and authorities: the authority and the hub score of each vertex. It ends after `max_iter`
/// steps, or once a step changes less than `epsilon`.
pub fn hits<F: Fn(&Quantity, &Quantity) -> Compared, B: Fn(&Quantity) -> u64>(
    g: &Graph,
    compare: &F,
    bits: &B,
    max_iter: usize,
    epsilon: &Quantity,
) -> (r: (HashMap<u64, Quantity>, HashMap<u64, Quantity>))
    requires
        decides(*compare),
        reads(*bits),
    ensures
        (r.0@, r.1@) == settled(
            *compare,
            hits_step(g@, *compare, *bits),
            hits_change(g@, *bits),
            *epsilon,
            (scores_of(g@, ones()), scores_of(g@, ones())),
            max_iter as nat,
        ),
        covers(g@, r.0@),
        covers(g@, r.1@),
{
    let mut auth = give_ones(g);
    let mut hub = give_ones(g);
    let ghost step = hits_step(g@, *compare, *bits);
    let ghost whole = settled(*compare, step, hits_change(g@, *bits), *epsilon, (auth@, hub@), max_iter as nat);
    let mut i: usize = 0;
    while i < max_iter
        invariant
            decides(*compare),
            reads(*bits),
            whole == settled(*compare, step, hits_change(g@, *bits), *epsilon, (scores_of(g@, ones()), scores_of(g@, ones())), max_iter as nat),
            i <= max_iter,
            step == hits_step(g@, *compare, *bits),
            covers(g@, auth@),
            covers(g@, hub@),
            whole == settled(*compare, step, hits_change(g@, *bits), *epsilon, (auth@, hub@), (max_iter - i) as nat),
        decreases max_iter - i,
    {
        let auth_value = |v: u64| -> (q: Quantity)
            ensures
                q == authority(g@, *bits, hub@)(v),
            { find_authority(g, bits, &hub, v) };
        let raw_auth = score_all(g, &auth_value, Ghost(authority(g@, *bits, hub@)));
        let hub_value = |v: u64| -> (q: Quantity)
            ensures
                q == hub_score(g@, *bits, auth@)(v),
            { find_hub_score(g, bits, &auth, v) };
        let raw_hub = score_all(g, &hub_value, Ghost(hub_score(g@, *bits, auth@)));
        let new_auth = scale(g, compare, bits, raw_auth);
        let new_hub = scale(g, compare, bits, raw_hub);
        let delta = find_both_changes(g, bits, &auth, &hub, &new_auth, &new_hub);
        assert(step((auth@, hub@)) == Some((new_auth@, new_hub@)));
        let c = compare(&delta, epsilon);
        auth = new_auth;
        hub = new_hub;
        if c == Compared::Less {
            return (auth, hub);
        }
        i += 1;
    }
    (auth, hub)
}

} // verus!
