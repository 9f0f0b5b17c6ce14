//! Sums of real numbers over vertices and over edges.
use vstd::prelude::*;

use crate::graph::scores::{rounded, total};
use crate::graph::{sources, targets, Edge};
use crate::quantity::{value, whole, Numbers, Quantity};

verus! {

/// The sum of a function over the first `k` vertices of a list.
pub open spec fn sum_over(list: Seq<u64>, f: spec_fn(u64) -> real, k: nat) -> real
    decreases k,
{
    if k == 0 {
        whole(0)
    } else {
        sum_over(list, f, (k - 1) as nat) + f(list[k - 1])
    }
}

/// The sum of a function over all edges of a list.
pub open spec fn edge_sum(edges: Seq<Edge>, f: spec_fn(Edge) -> real) -> real
    decreases edges.len(),
{
    if edges.len() == 0 {
        whole(0)
    } else {
        edge_sum(edges.drop_last(), f) + f(edges.last())
    }
}

/// A function of the vertex that an edge comes from, where the edge reaches a given vertex.
pub open spec fn at_target(f: spec_fn(u64) -> real, v: u64) -> spec_fn(Edge) -> real {
    |e: Edge|
        if e.to == v {
            f(e.from)
        } else {
            whole(0)
        }
}

/// A function of the vertex that an edge leads to, where the edge leaves a given vertex.
pub open spec fn at_source(f: spec_fn(u64) -> real, v: u64) -> spec_fn(Edge) -> real {
    |e: Edge|
        if e.from == v {
            f(e.to)
        } else {
            whole(0)
        }
}

/// The numbers that a term stands for.
pub open spec fn values(m: Numbers, term: spec_fn(u64) -> Quantity) -> spec_fn(u64) -> real {
    |u: u64| value(m, term(u))
}

/// How much rounding changes a quantity.
pub open spec fn lost<B: Fn(&Quantity) -> u64>(m: Numbers, bits: B, q: Quantity) -> real {
    value(m, rounded(bits, q)) - value(m, q)
}

/// How much a sum is changed where each of its partial sums is rounded.
pub open spec fn lost_in_total<B: Fn(&Quantity) -> u64>(
    m: Numbers,
    bits: B,
    list: Seq<u64>,
    term: spec_fn(u64) -> Quantity,
    k: nat,
) -> real
    decreases k,
{
    if k == 0 {
        whole(0)
    } else {
        lost_in_total(m, bits, list, term, (k - 1) as nat) + lost(
            m,
            bits,
            Quantity::sum(total(bits, list, term, (k - 1) as nat), term(list[k - 1])),
        )
    }
}

/// A total is the sum of its terms, but for what rounding does.
pub proof fn totals_are_sums<B: Fn(&Quantity) -> u64>(
    m: Numbers,
    bits: B,
    list: Seq<u64>,
    term: spec_fn(u64) -> Quantity,
    k: nat,
)
    ensures
        value(m, total(bits, list, term, k)) == sum_over(list, values(m, term), k) + lost_in_total(m, bits, list, term, k),
    decreases k,
{
    if k > 0 {
        totals_are_sums(m, bits, list, term, (k - 1) as nat);
        reveal_with_fuel(value, 2);
    }
}

pub proof fn lemma_sum_same(a: Seq<u64>, f: spec_fn(u64) -> real, b: Seq<u64>, g: spec_fn(u64) -> real, k: nat)
    requires
        k <= a.len(),
        k <= b.len(),
        forall|i: int| 0 <= i < k ==> f(#[trigger] a[i]) == g(b[i]),
    ensures
        sum_over(a, f, k) == sum_over(b, g, k),
    decreases k,
{
    if k > 0 {
        lemma_sum_same(a, f, b, g, (k - 1) as nat);
        assert(f(a[k - 1]) == g(b[k - 1]));
    }
}

pub proof fn lemma_sum_push(list: Seq<u64>, x: u64, f: spec_fn(u64) -> real)
    ensures
        sum_over(list.push(x), f, list.push(x).len()) == sum_over(list, f, list.len()) + f(x),
{
    lemma_sum_same(list, f, list.push(x), f, list.len());
    assert(list.push(x)[list.len() as int] == x);
}

pub proof fn lemma_sum_concat(a: Seq<u64>, b: Seq<u64>, f: spec_fn(u64) -> real, k: nat)
    requires
        k <= b.len(),
    ensures
        sum_over(a + b, f, a.len() + k) == sum_over(a, f, a.len()) + sum_over(b, f, k),
    decreases k,
{
    if k == 0 {
        lemma_sum_same(a, f, a + b, f, a.len());
    } else {
        lemma_sum_concat(a, b, f, (k - 1) as nat);
        assert((a + b)[a.len() + k - 1] == b[k - 1]);
    }
}

/// A sum over the vertices that edges come from is a sum over those edges.
pub proof fn lemma_sources_sum(edges: Seq<Edge>, f: spec_fn(u64) -> real, v: u64)
    ensures
        sum_over(sources(edges, v), f, sources(edges, v).len()) == edge_sum(edges, at_target(f, v)),
    decreases edges.len(),
{
    if edges.len() > 0 {
        lemma_sources_sum(edges.drop_last(), f, v);
        lemma_sum_push(sources(edges.drop_last(), v), edges.last().from, f);
    }
}

/// A sum over the vertices that edges lead to is a sum over those edges.
pub proof fn lemma_targets_sum(edges: Seq<Edge>, f: spec_fn(u64) -> real, v: u64)
    ensures
        sum_over(targets(edges, v), f, targets(edges, v).len()) == edge_sum(edges, at_source(f, v)),
    decreases edges.len(),
{
    if edges.len() > 0 {
        lemma_targets_sum(edges.drop_last(), f, v);
        lemma_sum_push(targets(edges.drop_last(), v), edges.last().to, f);
    }
}

pub proof fn lemma_sum_of_both(list: Seq<u64>, f: spec_fn(u64) -> real, g: spec_fn(u64) -> real, h: spec_fn(u64) -> real, k: nat)
    requires
        k <= list.len(),
        forall|i: int| 0 <= i < k ==> h(#[trigger] list[i]) == f(list[i]) + g(list[i]),
    ensures
        sum_over(list, h, k) == sum_over(list, f, k) + sum_over(list, g, k),
    decreases k,
{
    if k > 0 {
        lemma_sum_of_both(list, f, g, h, (k - 1) as nat);
        assert(h(list[k - 1]) == f(list[k - 1]) + g(list[k - 1]));
    }
}

/// A number for one vertex and nothing for the others.
pub open spec fn only_at(x: u64, c: real) -> spec_fn(u64) -> real {
    |v: u64|
        if v == x {
            c
        } else {
            whole(0)
        }
}

pub proof fn lemma_sum_only_at(list: Seq<u64>, x: u64, c: real, k: nat)
    requires
        list.no_duplicates(),
        k <= list.len(),
    ensures
        sum_over(list, only_at(x, c), k) == if list.take(k as int).contains(x) {
            c
        } else {
            whole(0)
        },
    decreases k,
{
    if k > 0 {
        lemma_sum_only_at(list, x, c, (k - 1) as nat);
        let before = list.take(k - 1);
        let after = list.take(k as int);
        assert(after == before.push(list[k - 1]));
        if before.contains(x) {
            let i = choose|i: int| 0 <= i < before.len() && before[i] == x;
            assert(list[i] == x);
            assert(after[i] == x);
        }
        if list[k - 1] == x {
            assert(after[k - 1] == x);
        }
        if after.contains(x) && list[k - 1] != x {
            let i = choose|i: int| 0 <= i < after.len() && after[i] == x;
            assert(before[i] == x);
        }
    }
}

/// For each vertex, the sum of a function over the edges that reach it.
pub open spec fn sums_by_target(edges: Seq<Edge>, f: spec_fn(u64) -> real) -> spec_fn(u64) -> real {
    |v: u64| edge_sum(edges, at_target(f, v))
}

/// For each vertex, the sum of a function over the edges that leave it.
pub open spec fn sums_by_source(edges: Seq<Edge>, f: spec_fn(u64) -> real) -> spec_fn(u64) -> real {
    |v: u64| edge_sum(edges, at_source(f, v))
}

/// A function of the vertex that an edge comes from.
pub open spec fn of_source(f: spec_fn(u64) -> real) -> spec_fn(Edge) -> real {
    |e: Edge| f(e.from)
}

/// A function of the vertex that an edge leads to.
pub open spec fn of_target(f: spec_fn(u64) -> real) -> spec_fn(Edge) -> real {
    |e: Edge| f(e.to)
}

pub proof fn lemma_sum_of_nothing(list: Seq<u64>, f: spec_fn(u64) -> real, k: nat)
    requires
        k <= list.len(),
        forall|i: int| 0 <= i < k ==> f(#[trigger] list[i]) == whole(0),
    ensures
        sum_over(list, f, k) == whole(0),
    decreases k,
{
    if k > 0 {
        lemma_sum_of_nothing(list, f, (k - 1) as nat);
        assert(f(list[k - 1]) == whole(0));
    }
}

/// Every edge reaches one vertex and leaves one: the sums over the edges at each vertex make up the sum
/// over all edges.
pub proof fn edges_are_counted_once(list: Seq<u64>, edges: Seq<Edge>, f: spec_fn(u64) -> real)
    requires
        list.no_duplicates(),
        forall|i: int| 0 <= i < edges.len() ==> list.contains((#[trigger] edges[i]).from) && list.contains(edges[i].to),
    ensures
        sum_over(list, sums_by_target(edges, f), list.len()) == edge_sum(edges, of_source(f)),
        sum_over(list, sums_by_source(edges, f), list.len()) == edge_sum(edges, of_target(f)),
    decreases edges.len(),
{
    if edges.len() == 0 {
        lemma_sum_of_nothing(list, sums_by_target(edges, f), list.len());
        lemma_sum_of_nothing(list, sums_by_source(edges, f), list.len());
    } else {
        let before = edges.drop_last();
        let e = edges.last();
        assert(edges[edges.len() - 1] == e);
        assert forall|i: int| 0 <= i < before.len() implies list.contains((#[trigger] before[i]).from) && list.contains(before[i].to) by {
            assert(before[i] == edges[i]);
        }
        edges_are_counted_once(list, before, f);
        assert(list.take(list.len() as int) =~= list);
        lemma_sum_only_at(list, e.to, f(e.from), list.len());
        lemma_sum_only_at(list, e.from, f(e.to), list.len());
        lemma_sum_of_both(list, sums_by_target(before, f), only_at(e.to, f(e.from)), sums_by_target(edges, f), list.len());
        lemma_sum_of_both(list, sums_by_source(before, f), only_at(e.from, f(e.to)), sums_by_source(edges, f), list.len());
    }
}

/// A sum of one number for each vertex.
pub proof fn lemma_sum_constant(list: Seq<u64>, f: spec_fn(u64) -> real, c: real, k: nat)
    requires
        k <= list.len(),
        forall|i: int| 0 <= i < k ==> f(#[trigger] list[i]) == c,
    ensures
        sum_over(list, f, k) == whole(k as int) * c,
    decreases k,
{
    if k > 0 {
        lemma_sum_constant(list, f, c, (k - 1) as nat);
        assert(f(list[k - 1]) == c);
        let a = whole(k - 1);
        assert(whole(k as int) == a + whole(1));
        assert(a * c + c == (a + whole(1)) * c) by (nonlinear_arith)
            requires
                whole(1) == 1int as real,
        ;
    } else {
        assert(whole(0) * c == whole(0)) by (nonlinear_arith)
            requires
                whole(0) == 0int as real,
        ;
    }
}

/// For each vertex, a function of it as often as edges leave it.
pub open spec fn by_outdegree(edges: Seq<Edge>, f: spec_fn(u64) -> real) -> spec_fn(u64) -> real {
    |u: u64| whole(targets(edges, u).len() as int) * f(u)
}

/// A sum over the sources of all edges counts each vertex as often as edges leave it.
pub proof fn sources_are_counted_by_outdegree(list: Seq<u64>, edges: Seq<Edge>, f: spec_fn(u64) -> real)
    requires
        list.no_duplicates(),
        forall|i: int| 0 <= i < edges.len() ==> list.contains((#[trigger] edges[i]).from),
    ensures
        sum_over(list, by_outdegree(edges, f), list.len()) == edge_sum(edges, of_source(f)),
    decreases edges.len(),
{
    if edges.len() == 0 {
        assert forall|i: int| 0 <= i < list.len() implies by_outdegree(edges, f)(#[trigger] list[i]) == whole(0) by {
            let x = f(list[i]);
            assert(whole(0) * x == whole(0)) by (nonlinear_arith)
                requires
                    whole(0) == 0int as real,
            ;
        }
        lemma_sum_of_nothing(list, by_outdegree(edges, f), list.len());
    } else {
        let before = edges.drop_last();
        let e = edges.last();
        assert(edges[edges.len() - 1] == e);
        assert forall|i: int| 0 <= i < before.len() implies list.contains((#[trigger] before[i]).from) by {
            assert(before[i] == edges[i]);
        }
        sources_are_counted_by_outdegree(list, before, f);
        assert(list.take(list.len() as int) =~= list);
        lemma_sum_only_at(list, e.from, f(e.from), list.len());
        assert forall|i: int| 0 <= i < list.len() implies by_outdegree(edges, f)(#[trigger] list[i]) == by_outdegree(before, f)(list[i])
            + only_at(e.from, f(e.from))(list[i]) by {
            let u = list[i];
            if u == e.from {
                let a = whole(targets(before, u).len() as int);
                let x = f(u);
                assert(whole(targets(edges, u).len() as int) == a + whole(1));
                assert((a + whole(1)) * x == a * x + x) by (nonlinear_arith)
                    requires
                        whole(1) == 1int as real,
                ;
            }
        }
        lemma_sum_of_both(list, by_outdegree(before, f), only_at(e.from, f(e.from)), by_outdegree(edges, f), list.len());
    }
}

/// A sum of multiples is the multiple of the sum.
pub proof fn lemma_sum_scaled(list: Seq<u64>, f: spec_fn(u64) -> real, c: real, g: spec_fn(u64) -> real, k: nat)
    requires
        k <= list.len(),
        forall|i: int| 0 <= i < k ==> g(#[trigger] list[i]) == c * f(list[i]),
    ensures
        sum_over(list, g, k) == c * sum_over(list, f, k),
    decreases k,
{
    if k > 0 {
        lemma_sum_scaled(list, f, c, g, (k - 1) as nat);
        assert(g(list[k - 1]) == c * f(list[k - 1]));
        let a = sum_over(list, f, (k - 1) as nat);
        let b = f(list[k - 1]);
        assert(c * a + c * b == c * (a + b)) by (nonlinear_arith);
    } else {
        assert(c * whole(0) == whole(0)) by (nonlinear_arith)
            requires
                whole(0) == 0int as real,
        ;
    }
}

} // verus!
