//! Colorings of the vertices: greedy by degree, and by saturation.
use std::collections::{HashMap, HashSet};

use vstd::prelude::*;

use crate::graph::order::{degree_centrality, is_ranking, ranking_holds_every_vertex};
use crate::graph::{lemma_neighbors, Graph, Network};

verus! {

broadcast use vstd::std_specs::hash::group_hash_axioms;

/// The colors of the vertices adjacent to a vertex.
pub open spec fn near_colors(n: Network, m: Map<u64, usize>, v: u64) -> Set<usize> {
    Set::new(|c: usize| has_near_color(n, m, v, c))
}

pub open spec fn has_near_color(n: Network, m: Map<u64, usize>, v: u64, c: usize) -> bool {
    exists|w: u64| #[trigger] m.contains_key(w) && n.adjacent(v, w) && m[w] == c
}

/// Whether a color is the smallest one outside of a set.
pub open spec fn first_free(used: Set<usize>, c: usize) -> bool {
    !used.contains(c) && forall|d: usize| d < c ==> #[trigger] used.contains(d)
}

/// The colors that were given before the vertex at a position.
pub open spec fn colors_before(order: Seq<u64>, m: Map<u64, usize>, i: int) -> Map<u64, usize> {
    m.restrict(order.take(i).to_set())
}

/// Whether each vertex, in this order, got the first color that no vertex adjacent to it had.
pub open spec fn colored_in_order(n: Network, order: Seq<u64>, m: Map<u64, usize>) -> bool {
    &&& order.no_duplicates()
    &&& order.to_set() == m.dom()
    &&& forall|i: int|
        0 <= i < order.len() ==> first_free(near_colors(n, colors_before(order, m, i), #[trigger] order[i]), m[order[i]])
}

/// Whether adjacent vertices have different colors.
pub open spec fn is_proper(n: Network, m: Map<u64, usize>) -> bool {
    forall|u: u64, v: u64|
        #[trigger] m.contains_key(u) && #[trigger] m.contains_key(v) && u != v && n.adjacent(u, v) ==> m[u] != m[v]
}

/// Colors that were given one vertex after the other differ between adjacent vertices.
pub proof fn first_free_colors_are_proper(n: Network, order: Seq<u64>, m: Map<u64, usize>)
    requires
        colored_in_order(n, order, m),
    ensures
        is_proper(n, m),
{
    assert forall|u: u64, v: u64|
        #[trigger] m.contains_key(u) && #[trigger] m.contains_key(v) && u != v && n.adjacent(u, v) implies m[u] != m[v] by {
        assert(order.to_set().contains(u) && order.to_set().contains(v));
        let i = order.index_of(u);
        let j = order.index_of(v);
        lemma_neighbors(n, u, v);
        if i < j {
            lemma_later_differs(n, order, m, i, j);
        } else {
            lemma_later_differs(n, order, m, j, i);
        }
    }
}

proof fn lemma_later_differs(n: Network, order: Seq<u64>, m: Map<u64, usize>, i: int, j: int)
    requires
        colored_in_order(n, order, m),
        0 <= i < j < order.len(),
        n.adjacent(order[j], order[i]),
    ensures
        m[order[i]] != m[order[j]],
{
    let before = colors_before(order, m, j);
    assert(order.take(j)[i] == order[i]);
    assert(order.take(j).contains(order[i]));
    assert(m.dom().contains(order[i])) by {
        assert(order.to_set().contains(order[i]));
    }
    assert(before.contains_key(order[i]));
    assert(has_near_color(n, before, order[j], m[order[i]]));
    assert(near_colors(n, before, order[j]).contains(m[order[i]]));
}

/// Colors that were given one vertex after the other leave no color out: below a color that is
/// used, every color is used.
pub proof fn first_free_colors_are_contiguous(n: Network, order: Seq<u64>, m: Map<u64, usize>, v: u64, c: usize)
    requires
        colored_in_order(n, order, m),
        m.contains_key(v),
        c <= m[v],
    ensures
        exists|w: u64| #[trigger] m.contains_key(w) && m[w] == c,
{
    if c < m[v] {
        assert(order.to_set().contains(v));
        let i = order.index_of(v);
        let before = colors_before(order, m, i);
        assert(order[i] == v);
        assert(near_colors(n, before, v).contains(c));
        let w = choose|w: u64| #[trigger] before.contains_key(w) && n.adjacent(v, w) && before[w] == c;
        assert(m.contains_key(w) && m[w] == c);
    }
}

proof fn lemma_color_step(n: Network, order: Seq<u64>, m: Map<u64, usize>, v: u64, c: usize)
    requires
        colored_in_order(n, order, m),
        !m.contains_key(v),
        first_free(near_colors(n, m, v), c),
    ensures
        colored_in_order(n, order.push(v), m.insert(v, c)),
        forall|i: int| 0 <= i < order.len() ==> #[trigger] colors_before(order.push(v), m.insert(v, c), i) == colors_before(order, m, i),
        colors_before(order.push(v), m.insert(v, c), order.len() as int) == m,
{
    let o = order.push(v);
    let k = m.insert(v, c);
    assert(!order.contains(v)) by {
        assert(!order.to_set().contains(v));
    }
    assert forall|x: u64| o.to_set().contains(x) <==> k.dom().contains(x) by {
        if order.contains(x) {
            assert(order.to_set().contains(x));
            assert(o[order.index_of(x)] == x);
        }
        assert(o[order.len() as int] == v);
        if o.contains(x) && x != v {
            assert(order[o.index_of(x)] == x);
            assert(order.to_set().contains(x));
        }
        if m.dom().contains(x) {
            assert(order.to_set().contains(x));
        }
    }
    assert(o.to_set() =~= k.dom());
    assert forall|i: int| 0 <= i < order.len() implies #[trigger] colors_before(o, k, i) == colors_before(order, m, i) by {
        assert(o.take(i) =~= order.take(i));
        assert(!order.take(i).contains(v));
        assert(colors_before(o, k, i) =~= colors_before(order, m, i));
    }
    assert(o.take(order.len() as int) =~= order);
    assert(colors_before(o, k, order.len() as int) =~= m);
    assert forall|i: int| 0 <= i < o.len() implies first_free(near_colors(n, colors_before(o, k, i), #[trigger] o[i]), k[o[i]]) by {
        if i < order.len() {
            assert(o[i] == order[i]);
            assert(order.to_set().contains(order[i]));
            assert(colors_before(o, k, i) == colors_before(order, m, i));
        }
    }
}

/// The colors of the vertices adjacent to a vertex.
fn colors_near(g: &Graph, coloring: &HashMap<u64, usize>, v: u64) -> (r: HashSet<usize>)
    ensures
        r@ == near_colors(g@, coloring@, v),
        r@.finite(),
        g@.wf(),
{
    let list = g.neighbors(v);
    let ghost n = g@;
    let mut r: HashSet<usize> = HashSet::new();
    let mut i: usize = 0;
    while i < list.len()
        invariant
            n == g@,
            n.wf(),
            list@ == n.neighbors(v),
            i <= list@.len(),
            r@.finite(),
            forall|c: usize| #[trigger] r@.contains(c) <==> exists|j: int|
                0 <= j < i && coloring@.contains_key(#[trigger] list@[j]) && coloring@[list@[j]] == c,
        decreases list@.len() - i,
    {
        let w: u64 = list[i];
        match coloring.get(&w) {
            Some(c) => {
                r.insert(*c);
            },
            None => {},
        }
        assert(list@[i as int] == w);
        i += 1;
    }
    proof {
        assert forall|c: usize| r@.contains(c) <==> near_colors(n, coloring@, v).contains(c) by {
            if r@.contains(c) {
                let j = choose|j: int| 0 <= j < i && coloring@.contains_key(#[trigger] list@[j]) && coloring@[list@[j]] == c;
                lemma_neighbors(n, v, list@[j]);
                assert(n.neighbors(v).contains(list@[j]));
                assert(coloring@.contains_key(list@[j]));
            }
            if has_near_color(n, coloring@, v, c) {
                let w = choose|w: u64| #[trigger] coloring@.contains_key(w) && n.adjacent(v, w) && coloring@[w] == c;
                lemma_neighbors(n, v, w);
                let j = list@.index_of(w);
                assert(list@[j] == w);
            }
        }
        assert(r@ =~= near_colors(n, coloring@, v));
    }
    r
}

/// A set that holds all numbers below a bound has at least that many members.
proof fn lemma_initial_segment(used: Set<usize>, c: usize)
    requires
        used.finite(),
        forall|d: usize| d < c ==> #[trigger] used.contains(d),
    ensures
        c <= used.len(),
    decreases c,
{
    if c > 0 {
        let b = (c - 1) as usize;
        let rest = used.remove(b);
        assert(used.contains(b));
        assert forall|d: usize| d < b implies #[trigger] rest.contains(d) by {
            assert(used.contains(d));
        }
        lemma_initial_segment(rest, b);
    }
}

fn smallest_free(used: &HashSet<usize>) -> (c: usize)
    requires
        used@.finite(),
    ensures
        first_free(used@, c),
{
    let mut c: usize = 0;
    let len: usize = used.len();
    while used.contains(&c)
        invariant
            used@.finite(),
            len == used@.len(),
            c <= len,
            forall|d: usize| d < c ==> #[trigger] used@.contains(d),
        decreases len - c,
    {
        proof {
            if c == len {
                let rest = used@.remove(c);
                assert forall|d: usize| d < c implies #[trigger] rest.contains(d) by {
                    assert(used@.contains(d));
                }
                lemma_initial_segment(rest, c);
            }
        }
        c += 1;
    }
    c
}

/// The vertices of a ranking, in its order.
pub open spec fn ranked_vertices(r: Seq<(u64, usize)>) -> Seq<u64> {
    r.map_values(|p: (u64, usize)| p.0)
}

/// Whether a coloring is the greedy one: by falling degree, vertices of one degree in the order of
/// the storage.
pub open spec fn is_greedy(n: Network, m: Map<u64, usize>) -> bool {
    exists|r: Seq<(u64, usize)>| #[trigger] is_ranking(n, r) && colored_in_order(n, ranked_vertices(r), m)
}

/// Greedy graph coloring (Welsh-Powell heuristic: sort by degree descending).
/// Returns a map from vertex to color number (starting from 0).
pub fn greedy_coloring(g: &Graph) -> (r: HashMap<u64, usize>)
    ensures
        is_greedy(g@, r@),
        r@.dom() == g@.vertices.to_set(),
        is_proper(g@, r@),
{
    let ghost n = g@;
    let all = g.vertices();
    let ranking = degree_centrality(g);
    let ghost line = ranked_vertices(ranking@);
    proof {
        ranking_holds_every_vertex(n, ranking@);
    }
    let mut coloring: HashMap<u64, usize> = HashMap::new();
    let mut i: usize = 0;
    assert(line.take(0).to_set() =~= coloring@.dom());
    while i < ranking.len()
        invariant
            n == g@,
            line == ranked_vertices(ranking@),
            line.no_duplicates(),
            i <= ranking@.len(),
            colored_in_order(n, line.take(i as int), coloring@),
        decreases ranking@.len() - i,
    {
        let v: u64 = ranking[i].0;
        let used = colors_near(g, &coloring, v);
        let c: usize = smallest_free(&used);
        proof {
            let order = line.take(i as int);
            assert(line[i as int] == v);
            assert(!coloring@.contains_key(v)) by {
                if order.to_set().contains(v) {
                    let k = order.index_of(v);
                    assert(line[k] == v);
                }
            }
            lemma_color_step(n, order, coloring@, v, c);
            assert(line.take(i + 1) =~= order.push(v));
        }
        coloring.insert(v, c);
        i += 1;
    }
    proof {
        assert(line.take(i as int) =~= line);
        assert(is_ranking(n, ranking@) && colored_in_order(n, ranked_vertices(ranking@), coloring@));
        first_free_colors_are_proper(n, line, coloring@);
    }
    coloring
}

/// Whether a vertex comes no later than another: it has more colors around it, or as many and no
/// smaller degree.
pub open spec fn saturates(n: Network, m: Map<u64, usize>, v: u64, w: u64) -> bool {
    let a = near_colors(n, m, v).len();
    let b = near_colors(n, m, w).len();
    a > b || (a == b && n.degree(v) >= n.degree(w))
}

/// Whether each vertex of an order was one of the most saturated among those not yet colored.
pub open spec fn picked_by_saturation(n: Network, order: Seq<u64>, m: Map<u64, usize>) -> bool {
    forall|i: int, w: u64|
        0 <= i < order.len() && n.vertices.contains(w) && !colors_before(order, m, i).contains_key(w) ==> #[trigger] saturates(
            n,
            colors_before(order, m, i),
            order[i],
            w,
        )
}

/// Whether a coloring came about vertex by vertex, the most saturated one next.
pub open spec fn is_dsatur(n: Network, m: Map<u64, usize>) -> bool {
    exists|order: Seq<u64>| #[trigger] colored_in_order(n, order, m) && picked_by_saturation(n, order, m)
}

fn most_saturated(g: &Graph, coloring: &HashMap<u64, usize>) -> (r: Option<u64>)
    ensures
        r is None ==> forall|v: u64| #[trigger] g@.vertices.contains(v) ==> coloring@.contains_key(v),
        r matches Some(v) ==> g@.vertices.contains(v) && !coloring@.contains_key(v) && forall|w: u64|
            g@.vertices.contains(w) && !coloring@.contains_key(w) ==> #[trigger] saturates(g@, coloring@, v, w),
{
    let all = g.vertices();
    let ghost n = g@;
    let mut next: Option<u64> = None;
    let mut max_sat: usize = 0;
    let mut max_deg: usize = 0;
    let mut i: usize = 0;
    while i < all.len()
        invariant
            n == g@,
            n.wf(),
            all@ == n.vertices,
            i <= all@.len(),
            next is None ==> forall|j: int| 0 <= j < i ==> coloring@.contains_key(#[trigger] all@[j]),
            next matches Some(v) ==> n.vertices.contains(v) && !coloring@.contains_key(v) && max_sat == near_colors(
                n,
                coloring@,
                v,
            ).len() && max_deg == n.degree(v),
            next matches Some(v) ==> forall|j: int|
                0 <= j < i && !coloring@.contains_key(#[trigger] all@[j]) ==> saturates(n, coloring@, v, all@[j]),
        decreases all@.len() - i,
    {
        let v: u64 = all[i];
        assert(n.vertices.contains(v));
        if !coloring.contains_key(&v) {
            let sat: usize = colors_near(g, coloring, v).len();
            let deg: usize = g.neighbors(v).len();
            if next.is_none() || sat > max_sat || (sat == max_sat && deg > max_deg) {
                max_sat = sat;
                max_deg = deg;
                next = Some(v);
            }
        }
        i += 1;
    }
    proof {
        assert forall|v: u64| #[trigger] n.vertices.contains(v) && next is None implies coloring@.contains_key(v) by {
            assert(all@[n.vertices.index_of(v)] == v);
        }
        if next is Some {
            assert forall|w: u64| n.vertices.contains(w) && !coloring@.contains_key(w) implies #[trigger] saturates(
                n,
                coloring@,
                next->0,
                w,
            ) by {
                assert(all@[n.vertices.index_of(w)] == w);
            }
        }
    }
    next
}

/// DSatur (Degree of Saturation) coloring algorithm.
/// At each step, color the vertex with the highest saturation degree
/// (number of differently colored neighbors), breaking ties by degree.
pub fn dsatur_coloring(g: &Graph) -> (r: HashMap<u64, usize>)
    ensures
        is_dsatur(g@, r@),
        r@.dom() == g@.vertices.to_set(),
        is_proper(g@, r@),
{
    let ghost n = g@;
    let ghost mut order: Seq<u64> = Seq::empty();
    let mut coloring: HashMap<u64, usize> = HashMap::new();
    assert(order.to_set() =~= coloring@.dom());
    let mut next = most_saturated(g, &coloring);
    while next.is_some()
        invariant
            n == g@,
            colored_in_order(n, order, coloring@),
            picked_by_saturation(n, order, coloring@),
            coloring@.dom().subset_of(n.vertices.to_set()),
            next is None ==> forall|v: u64| #[trigger] n.vertices.contains(v) ==> coloring@.contains_key(v),
            next matches Some(v) ==> n.vertices.contains(v) && !coloring@.contains_key(v) && forall|w: u64|
                n.vertices.contains(w) && !coloring@.contains_key(w) ==> #[trigger] saturates(n, coloring@, v, w),
        decreases n.vertices.to_set().difference(coloring@.dom()).len(),
    {
        let v: u64 = match next {
            Some(v) => v,
            None => 0,
        };
        let used = colors_near(g, &coloring, v);
        let c: usize = smallest_free(&used);
        let ghost m = coloring@;
        coloring.insert(v, c);
        proof {
            lemma_color_step(n, order, m, v, c);
            let o = order.push(v);
            assert forall|i: int, w: u64|
                0 <= i < o.len() && n.vertices.contains(w) && !colors_before(o, coloring@, i).contains_key(
                    w,
                ) implies #[trigger] saturates(n, colors_before(o, coloring@, i), o[i], w) by {
                if i < order.len() {
                    assert(colors_before(o, coloring@, i) == colors_before(order, m, i));
                    assert(o[i] == order[i]);
                    assert(saturates(n, colors_before(order, m, i), order[i], w));
                } else {
                    assert(colors_before(o, coloring@, i) == m);
                }
            }
            order = o;
            let a = n.vertices.to_set().difference(m.dom());
            assert(a.contains(v));
            assert(n.vertices.to_set().difference(coloring@.dom()) =~= a.remove(v));
        }
        next = most_saturated(g, &coloring);
    }
    proof {
        first_free_colors_are_proper(n, order, coloring@);
        assert(coloring@.dom() =~= n.vertices.to_set());
        assert(colored_in_order(n, order, coloring@) && picked_by_saturation(n, order, coloring@));
    }
    coloring
}

/// The colors of a coloring.
pub open spec fn colors_used(m: Map<u64, usize>) -> Set<usize> {
    m.values()
}

/// Number of colors used in a coloring.
pub fn chromatic_number(coloring: &HashMap<u64, usize>) -> (r: usize)
    ensures
        colors_used(coloring@).finite(),
        r == colors_used(coloring@).len(),
{
    let mut seen: HashSet<usize> = HashSet::new();
    let ghost m = coloring@;
    for kv in it: coloring.iter()
        invariant
            m == coloring@,
            seen@.finite(),
            forall|j: int| 0 <= j < it.seq().len() ==> m.contains_key(*(#[trigger] it.seq()[j]).0) && m[*it.seq()[j].0] == *it.seq()[j].1,
            forall|c: usize| #[trigger] seen@.contains(c) <==> exists|j: int| 0 <= j < it.index() && *(#[trigger] it.seq()[j]).1 == c,
            forall|v: u64| #[trigger] m.contains_key(v) ==> exists|j: int| 0 <= j < it.seq().len() && *(#[trigger] it.seq()[j]).0 == v,
    {
        assert(*it.seq()[it.index() as int].1 == *kv.1);
        seen.insert(*kv.1);
    }
    proof {
        assert forall|c: usize| seen@.contains(c) <==> colors_used(m).contains(c) by {
            if seen@.contains(c) {
            }
            if colors_used(m).contains(c) {
                let v = choose|v: u64| #[trigger] m.contains_key(v) && m[v] == c;
                assert(m.contains_key(v));
            }
        }
        assert(seen@ =~= colors_used(m));
    }
    seen.len()
}

} // verus!
