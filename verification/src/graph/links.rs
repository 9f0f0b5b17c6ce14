//! Link prediction: scores of pairs of vertices by the neighbors that they share.
use std::collections::HashMap;

use vstd::prelude::*;

use crate::graph::order::{ascending, lemma_ordered, ordered, sorted_neighbors};
use crate::graph::partition::{community, has_edge};
use crate::graph::{lemma_neighbors, Graph, Network};
use crate::quantity::{compared, decides, Compared, Quantity};

verus! {

broadcast use vstd::std_specs::hash::group_hash_axioms;

/// The vertices adjacent to both of two vertices.
pub open spec fn shared(n: Network, a: u64, b: u64) -> Set<u64> {
    n.neighbor_set(a).intersect(n.neighbor_set(b))
}

/// Those of an ascending list that are adjacent to a vertex, in ascending order.
fn shared_neighbors(g: &Graph, a: u64, b: u64) -> (r: Vec<u64>)
    ensures
        ascending(r@),
        r@.no_duplicates(),
        r@.to_set() == shared(g@, a, b),
        r@ == ordered(shared(g@, a, b)),
{
    let list = sorted_neighbors(g, a);
    let near = g.neighbor_set(b);
    let mut r: Vec<u64> = Vec::new();
    let mut i: usize = 0;
    while i < list.len()
        invariant
            ascending(list@),
            i <= list@.len(),
            ascending(r@),
            forall|x: u64| #[trigger] r@.contains(x) <==> near@.contains(x) && exists|j: int| 0 <= j < i && list@[j] == x,
        decreases list@.len() - i,
    {
        let x: u64 = list[i];
        let ghost s = r@;
        if near.contains(&x) {
            r.push(x);
            proof {
                assert forall|a: int, b: int| 0 <= a < b < r@.len() implies r@[a] < r@[b] by {
                    if b == s.len() {
                        assert(s.contains(s[a]));
                        let j = choose|j: int| 0 <= j < i && list@[j] == s[a];
                        assert(list@[j] < list@[i as int]);
                    }
                }
                assert forall|y: u64| #[trigger] r@.contains(y) <==> near@.contains(y) && exists|j: int|
                    0 <= j < i + 1 && list@[j] == y by {
                    if s.contains(y) {
                        assert(r@[s.index_of(y)] == y);
                    }
                    if y == x {
                        assert(r@[s.len() as int] == x);
                        assert(list@[i as int] == x);
                    }
                    if r@.contains(y) && y != x {
                        assert(s[r@.index_of(y)] == y);
                    }
                }
            }
        }
        i += 1;
    }
    proof {
        assert forall|x: u64| r@.to_set().contains(x) <==> shared(g@, a, b).contains(x) by {
            if shared(g@, a, b).contains(x) {
                assert(list@.to_set().contains(x));
                assert(list@[list@.index_of(x)] == x);
            }
            if r@.contains(x) {
                let j = choose|j: int| 0 <= j < i && list@[j] == x;
                assert(list@.contains(list@[j]));
                assert(list@.to_set().contains(x));
            }
        }
        assert(r@.to_set() =~= shared(g@, a, b));
        lemma_ordered(r@);
    }
    r
}

/// A sum over the first `k` vertices of a list.
pub open spec fn sum_terms(list: Seq<u64>, term: spec_fn(u64) -> Quantity, k: nat) -> Quantity
    decreases k,
{
    if k == 0 {
        Quantity::Count(0)
    } else {
        Quantity::sum(sum_terms(list, term, (k - 1) as nat), term(list[k - 1]))
    }
}

/// What a shared neighbor adds to the Adamic-Adar index.
pub open spec fn adamic_adar_term(n: Network) -> spec_fn(u64) -> Quantity {
    |c: u64|
        {
            let deg = n.neighbor_set(c).len();
            if deg > 1 {
                Quantity::quotient(Quantity::Count(1), Quantity::ln(Quantity::Count(deg as u64)))
            } else {
                Quantity::Count(0)
            }
        }
}

/// What a shared neighbor adds to the Resource Allocation index.
pub open spec fn resource_term(n: Network) -> spec_fn(u64) -> Quantity {
    |c: u64| Quantity::quotient(Quantity::Count(1), Quantity::Count(n.neighbor_set(c).len() as u64))
}

/// The Adamic-Adar index of two vertices: the sum over their shared neighbors, in ascending order.
pub open spec fn adamic_adar_index(n: Network, a: u64, b: u64) -> Quantity {
    let list = ordered(shared(n, a, b));
    sum_terms(list, adamic_adar_term(n), list.len())
}

/// The Resource Allocation index of two vertices: the sum over their shared neighbors, in ascending
/// order.
pub open spec fn resource_index(n: Network, a: u64, b: u64) -> Quantity {
    let list = ordered(shared(n, a, b));
    sum_terms(list, resource_term(n), list.len())
}

/// Adamic-Adar index: sum over common neighbors of 1 / log(degree).
/// Higher scores indicate a stronger likelihood of a future edge.
pub fn adamic_adar(g: &Graph, a: u64, b: u64) -> (r: Quantity)
    ensures
        r == adamic_adar_index(g@, a, b),
{
    let list = shared_neighbors(g, a, b);
    let ghost n = g@;
    let mut sum = Quantity::Count(0);
    let mut i: usize = 0;
    while i < list.len()
        invariant
            n == g@,
            i <= list@.len(),
            sum == sum_terms(list@, adamic_adar_term(n), i as nat),
        decreases list@.len() - i,
    {
        let near = sorted_neighbors(g, list[i]);
        proof {
            near@.unique_seq_to_set();
        }
        let term = if near.len() > 1 {
            Quantity::Count(1).over(Quantity::Count(near.len() as u64).natural_log())
        } else {
            Quantity::Count(0)
        };
        sum = sum.plus(term);
        i += 1;
    }
    sum
}

/// The Preferential Attachment score of two vertices.
pub open spec fn attachment(n: Network, a: u64, b: u64) -> Quantity {
    Quantity::product(Quantity::Count(n.neighbor_set(a).len() as u64), Quantity::Count(n.neighbor_set(b).len() as u64))
}

/// Preferential Attachment score: |N(a)| * |N(b)|.
pub fn preferential_attachment(g: &Graph, a: u64, b: u64) -> (r: Quantity)
    ensures
        r == Quantity::product(
            Quantity::Count(g@.neighbor_set(a).len() as u64),
            Quantity::Count(g@.neighbor_set(b).len() as u64),
        ),
        r == attachment(g@, a, b),
{
    let na = sorted_neighbors(g, a);
    let nb = sorted_neighbors(g, b);
    proof {
        na@.unique_seq_to_set();
        nb@.unique_seq_to_set();
    }
    Quantity::Count(na.len() as u64).times(Quantity::Count(nb.len() as u64))
}

/// Resource Allocation index: sum over common neighbors of 1 / degree.
pub fn resource_allocation(g: &Graph, a: u64, b: u64) -> (r: Quantity)
    ensures
        r == resource_index(g@, a, b),
{
    let list = shared_neighbors(g, a, b);
    let ghost n = g@;
    let mut sum = Quantity::Count(0);
    let mut i: usize = 0;
    while i < list.len()
        invariant
            n == g@,
            i <= list@.len(),
            sum == sum_terms(list@, resource_term(n), i as nat),
        decreases list@.len() - i,
    {
        let near = sorted_neighbors(g, list[i]);
        proof {
            near@.unique_seq_to_set();
        }
        sum = sum.plus(Quantity::Count(1).over(Quantity::Count(near.len() as u64)));
        i += 1;
    }
    sum
}

/// A vertex that two vertices share has neighbors: its share can be told.
pub proof fn shared_neighbors_have_neighbors(n: Network, a: u64, b: u64, c: u64)
    requires
        shared(n, a, b).contains(c),
    ensures
        n.neighbor_set(c).len() > 0,
{
    lemma_neighbors(n, a, c);
    lemma_neighbors(n, c, a);
    let s = n.neighbor_set(c);
    assert(s.contains(a));
    assert(s.len() > 0) by {
        if s.len() == 0 {
            s.lemma_len0_is_empty();
        }
    }
}

/// Common Neighbors count.
pub fn common_neighbors_count(g: &Graph, a: u64, b: u64) -> (r: usize)
    ensures
        r == shared(g@, a, b).len(),
{
    let list = shared_neighbors(g, a, b);
    proof {
        list@.unique_seq_to_set();
    }
    list.len()
}

/// Those shared neighbors of two vertices that belong to a community.
pub open spec fn shared_in(n: Network, part: Map<u64, usize>, a: u64, b: u64) -> Set<u64> {
    shared(n, a, b).filter(|c: u64| community(part, c) == community(part, a))
}

/// The Soundarajan-Hopcroft score: the shared neighbors in the community of the two vertices; none
/// where they belong to different ones.
pub open spec fn community_score(n: Network, part: Map<u64, usize>, a: u64, b: u64) -> nat {
    if community(part, a) != community(part, b) {
        0
    } else {
        shared_in(n, part, a, b).len()
    }
}

fn in_same_community(part: &HashMap<u64, usize>, a: u64, b: u64) -> (r: bool)
    ensures
        r == (community(part@, a) == community(part@, b)),
{
    match (part.get(&a), part.get(&b)) {
        (Some(x), Some(y)) => *x == *y,
        (None, None) => true,
        _ => false,
    }
}

/// Soundarajan-Hopcroft score (community-aware common neighbors).
/// Vertices in the same community (same component id) score higher.
pub fn soundarajan_hopcroft(g: &Graph, a: u64, b: u64, communities: &HashMap<u64, usize>) -> (r: usize)
    ensures
        r == community_score(g@, communities@, a, b),
{
    if !in_same_community(communities, a, b) {
        return 0;
    }
    let list = shared_neighbors(g, a, b);
    let ghost n = g@;
    let ghost part = communities@;
    let ghost keep = |c: u64| community(part, c) == community(part, a);
    let mut r: usize = 0;
    let mut i: usize = 0;
    assert(list@.take(0).to_set().filter(keep) =~= Set::<u64>::empty());
    while i < list.len()
        invariant
            n == g@,
            part == communities@,
            keep == (|c: u64| community(part, c) == community(part, a)),
            list@.no_duplicates(),
            i <= list@.len(),
            r <= i,
            r == list@.take(i as int).to_set().filter(keep).len(),
        decreases list@.len() - i,
    {
        let c: u64 = list[i];
        proof {
            let s = list@.take(i as int);
            let t = list@.take(i + 1);
            assert forall|v: u64| t.to_set().contains(v) <==> s.to_set().insert(c).contains(v) by {
                if s.contains(v) {
                    assert(t[s.index_of(v)] == v);
                }
                assert(t[i as int] == c);
                if t.contains(v) && v != c {
                    assert(s[t.index_of(v)] == v);
                }
            }
            assert(!s.contains(c)) by {
                if s.contains(c) {
                    assert(list@[s.index_of(c)] == c);
                }
            }
            if keep(c) {
                assert(t.to_set().filter(keep) =~= s.to_set().filter(keep).insert(c));
            } else {
                assert(t.to_set().filter(keep) =~= s.to_set().filter(keep));
            }
            s.to_set().lemma_len_filter(keep);
        }
        if in_same_community(communities, c, a) {
            r += 1;
        }
        i += 1;
    }
    proof {
        assert(list@.take(i as int) =~= list@);
        assert(list@.to_set().filter(keep) =~= shared_in(n, part, a, b));
    }
    r
}

/// A pair of vertices with its score.
pub struct Link {
    pub a: u64,
    pub b: u64,
    pub score: Quantity,
}

/// Whether two vertices that are not adjacent have a score above zero.
pub open spec fn is_likely<F: Fn(&Quantity, &Quantity) -> Compared>(compare: F, n: Network, a: u64, b: u64) -> bool {
    !n.adjacent(a, b) && compared(compare, adamic_adar_index(n, a, b), Quantity::Count(0)) is Greater
}

/// The likely links of the vertex at position `i` with those at the positions from there up to `j`.
pub open spec fn likely_row<F: Fn(&Quantity, &Quantity) -> Compared>(compare: F, n: Network, i: int, j: int) -> Seq<Link>
    decreases j - i,
{
    if j <= i + 1 {
        Seq::empty()
    } else {
        let before = likely_row(compare, n, i, j - 1);
        let a = n.vertices[i];
        let b = n.vertices[j - 1];
        if is_likely(compare, n, a, b) {
            before.push(Link { a, b, score: adamic_adar_index(n, a, b) })
        } else {
            before
        }
    }
}

/// The likely links of the first `i` vertices, in the order of the storage.
pub open spec fn likely_links<F: Fn(&Quantity, &Quantity) -> Compared>(compare: F, n: Network, i: nat) -> Seq<Link>
    decreases i,
{
    if i == 0 {
        Seq::empty()
    } else {
        likely_links(compare, n, (i - 1) as nat) + likely_row(compare, n, i - 1, n.vertices.len() as int)
    }
}

/// A comparison that never finds two quantities each below the other.
pub open spec fn asymmetric<F: Fn(&Quantity, &Quantity) -> Compared>(compare: F) -> bool {
    forall|a: Quantity, b: Quantity|
        #![trigger compared(compare, a, b), compared(compare, b, a)]
        compared(compare, a, b) is Less ==> !(compared(compare, b, a) is Less)
}

/// Whether links stand in an order of falling scores. `from` gives for each the position that it
/// had before; neighbors with equal scores keep their order.
pub open spec fn falls<F: Fn(&Quantity, &Quantity) -> Compared>(compare: F, links: Seq<Link>, from: Seq<int>) -> bool {
    forall|i: int, j: int|
        0 <= i && j == i + 1 && j < links.len() ==> {
            let a = (#[trigger] links[i]).score;
            let b = (#[trigger] links[j]).score;
            !(compared(compare, a, b) is Less) && (compared(compare, b, a) is Less || from[i] < from[j])
        }
}

/// Whether a sequence holds the entries of another, each once, at other positions.
pub open spec fn rearranges(links: Seq<Link>, from: Seq<int>, source: Seq<Link>) -> bool {
    &&& links.len() == source.len()
    &&& from.len() == source.len()
    &&& from.no_duplicates()
    &&& forall|i: int| 0 <= i < links.len() ==> 0 <= #[trigger] from[i] < source.len() && links[i] == source[from[i]]
}

/// Whether links are the best ones of a list.
pub open spec fn are_best<F: Fn(&Quantity, &Quantity) -> Compared>(
    compare: F,
    links: Seq<Link>,
    source: Seq<Link>,
    top: nat,
) -> bool {
    exists|all: Seq<Link>, from: Seq<int>|
        #![trigger rearranges(all, from, source)]
        rearranges(all, from, source) && falls(compare, all, from) && links == all.take(
            if top <= all.len() {
                top as int
            } else {
                all.len() as int
            },
        )
}

/// All links between vertices that are not adjacent, with a score above zero.
fn find_links<F: Fn(&Quantity, &Quantity) -> Compared>(g: &Graph, compare: &F) -> (r: Vec<Link>)
    requires
        decides(*compare),
    ensures
        r@ == likely_links(*compare, g@, g@.vertices.len()),
{
    let all = g.vertices();
    let ghost n = g@;
    let mut r: Vec<Link> = Vec::new();
    let mut i: usize = 0;
    while i < all.len()
        invariant
            n == g@,
            all@ == n.vertices,
            decides(*compare),
            i <= all@.len(),
            r@ == likely_links(*compare, n, i as nat),
        decreases all@.len() - i,
    {
        let a: u64 = all[i];
        let ghost start = r@;
        let mut j: usize = i + 1;
        assert(r@ =~= start + likely_row(*compare, n, i as int, j as int));
        while j < all.len()
            invariant
                n == g@,
                all@ == n.vertices,
                decides(*compare),
                i < all@.len(),
                a == all@[i as int],
                i + 1 <= j <= all@.len(),
                r@ == start + likely_row(*compare, n, i as int, j as int),
            decreases all@.len() - j,
        {
            let b: u64 = all[j];
            let ghost now = r@;
            if !has_edge(g, a, b) {
                let score = adamic_adar(g, a, b);
                if compare(&score, &Quantity::Count(0)) == Compared::Greater {
                    r.push(Link { a, b, score });
                }
            }
            assert(r@ =~= start + likely_row(*compare, n, i as int, j + 1));
            j += 1;
        }
        i += 1;
    }
    r
}

/// Puts a link behind the last one that is not below it.
fn insert_link<F: Fn(&Quantity, &Quantity) -> Compared>(
    links: &mut Vec<Link>,
    link: Link,
    compare: &F,
    Ghost(from): Ghost<Seq<int>>,
    Ghost(at): Ghost<int>,
) -> (k: usize)
    requires
        decides(*compare),
        asymmetric(*compare),
        from.len() == old(links)@.len(),
        falls(*compare, old(links)@, from),
        forall|i: int| 0 <= i < from.len() ==> #[trigger] from[i] < at,
    ensures
        k <= old(links)@.len(),
        final(links)@ == old(links)@.insert(k as int, link),
        falls(*compare, final(links)@, from.insert(k as int, at)),
{
    let ghost s = links@;
    let mut k: usize = links.len();
    while k > 0 && compare(&links[k - 1].score, &link.score) == Compared::Less
        invariant
            links@ == s,
            k <= s.len(),
            decides(*compare),
            forall|i: int| k <= i < s.len() ==> compared(*compare, (#[trigger] s[i]).score, link.score) is Less,
        decreases k,
    {
        k -= 1;
    }
    links.insert(k, link);
    proof {
        let t = links@;
        let f = from.insert(k as int, at);
        assert(t =~= s.insert(k as int, link));
        assert forall|i: int, j: int| 0 <= i && j == i + 1 && j < t.len() implies {
            let a = (#[trigger] t[i]).score;
            let b = (#[trigger] t[j]).score;
            !(compared(*compare, a, b) is Less) && (compared(*compare, b, a) is Less || f[i] < f[j])
        } by {
            if j < k {
                assert(t[i] == s[i] && t[j] == s[j]);
            } else if j == k {
                assert(t[i] == s[i]);
                assert(from[i] < at);
            } else if i == k {
                assert(t[j] == s[i]);
            } else {
                assert(t[i] == s[i - 1] && t[j] == s[j - 1]);
                assert(f[i] == from[i - 1] && f[j] == from[j - 1]);
            }
        }
    }
    k
}

/// The link of the vertices at two positions.
spec fn link_at(n: Network, p: int, q: int) -> Link {
    Link { a: n.vertices[p], b: n.vertices[q], score: adamic_adar_index(n, n.vertices[p], n.vertices[q]) }
}

/// Whether a link is the one of the vertices at two positions, the first of them before the other, and
/// likely.
spec fn is_link_at<F: Fn(&Quantity, &Quantity) -> Compared>(compare: F, n: Network, link: Link, p: int, q: int) -> bool {
    0 <= p < q < n.vertices.len() && is_likely(compare, n, n.vertices[p], n.vertices[q]) && link == link_at(n, p, q)
}

spec fn in_row<F: Fn(&Quantity, &Quantity) -> Compared>(compare: F, n: Network, link: Link, p: int, end: int) -> bool {
    exists|q: int| q < end && #[trigger] is_link_at(compare, n, link, p, q)
}

spec fn in_rows<F: Fn(&Quantity, &Quantity) -> Compared>(compare: F, n: Network, link: Link, rows: int) -> bool {
    exists|p: int, q: int| p < rows && #[trigger] is_link_at(compare, n, link, p, q)
}

proof fn lemma_row<F: Fn(&Quantity, &Quantity) -> Compared>(compare: F, n: Network, i: int, j: int)
    requires
        n.wf(),
        0 <= i < n.vertices.len(),
        i < j <= n.vertices.len(),
    ensures
        forall|k: int|
            0 <= k < likely_row(compare, n, i, j).len() ==> in_row(compare, n, #[trigger] likely_row(compare, n, i, j)[k], i, j),
        forall|q: int|
            i < q < j && is_likely(compare, n, n.vertices[i], n.vertices[q]) ==> likely_row(compare, n, i, j).contains(
                #[trigger] link_at(n, i, q),
            ),
        forall|k: int, m: int|
            0 <= k < m < likely_row(compare, n, i, j).len() ==> (#[trigger] likely_row(compare, n, i, j)[k]).b != (
            #[trigger] likely_row(compare, n, i, j)[m]).b,
    decreases j - i,
{
    if j > i + 1 {
        lemma_row(compare, n, i, j - 1);
        let before = likely_row(compare, n, i, j - 1);
        let row = likely_row(compare, n, i, j);
        assert forall|k: int| 0 <= k < row.len() implies in_row(compare, n, #[trigger] row[k], i, j) by {
            if k < before.len() {
                assert(row[k] == before[k]);
                let q = choose|q: int| q < j - 1 && is_link_at(compare, n, before[k], i, q);
                assert(is_link_at(compare, n, row[k], i, q));
            } else {
                assert(is_link_at(compare, n, row[k], i, j - 1));
            }
        }
        assert forall|q: int| i < q < j && is_likely(compare, n, n.vertices[i], n.vertices[q]) implies row.contains(#[trigger] link_at(n, i, q)) by {
            if q < j - 1 {
                let k = before.index_of(link_at(n, i, q));
                assert(row[k] == link_at(n, i, q));
            } else {
                assert(row[before.len() as int] == link_at(n, i, q));
            }
        }
        assert forall|k: int, m: int| 0 <= k < m < row.len() implies (#[trigger] row[k]).b != (#[trigger] row[m]).b by {
            assert(row[k] == before[k]);
            if m < before.len() {
                assert(row[m] == before[m]);
            } else {
                let q = choose|q: int| q < j - 1 && is_link_at(compare, n, before[k], i, q);
                assert(n.vertices[q] != n.vertices[j - 1]);
            }
        }
    }
}

proof fn lemma_links<F: Fn(&Quantity, &Quantity) -> Compared>(compare: F, n: Network, i: nat)
    requires
        n.wf(),
        i <= n.vertices.len(),
    ensures
        forall|k: int|
            0 <= k < likely_links(compare, n, i).len() ==> in_rows(compare, n, #[trigger] likely_links(compare, n, i)[k], i as int),
        forall|p: int, q: int|
            0 <= p < i && p < q < n.vertices.len() && is_likely(compare, n, n.vertices[p], n.vertices[q])
                ==> likely_links(compare, n, i).contains(#[trigger] link_at(n, p, q)),
        forall|k: int, m: int|
            0 <= k < m < likely_links(compare, n, i).len() ==> (#[trigger] likely_links(compare, n, i)[k]).a != (
            #[trigger] likely_links(compare, n, i)[m]).a || likely_links(compare, n, i)[k].b != likely_links(compare, n, i)[m].b,
    decreases i,
{
    if i > 0 {
        let end = n.vertices.len() as int;
        let h: int = i - 1;
        lemma_links(compare, n, (i - 1) as nat);
        lemma_row(compare, n, h, end);
        let before = likely_links(compare, n, (i - 1) as nat);
        let row = likely_row(compare, n, h, end);
        let all = likely_links(compare, n, i);
        assert forall|k: int| 0 <= k < all.len() implies in_rows(compare, n, #[trigger] all[k], i as int) by {
            if k < before.len() {
                assert(all[k] == before[k]);
                let (p, q) = choose|p: int, q: int| p < i - 1 && is_link_at(compare, n, before[k], p, q);
                assert(is_link_at(compare, n, all[k], p, q));
            } else {
                assert(all[k] == row[k - before.len()]);
                let l = row[k - before.len()];
                let q = choose|q: int| q < end && #[trigger] is_link_at(compare, n, l, h, q);
                assert(is_link_at(compare, n, all[k], h, q));
            }
        }
        assert forall|p: int, q: int|
            0 <= p < i && p < q < n.vertices.len() && is_likely(compare, n, n.vertices[p], n.vertices[q]) implies all.contains(
            #[trigger] link_at(n, p, q),
        ) by {
            if p < i - 1 {
                let k = before.index_of(link_at(n, p, q));
                assert(all[k] == link_at(n, p, q));
            } else {
                let k = row.index_of(link_at(n, p, q));
                assert(all[before.len() + k] == link_at(n, p, q));
            }
        }
        assert forall|k: int, m: int| 0 <= k < m < all.len() implies (#[trigger] all[k]).a != (#[trigger] all[m]).a || all[k].b != all[m].b by {
            if m < before.len() {
                assert(all[k] == before[k] && all[m] == before[m]);
            } else if k >= before.len() {
                assert(all[k] == row[k - before.len()] && all[m] == row[m - before.len()]);
            } else {
                assert(all[k] == before[k] && all[m] == row[m - before.len()]);
                let (p, q) = choose|p: int, q: int| p < i - 1 && is_link_at(compare, n, before[k], p, q);
                let l = row[m - before.len()];
                let w = choose|w: int| w < end && #[trigger] is_link_at(compare, n, l, h, w);
                assert(n.vertices[p] != n.vertices[h]);
            }
        }
    }
}

/// A comparison by which, among the scores of some links, what is not below stays not below over several
/// steps.
pub open spec fn keeps_order<F: Fn(&Quantity, &Quantity) -> Compared>(compare: F, links: Seq<Link>) -> bool {
    forall|i: int, j: int, k: int|
        #![trigger compared(compare, links[i].score, links[j].score), compared(compare, links[j].score, links[k].score)]
        0 <= i < links.len() && 0 <= j < links.len() && 0 <= k < links.len() && !(compared(
            compare,
            links[i].score,
            links[j].score,
        ) is Less) && !(compared(compare, links[j].score, links[k].score) is Less) ==> !(compared(
            compare,
            links[i].score,
            links[k].score,
        ) is Less)
}

proof fn lemma_falls<F: Fn(&Quantity, &Quantity) -> Compared>(compare: F, links: Seq<Link>, from: Seq<int>, i: int, j: int)
    requires
        keeps_order(compare, links),
        falls(compare, links, from),
        0 <= i < j < links.len(),
    ensures
        !(compared(compare, links[i].score, links[j].score) is Less),
    decreases j - i,
{
    if i + 1 < j {
        lemma_falls(compare, links, from, i, j - 1);
        assert(!(compared(compare, links[j - 1].score, links[j].score) is Less));
    }
}

/// Whether a link is one of two vertices, in either order.
pub open spec fn links_pair(link: Link, a: u64, b: u64) -> bool {
    (link.a == a && link.b == b) || (link.a == b && link.b == a)
}

/// The best of the likely links: no more than were asked for, each between two vertices that are not
/// adjacent and with their score, which is above zero. No pair is listed twice, and scores never rise. A
/// likely link is left out only where as many were found as were asked for, and none of them scores below
/// it. The scores of the likely links can be ordered.
pub proof fn best_links_leave_out_no_better<F: Fn(&Quantity, &Quantity) -> Compared>(
    compare: F,
    n: Network,
    links: Seq<Link>,
    top: nat,
)
    requires
        n.wf(),
        keeps_order(compare, likely_links(compare, n, n.vertices.len())),
        are_best(compare, links, likely_links(compare, n, n.vertices.len()), top),
    ensures
        links.len() <= top,
        forall|i: int|
            0 <= i < links.len() ==> {
                let l = #[trigger] links[i];
                &&& l.a != l.b
                &&& n.vertices.contains(l.a) && n.vertices.contains(l.b)
                &&& !n.adjacent(l.a, l.b)
                &&& l.score == adamic_adar_index(n, l.a, l.b)
                &&& compared(compare, l.score, Quantity::Count(0)) is Greater
            },
        forall|i: int, j: int|
            0 <= i < j < links.len() ==> {
                &&& !links_pair(#[trigger] links[i], (#[trigger] links[j]).a, links[j].b)
                &&& !(compared(compare, links[i].score, links[j].score) is Less)
            },
        forall|p: int, q: int|
            0 <= p < q < n.vertices.len() && #[trigger] is_likely(compare, n, n.vertices[p], n.vertices[q]) ==> {
                ||| exists|i: int| 0 <= i < links.len() && links_pair(#[trigger] links[i], n.vertices[p], n.vertices[q])
                ||| links.len() == top && forall|i: int|
                    0 <= i < links.len() ==> !(compared(
                        compare,
                        (#[trigger] links[i]).score,
                        adamic_adar_index(n, n.vertices[p], n.vertices[q]),
                    ) is Less)
            },
{
    let source = likely_links(compare, n, n.vertices.len());
    lemma_links(compare, n, n.vertices.len());
    let (all, from) = choose|all: Seq<Link>, from: Seq<int>|
        #![trigger rearranges(all, from, source)]
        rearranges(all, from, source) && falls(compare, all, from) && links == all.take(
            if top <= all.len() {
                top as int
            } else {
                all.len() as int
            },
        );
    assert(keeps_order(compare, all)) by {
        assert forall|i: int, j: int, k: int|
            #![trigger compared(compare, all[i].score, all[j].score), compared(compare, all[j].score, all[k].score)]
            0 <= i < all.len() && 0 <= j < all.len() && 0 <= k < all.len() && !(compared(compare, all[i].score, all[j].score) is Less)
                && !(compared(compare, all[j].score, all[k].score) is Less) implies !(compared(
            compare,
            all[i].score,
            all[k].score,
        ) is Less) by {
            assert(all[i] == source[from[i]] && all[j] == source[from[j]] && all[k] == source[from[k]]);
        }
    }
    assert forall|i: int| 0 <= i < all.len() implies in_rows(compare, n, #[trigger] all[i], n.vertices.len() as int) by {
        assert(all[i] == source[from[i]]);
        let (p, q) = choose|p: int, q: int| p < n.vertices.len() && is_link_at(compare, n, source[from[i]], p, q);
        assert(is_link_at(compare, n, all[i], p, q));
    }
    assert forall|i: int| 0 <= i < links.len() implies {
        let l = #[trigger] links[i];
        &&& l.a != l.b
        &&& n.vertices.contains(l.a) && n.vertices.contains(l.b)
        &&& !n.adjacent(l.a, l.b)
        &&& l.score == adamic_adar_index(n, l.a, l.b)
        &&& compared(compare, l.score, Quantity::Count(0)) is Greater
    } by {
        assert(links[i] == all[i]);
        let (p, q) = choose|p: int, q: int| is_link_at(compare, n, all[i], p, q);
        assert(n.vertices[p] != n.vertices[q]);
    }
    assert forall|i: int, j: int| 0 <= i < j < links.len() implies {
        &&& !links_pair(#[trigger] links[i], (#[trigger] links[j]).a, links[j].b)
        &&& !(compared(compare, links[i].score, links[j].score) is Less)
    } by {
        assert(links[i] == all[i] && links[j] == all[j]);
        lemma_falls(compare, all, from, i, j);
        assert(from[i] != from[j]);
        assert(all[i] == source[from[i]] && all[j] == source[from[j]]);
        assert(source[from[i]].a != source[from[j]].a || source[from[i]].b != source[from[j]].b);
        let (p, q) = choose|p: int, q: int| is_link_at(compare, n, all[i], p, q);
        let (v, w) = choose|p: int, q: int| is_link_at(compare, n, all[j], p, q);
        if n.vertices[p] == n.vertices[w] && n.vertices[q] == n.vertices[v] {
            assert(p == w && q == v);
        }
    }
    assert forall|p: int, q: int|
        0 <= p < q < n.vertices.len() && #[trigger] is_likely(compare, n, n.vertices[p], n.vertices[q]) implies {
        ||| exists|i: int| 0 <= i < links.len() && links_pair(#[trigger] links[i], n.vertices[p], n.vertices[q])
        ||| links.len() == top && forall|i: int|
            0 <= i < links.len() ==> !(compared(
                compare,
                (#[trigger] links[i]).score,
                adamic_adar_index(n, n.vertices[p], n.vertices[q]),
            ) is Less)
    } by {
        let l = link_at(n, p, q);
        assert(source.contains(l));
        let k = source.index_of(l);
        let m = lemma_reached(from, source.len(), k);
        assert(all[m] == l);
        if m < links.len() {
            assert(links[m] == l);
            assert(links_pair(links[m], n.vertices[p], n.vertices[q]));
        } else {
            assert forall|i: int| 0 <= i < links.len() implies !(compared(compare, (#[trigger] links[i]).score, l.score) is Less) by {
                assert(links[i] == all[i]);
                lemma_falls(compare, all, from, i, m);
            }
        }
    }
}

/// As many different positions as there are reach every position.
proof fn lemma_reached(from: Seq<int>, len: nat, k: int) -> (m: int)
    requires
        from.len() == len,
        from.no_duplicates(),
        forall|i: int| 0 <= i < len ==> 0 <= #[trigger] from[i] < len,
        0 <= k < len,
    ensures
        0 <= m < len,
        from[m] == k,
{
    let all = vstd::set_lib::set_int_range(0, len as int);
    vstd::set_lib::lemma_int_range(0, len as int);
    from.unique_seq_to_set();
    assert(from.to_set().subset_of(all)) by {
        assert forall|x: int| from.to_set().contains(x) implies all.contains(x) by {
            assert(from[from.index_of(x)] == x);
        }
    }
    vstd::set_lib::lemma_subset_equality(from.to_set(), all);
    assert(from.to_set().contains(k));
    from.index_of(k)
}

/// Link prediction for all non-adjacent vertex pairs.
/// Returns the best pairs sorted by Adamic-Adar score descending.
pub fn predict_links<F: Fn(&Quantity, &Quantity) -> Compared>(g: &Graph, compare: &F, top_k: usize) -> (r: Vec<Link>)
    requires
        decides(*compare),
        asymmetric(*compare),
    ensures
        are_best(*compare, r@, likely_links(*compare, g@, g@.vertices.len()), top_k as nat),
{
    let mut found = find_links(g, compare);
    let ghost source = found@;
    let mut sorted: Vec<Link> = Vec::new();
    let ghost mut from: Seq<int> = Seq::empty();
    let mut rest: Vec<Link> = Vec::new();
    while found.len() > 0
        invariant
            found@.len() + rest@.len() == source.len(),
            found@ == source.take(found@.len() as int),
            rest@ == source.skip(found@.len() as int).reverse(),
        decreases found@.len(),
    {
        let ghost k = found@.len() - 1;
        match found.pop() {
            Some(link) => {
                assert(link == source[k]);
                rest.push(link);
                assert(found@ =~= source.take(k));
                assert(rest@ =~= source.skip(k).reverse());
            },
            None => {},
        }
    }
    assert(source.skip(0) =~= source);
    assert(rest@ =~= source.reverse());
    while rest.len() > 0
        invariant
            decides(*compare),
            asymmetric(*compare),
            rest@.len() + sorted@.len() == source.len(),
            rest@ == source.reverse().take(rest@.len() as int),
            from.len() == sorted@.len(),
            from.no_duplicates(),
            forall|i: int|
                0 <= i < sorted@.len() ==> 0 <= #[trigger] from[i] < sorted@.len() && sorted@[i] == source[from[i]],
            falls(*compare, sorted@, from),
        decreases rest@.len(),
    {
        let ghost at = sorted@.len() as int;
        let ghost before = sorted@;
        let ghost from0 = from;
        match rest.pop() {
            Some(link) => {
                assert(link == source[at]);
                let k: usize = insert_link(&mut sorted, link, compare, Ghost(from), Ghost(at));
                proof {
                    from = from0.insert(k as int, at);
                    assert forall|i: int| 0 <= i < sorted@.len() implies 0 <= #[trigger] from[i] < sorted@.len() && sorted@[i]
                        == source[from[i]] by {
                        if i < k {
                            assert(from[i] == from0[i] && sorted@[i] == before[i]);
                        } else if i > k {
                            assert(from[i] == from0[i - 1] && sorted@[i] == before[i - 1]);
                        }
                    }
                    assert forall|i: int, j: int| 0 <= i < from.len() && 0 <= j < from.len() && i != j implies from[i] != from[j] by {
                        let x = if i < k { i } else { i - 1 };
                        let y = if j < k { j } else { j - 1 };
                        if i != k {
                            assert(from[i] == from0[x]);
                        }
                        if j != k {
                            assert(from[j] == from0[y]);
                        }
                    }
                    assert(rest@ =~= source.reverse().take(rest@.len() as int));
                }
            },
            None => {},
        }
    }
    let ghost whole = sorted@;
    assert(rearranges(whole, from, source));
    while sorted.len() > top_k
        invariant
            sorted@.len() <= whole.len(),
            sorted@ == whole.take(sorted@.len() as int),
            sorted@.len() < whole.len() ==> sorted@.len() >= top_k,
        decreases sorted@.len(),
    {
        let ghost k = sorted@.len() - 1;
        let last = sorted.pop();
        assert(sorted@ =~= whole.take(k));
    }
    proof {
        assert(sorted@ == whole.take(
            if top_k <= whole.len() {
                top_k as int
            } else {
                whole.len() as int
            },
        ));
    }
    sorted
}

} // verus!
