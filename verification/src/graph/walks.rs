//! Random walks in the style of node2vec and DeepWalk.
use vstd::prelude::*;

use crate::graph::partition::has_edge;
use crate::graph::{lemma_neighbors, Graph, Network};
use crate::quantity::{compared, decides, Compared, Quantity};

verus! {

/// Fast deterministic pseudo-random numbers (xorshift64*) for reproducible walks.
#[derive(Clone, Copy, Debug, PartialEq, Eq, Structural)]
pub struct FastRng {
    pub state: u64,
}

/// The state in which every walk starts.
pub const SEED: u64 = 0x123456789abcdef0;

/// The factor that scrambles a state into an output.
pub const SCRAMBLE: u64 = 0x2545f4914f6cdd1d;

/// The number of doubles between zero and one that differ by the same step.
pub const STEPS: u64 = 0x20000000000000;

/// The state after a state: the three shifts of xorshift.
pub open spec fn shifted(s: u64) -> u64 {
    let a = s ^ (s >> 12u64);
    let b = a ^ (a << 25u64);
    b ^ (b >> 27u64)
}

/// The number that a state yields.
pub open spec fn scrambled(s: u64) -> u64 {
    s.wrapping_mul(SCRAMBLE)
}

/// The generator in its first state.
pub fn fast_rng() -> (r: FastRng)
    ensures
        r == (FastRng { state: SEED }),
{
    FastRng { state: SEED }
}

impl FastRng {
    /// Moves to the next state and yields its number.
    pub fn next_u64(&mut self) -> (r: u64)
        ensures
            final(self).state == shifted(old(self).state),
            r == scrambled(shifted(old(self).state)),
    {
        let s: u64 = self.state;
        let a: u64 = s ^ (s >> 12u64);
        let b: u64 = a ^ (a << 25u64);
        let c: u64 = b ^ (b >> 27u64);
        self.state = c;
        c.wrapping_mul(SCRAMBLE)
    }

    /// Moves to the next state and yields a fraction below one: the upper bits of its number over
    /// the number of steps.
    pub fn next_fraction(&mut self) -> (r: Quantity)
        ensures
            final(self).state == shifted(old(self).state),
            r == fraction(final(self).state),
    {
        let x: u64 = self.next_u64();
        Quantity::Count(x >> 11u64).over(Quantity::Count(STEPS))
    }
}

/// The fraction below one that a state yields.
pub open spec fn fraction(s: u64) -> Quantity {
    Quantity::quotient(Quantity::Count(scrambled(s) >> 11u64), Quantity::Count(STEPS))
}

/// A state is taken back to the state before it by at most one state: different states are
/// followed by different ones.
pub proof fn states_do_not_merge(s: u64, t: u64)
    requires
        shifted(s) == shifted(t),
    ensures
        s == t,
{
    let a = s ^ (s >> 12u64);
    let b = a ^ (a << 25u64);
    let x = t ^ (t >> 12u64);
    let y = x ^ (x << 25u64);
    lemma_last_shift(b, y);
    lemma_middle_shift(a, x);
    lemma_first_shift(s, t);
}

proof fn lemma_first_shift(s: u64, t: u64)
    requires
        s ^ (s >> 12u64) == t ^ (t >> 12u64),
    ensures
        s == t,
{
    assert(s == t) by (bit_vector)
        requires
            s ^ (s >> 12u64) == t ^ (t >> 12u64),
    ;
}

proof fn lemma_middle_shift(s: u64, t: u64)
    requires
        s ^ (s << 25u64) == t ^ (t << 25u64),
    ensures
        s == t,
{
    assert(s == t) by (bit_vector)
        requires
            s ^ (s << 25u64) == t ^ (t << 25u64),
    ;
}

proof fn lemma_last_shift(s: u64, t: u64)
    requires
        s ^ (s >> 27u64) == t ^ (t >> 27u64),
    ensures
        s == t,
{
    assert(s == t) by (bit_vector)
        requires
            s ^ (s >> 27u64) == t ^ (t >> 27u64),
    ;
}

/// The factor that takes an output back to its state: its product with the one that scrambles is one
/// above a multiple of the range.
const UNSCRAMBLE: u64 = 0x59071d96d81ecd35;

proof fn lemma_unscramble(s: u64)
    ensures
        s == scrambled(s) * UNSCRAMBLE % 0x1_0000_0000_0000_0000,
{
    let range: int = 0x1_0000_0000_0000_0000;
    let times: int = 934034299265436267;
    let x = s as int;
    assert(scrambled(s) == x * SCRAMBLE % range);
    vstd::arithmetic::div_mod::lemma_mul_mod_noop_left(x * SCRAMBLE, UNSCRAMBLE as int, range);
    assert(SCRAMBLE * UNSCRAMBLE == range * times + 1);
    assert(x * SCRAMBLE * UNSCRAMBLE == x * (SCRAMBLE * UNSCRAMBLE)) by (nonlinear_arith);
    assert(x * (range * times + 1) == range * (times * x) + x) by (nonlinear_arith);
    vstd::arithmetic::div_mod::lemma_mod_multiples_vanish(times * x, x, range);
    vstd::arithmetic::div_mod::lemma_small_mod(s as nat, range as nat);
}

/// Generators in different states move to different states and yield different numbers.
pub proof fn different_states_yield_different_numbers(s: u64, t: u64)
    requires
        s != t,
    ensures
        shifted(s) != shifted(t),
        scrambled(shifted(s)) != scrambled(shifted(t)),
{
    if shifted(s) == shifted(t) {
        states_do_not_merge(s, t);
    }
    lemma_unscramble(shifted(s));
    lemma_unscramble(shifted(t));
}

/// A generator moves to the state zero, and yields zero, from the state zero alone.
pub proof fn zero_comes_from_zero(s: u64)
    ensures
        shifted(s) == 0 <==> s == 0,
        scrambled(shifted(s)) == 0 <==> s == 0,
{
    assert(shifted(0) == 0) by {
        assert(0u64 ^ (0u64 >> 12u64) == 0 && 0u64 ^ (0u64 << 25u64) == 0 && 0u64 ^ (0u64 >> 27u64) == 0) by (bit_vector);
    }
    assert(scrambled(0) == 0);
    if s != 0 {
        different_states_yield_different_numbers(s, 0);
    }
}

/// How a walk is biased: the return parameter (lower = more likely to return) and the in-out
/// parameter (lower = more likely to stay near the vertex before).
pub struct Bias {
    pub p: Quantity,
    pub q: Quantity,
}

/// The weight of a step to a neighbor, out of `count` neighbors, after the vertex before.
pub open spec fn weight(n: Network, bias: Bias, before: Option<u64>, count: nat, nbr: u64) -> Quantity {
    let one = Quantity::Count(1);
    match before {
        Some(b) => if nbr == b {
            Quantity::quotient(one, bias.p)
        } else if n.adjacent(b, nbr) {
            one
        } else {
            bias.q
        },
        None => Quantity::quotient(one, Quantity::Count(count as u64)),
    }
}

/// The sum of the weights of the first `k` neighbors.
pub open spec fn weights_up_to(n: Network, bias: Bias, before: Option<u64>, list: Seq<u64>, k: nat) -> Quantity
    decreases k,
{
    if k == 0 {
        Quantity::Count(0)
    } else {
        Quantity::sum(
            weights_up_to(n, bias, before, list, (k - 1) as nat),
            weight(n, bias, before, list.len(), list[k - 1]),
        )
    }
}

/// The first neighbor from position `k` on at which the weights add up to a mark; the first of all
/// if there is none.
pub open spec fn drawn<F: Fn(&Quantity, &Quantity) -> Compared>(
    compare: F,
    n: Network,
    bias: Bias,
    before: Option<u64>,
    list: Seq<u64>,
    mark: Quantity,
    k: nat,
) -> u64
    decreases list.len() - k,
{
    if k >= list.len() {
        list[0]
    } else {
        let c = compared(compare, mark, weights_up_to(n, bias, before, list, k + 1));
        if c is Less || c is Equal {
            list[k as int]
        } else {
            drawn(compare, n, bias, before, list, mark, k + 1)
        }
    }
}

/// The vertex before the last one of a walk.
pub open spec fn vertex_before(walk: Seq<u64>) -> Option<u64> {
    if walk.len() >= 2 {
        Some(walk[walk.len() - 2])
    } else {
        None
    }
}

/// The vertex that continues a walk, when the generator moves to state `s`.
pub open spec fn next_vertex<F: Fn(&Quantity, &Quantity) -> Compared>(
    compare: F,
    n: Network,
    bias: Bias,
    walk: Seq<u64>,
    s: u64,
) -> u64 {
    let list = n.neighbors(walk.last());
    let before = vertex_before(walk);
    let mark = Quantity::product(fraction(s), weights_up_to(n, bias, before, list, list.len()));
    drawn(compare, n, bias, before, list, mark, 0)
}

/// A walk that is continued by up to `k` steps, from a state of the generator; it ends early at a
/// vertex without neighbors.
pub open spec fn continued<F: Fn(&Quantity, &Quantity) -> Compared>(
    compare: F,
    n: Network,
    bias: Bias,
    walk: Seq<u64>,
    s: u64,
    k: nat,
) -> Seq<u64>
    decreases k,
{
    if k == 0 || n.neighbors(walk.last()).len() == 0 {
        walk
    } else {
        let t = shifted(s);
        continued(compare, n, bias, walk.push(next_vertex(compare, n, bias, walk, t)), t, (k - 1) as nat)
    }
}

/// Whether each vertex of a walk is adjacent to the next.
pub open spec fn follows_neighbors(n: Network, walk: Seq<u64>) -> bool {
    forall|i: int, j: int| 0 <= i && j == i + 1 && j < walk.len() ==> n.adjacent(#[trigger] walk[i], #[trigger] walk[j])
}

fn weight_of(g: &Graph, bias: &Bias, before: Option<u64>, count: usize, nbr: u64) -> (r: Quantity)
    ensures
        r == weight(g@, *bias, before, count as nat, nbr),
{
    let one = Quantity::Count(1);
    match before {
        Some(b) => if nbr == b {
            one.over(bias.p.clone())
        } else if has_edge(g, b, nbr) {
            one
        } else {
            bias.q.clone()
        },
        None => one.over(Quantity::Count(count as u64)),
    }
}

fn draw<F: Fn(&Quantity, &Quantity) -> Compared>(
    g: &Graph,
    compare: &F,
    bias: &Bias,
    before: Option<u64>,
    list: &Vec<u64>,
    part: Quantity,
) -> (r: u64)
    requires
        decides(*compare),
        list@.len() > 0,
    ensures
        r == drawn(
            *compare,
            g@,
            *bias,
            before,
            list@,
            Quantity::product(part, weights_up_to(g@, *bias, before, list@, list@.len())),
            0,
        ),
        list@.contains(r),
{
    let ghost n = g@;
    let mut total = Quantity::Count(0);
    let mut i: usize = 0;
    while i < list.len()
        invariant
            n == g@,
            i <= list@.len(),
            total == weights_up_to(n, *bias, before, list@, i as nat),
        decreases list@.len() - i,
    {
        total = total.plus(weight_of(g, bias, before, list.len(), list[i]));
        i += 1;
    }
    let mark = part.times(total);
    let ghost whole = drawn(*compare, n, *bias, before, list@, mark, 0);
    let mut cum = Quantity::Count(0);
    let mut i: usize = 0;
    while i < list.len()
        invariant
            n == g@,
            decides(*compare),
            i <= list@.len(),
            cum == weights_up_to(n, *bias, before, list@, i as nat),
            mark == Quantity::product(part, weights_up_to(n, *bias, before, list@, list@.len())),
            whole == drawn(*compare, n, *bias, before, list@, mark, 0),
            whole == drawn(*compare, n, *bias, before, list@, mark, i as nat),
        decreases list@.len() - i,
    {
        cum = cum.plus(weight_of(g, bias, before, list.len(), list[i]));
        let c = compare(&mark, &cum);
        if c == Compared::Less || c == Compared::Equal {
            assert(list@[i as int] == whole);
            return list[i];
        }
        i += 1;
    }
    assert(list@.contains(list@[0]));
    list[0]
}

/// A random walk starting from `start`, with `length` steps.
/// `p` = return parameter (lower = more likely to return to previous node).
/// `q` = in-out parameter (lower = more like BFS, higher = more like DFS).
pub fn biased_random_walk<F: Fn(&Quantity, &Quantity) -> Compared>(
    g: &Graph,
    compare: &F,
    start: u64,
    length: usize,
    bias: &Bias,
) -> (walk: Vec<u64>)
    requires
        decides(*compare),
    ensures
        walk@ == continued(*compare, g@, *bias, seq![start], SEED, length as nat),
        walk@.len() >= 1,
        walk@[0] == start,
        walk@.len() <= length + 1,
        follows_neighbors(g@, walk@),
{
    let ghost n = g@;
    let mut walk: Vec<u64> = Vec::new();
    walk.push(start);
    let mut rng = fast_rng();
    let ghost whole = continued(*compare, n, *bias, seq![start], SEED, length as nat);
    let mut i: usize = 0;
    assert(walk@ =~= seq![start]);
    while i < length
        invariant
            n == g@,
            decides(*compare),
            i <= length,
            walk@.len() >= 1,
            walk@.len() <= i + 1,
            walk@[0] == start,
            follows_neighbors(n, walk@),
            whole == continued(*compare, n, *bias, seq![start], SEED, length as nat),
            whole == continued(*compare, n, *bias, walk@, rng.state, (length - i) as nat),
        decreases length - i,
    {
        let k: usize = walk.len();
        let current: u64 = walk[k - 1];
        let before: Option<u64> = if k >= 2 {
            Some(walk[k - 2])
        } else {
            None
        };
        let list = g.neighbors(current);
        if list.len() == 0 {
            return walk;
        }
        let part = rng.next_fraction();
        let next: u64 = draw(g, compare, bias, before, &list, part);
        proof {
            lemma_neighbors(n, current, next);
        }
        walk.push(next);
        i += 1;
    }
    walk
}

/// Generate `num_walks` random walks of `walk_length` from each vertex.
pub fn generate_walks<F: Fn(&Quantity, &Quantity) -> Compared>(
    g: &Graph,
    compare: &F,
    num_walks: usize,
    walk_length: usize,
    bias: &Bias,
) -> (r: Vec<Vec<u64>>)
    requires
        decides(*compare),
        g@.vertices.len() * num_walks <= usize::MAX,
    ensures
        r@.len() == g@.vertices.len() * num_walks,
        forall|i: int|
            0 <= i < r@.len() ==> (#[trigger] r@[i])@ == continued(
                *compare,
                g@,
                *bias,
                seq![g@.vertices[i / (num_walks as int)]],
                SEED,
                walk_length as nat,
            ),
{
    let all = g.vertices();
    let ghost n = g@;
    let mut r: Vec<Vec<u64>> = Vec::new();
    let mut i: usize = 0;
    while i < all.len()
        invariant
            n == g@,
            all@ == n.vertices,
            decides(*compare),
            i <= all@.len(),
            r@.len() == i * num_walks,
            forall|k: int|
                0 <= k < r@.len() ==> (#[trigger] r@[k])@ == continued(
                    *compare,
                    n,
                    *bias,
                    seq![n.vertices[k / (num_walks as int)]],
                    SEED,
                    walk_length as nat,
                ),
        decreases all@.len() - i,
    {
        let mut j: usize = 0;
        while j < num_walks
            invariant
                n == g@,
                all@ == n.vertices,
                decides(*compare),
                i < all@.len(),
                j <= num_walks,
                r@.len() == i * num_walks + j,
                forall|k: int|
                    0 <= k < r@.len() ==> (#[trigger] r@[k])@ == continued(
                        *compare,
                        n,
                        *bias,
                        seq![n.vertices[k / (num_walks as int)]],
                        SEED,
                        walk_length as nat,
                    ),
            decreases num_walks - j,
        {
            let walk = biased_random_walk(g, compare, all[i], walk_length, bias);
            proof {
                let k = r@.len() as int;
                assert(k / (num_walks as int) == i) by (nonlinear_arith)
                    requires
                        k == i * num_walks + j,
                        0 <= j < num_walks,
                ;
            }
            r.push(walk);
            j += 1;
        }
        assert((i + 1) * num_walks == i * num_walks + num_walks) by (nonlinear_arith);
        i += 1;
    }
    r
}

/// Simple random walk (unbiased) from `start` with `length` steps.
pub fn simple_random_walk<F: Fn(&Quantity, &Quantity) -> Compared>(
    g: &Graph,
    compare: &F,
    start: u64,
    length: usize,
) -> (walk: Vec<u64>)
    requires
        decides(*compare),
    ensures
        walk@ == continued(
            *compare,
            g@,
            (Bias { p: Quantity::Count(1), q: Quantity::Count(1) }),
            seq![start],
            SEED,
            length as nat,
        ),
        walk@.len() >= 1,
        walk@[0] == start,
        walk@.len() <= length + 1,
        follows_neighbors(g@, walk@),
{
    let even = Bias { p: Quantity::Count(1), q: Quantity::Count(1) };
    biased_random_walk(g, compare, start, length, &even)
}

} // verus!
