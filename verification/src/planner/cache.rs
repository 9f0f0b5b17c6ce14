//! A bounded cache of plans by the fingerprint of their query.
use std::collections::hash_map::DefaultHasher;
use std::hash::Hasher;

use vstd::prelude::*;
use vstd::std_specs::hash::DefaultHasherAdditionalSpecFns;
use vstd::utf8::encode_utf8;

use crate::planner::cost::CostModel;
use crate::planner::generate::{ast_to_logical, query_plan};
use crate::planner::logical::{LogicalPlan, Plan};
use crate::planner::query::Query;
use crate::planner::rules::{conditions_fit, optimize, optimized};
use crate::planner::stats::PlanStats;
use crate::quantity::{decides, Compared, Quantity};

verus! {

/// The hasher that a cache is built with.
#[verifier::external_type_specification]
#[verifier::external_body]
pub struct ExCacheHasher(lru::DefaultHasher);

/// A map of bounded size that forgets the entry used longest ago.
#[verifier::external_type_specification]
#[verifier::external_body]
#[verifier::reject_recursive_types(K)]
#[verifier::reject_recursive_types(V)]
#[verifier::reject_recursive_types(S)]
pub struct ExLruCache<K, V, S>(lru::LruCache<K, V, S>);

/// The entries of a cache, the one used last first.
pub uninterp spec fn cache_entries(cache: lru::LruCache<u64, LogicalPlan>) -> Seq<(u64, LogicalPlan)>;

/// The number of entries that a cache holds at most.
pub uninterp spec fn cache_limit(cache: lru::LruCache<u64, LogicalPlan>) -> nat;

/// The position of the first entry with a key, or the number of entries.
pub open spec fn position<V>(entries: Seq<(u64, V)>, key: u64) -> nat
    decreases entries.len(),
{
    if entries.len() == 0 {
        0
    } else if entries[0].0 == key {
        0
    } else {
        1 + position(entries.skip(1), key)
    }
}

/// The entries once a key was looked up: its entry, if there is one, comes first.
pub open spec fn touched<V>(entries: Seq<(u64, V)>, key: u64) -> Seq<(u64, V)> {
    let i = position(entries, key);
    if i < entries.len() {
        seq![entries[i as int]] + entries.remove(i as int)
    } else {
        entries
    }
}

/// The entries once a value was stored under a key: it comes first, in place of an entry with the
/// same key, or else of the last entry if there is no room.
pub open spec fn stored<V>(entries: Seq<(u64, V)>, key: u64, value: V, limit: nat) -> Seq<(u64, V)> {
    let i = position(entries, key);
    if i < entries.len() {
        seq![(key, value)] + entries.remove(i as int)
    } else if entries.len() == limit {
        seq![(key, value)] + entries.drop_last()
    } else {
        seq![(key, value)] + entries
    }
}

/// `lru::LruCache::new`: an empty cache that holds at most `limit` entries.
#[verifier::external_body]
fn new_cache(limit: usize) -> (r: lru::LruCache<u64, LogicalPlan>)
    requires
        limit > 0,
    ensures
        cache_entries(r) == Seq::<(u64, LogicalPlan)>::empty(),
        cache_limit(r) == limit,
{
    lru::LruCache::new(std::num::NonZeroUsize::new(limit).unwrap())
}

/// `lru::LruCache::get`: the value under a key, whose entry becomes the one used last. The limit
/// stays.
#[verifier::external_body]
fn cache_get<'a>(cache: &'a mut lru::LruCache<u64, LogicalPlan>, key: u64) -> (r: Option<&'a LogicalPlan>)
    ensures
        cache_entries(*final(cache)) == touched(cache_entries(*old(cache)), key),
        cache_limit(*final(cache)) == cache_limit(*old(cache)),
        match r {
            Some(p) => position(cache_entries(*old(cache)), key) < cache_entries(*old(cache)).len() && *p == cache_entries(
                *old(cache),
            )[position(cache_entries(*old(cache)), key) as int].1,
            None => position(cache_entries(*old(cache)), key) == cache_entries(*old(cache)).len(),
        },
{
    cache.get(&key)
}

/// `lru::LruCache::put`: stores a value under a key; its entry becomes the one used last. Where the
/// key is new and the cache is full, the entry used longest ago goes. The limit stays.
#[verifier::external_body]
fn cache_put(cache: &mut lru::LruCache<u64, LogicalPlan>, key: u64, value: LogicalPlan)
    ensures
        cache_entries(*final(cache)) == stored(cache_entries(*old(cache)), key, value, cache_limit(*old(cache))),
        cache_limit(*final(cache)) == cache_limit(*old(cache)),
{
    cache.put(key, value);
}

/// The plans of the queries that were planned last.
pub struct PlanCache {
    cache: lru::LruCache<u64, LogicalPlan>,
}

/// The number of plans that a cache holds at most.
pub const CACHED_PLANS: usize = 1024;

/// The models of the entries of a cache.
pub open spec fn entry_views(entries: Seq<(u64, LogicalPlan)>) -> Seq<(u64, Plan)> {
    Seq::new(entries.len(), |i: int| (entries[i].0, entries[i].1@))
}

proof fn lemma_same_position(entries: Seq<(u64, LogicalPlan)>, key: u64)
    ensures
        position(entry_views(entries), key) == position(entries, key),
        position(entries, key) <= entries.len(),
    decreases entries.len(),
{
    if entries.len() > 0 {
        lemma_same_position(entries.skip(1), key);
        assert(entry_views(entries).skip(1) =~= entry_views(entries.skip(1)));
    }
}

proof fn lemma_no_position(entries: Seq<(u64, Plan)>, key: u64)
    ensures
        position(entries, key) <= entries.len(),
        position(entries, key) == entries.len() ==> forall|i: int| 0 <= i < entries.len() ==> (#[trigger] entries[i]).0 != key,
        position(entries, key) < entries.len() ==> entries[position(entries, key) as int].0 == key,
    decreases entries.len(),
{
    if entries.len() > 0 {
        lemma_no_position(entries.skip(1), key);
        assert forall|i: int| position(entries, key) == entries.len() && 0 <= i < entries.len() implies (
        #[trigger] entries[i]).0 != key by {
            if i > 0 {
                assert(entries.skip(1)[i - 1] == entries[i]);
            }
        }
    }
}

impl View for PlanCache {
    type V = Seq<(u64, Plan)>;

    closed spec fn view(&self) -> Seq<(u64, Plan)> {
        entry_views(cache_entries(self.cache))
    }
}

impl PlanCache {
    /// Whether a cache holds no more plans than it may, and no fingerprint twice.
    pub closed spec fn wf(&self) -> bool {
        &&& cache_limit(self.cache) == CACHED_PLANS
        &&& self@.len() <= CACHED_PLANS
        &&& forall|i: int, j: int| 0 <= i < j < self@.len() ==> (#[trigger] self@[i]).0 != (#[trigger] self@[j]).0
    }

    /// An empty cache.
    pub fn new() -> (r: Self)
        ensures
            r.wf(),
            r@ == Seq::<(u64, Plan)>::empty(),
    {
        let r = PlanCache { cache: new_cache(CACHED_PLANS) };
        assert(r@ =~= Seq::empty());
        r
    }

    /// The plan under a fingerprint, which becomes the one used last.
    pub fn get(&mut self, fingerprint: u64) -> (r: Option<LogicalPlan>)
        requires
            old(self).wf(),
        ensures
            final(self).wf(),
            final(self)@ == touched(old(self)@, fingerprint),
            match r {
                Some(p) => position(old(self)@, fingerprint) < old(self)@.len() && p@ == old(self)@[position(
                    old(self)@,
                    fingerprint,
                ) as int].1,
                None => position(old(self)@, fingerprint) == old(self)@.len(),
            },
    {
        let ghost before = cache_entries(self.cache);
        let ghost model = self@;
        proof {
            lemma_same_position(before, fingerprint);
            lemma_no_position(model, fingerprint);
        }
        let r = match cache_get(&mut self.cache, fingerprint) {
            Some(p) => Some(p.clone()),
            None => None,
        };
        proof {
            assert(self@ =~= touched(model, fingerprint));
            let i = position(model, fingerprint) as int;
            if i < model.len() {
                assert forall|a: int, b: int| 0 <= a < b < self@.len() implies (#[trigger] self@[a]).0 != (
                #[trigger] self@[b]).0 by {
                    let a0 = if a == 0 { i } else if a - 1 < i { a - 1 } else { a };
                    let b0 = if b - 1 < i { b - 1 } else { b };
                    assert(self@[a] == model[a0]);
                    assert(self@[b] == model[b0]);
                    assert(a0 != b0);
                    if a0 < b0 {
                        assert(model[a0].0 != model[b0].0);
                    } else {
                        assert(model[b0].0 != model[a0].0);
                    }
                }
            }
        }
        r
    }

    /// Stores a plan under a fingerprint; it becomes the one used last. A full cache forgets the plan
    /// used longest ago.
    pub fn put(&mut self, fingerprint: u64, plan: LogicalPlan)
        requires
            old(self).wf(),
        ensures
            final(self).wf(),
            final(self)@ == stored(old(self)@, fingerprint, plan@, CACHED_PLANS as nat),
    {
        let ghost before = cache_entries(self.cache);
        let ghost model = self@;
        proof {
            lemma_same_position(before, fingerprint);
            lemma_no_position(model, fingerprint);
        }
        cache_put(&mut self.cache, fingerprint, plan);
        proof {
            assert(self@ =~= stored(model, fingerprint, plan@, CACHED_PLANS as nat));
            let i = position(model, fingerprint) as int;
            assert forall|a: int, b: int| 0 <= a < b < self@.len() implies (#[trigger] self@[a]).0 != (#[trigger] self@[b]).0 by {
                if i < model.len() {
                    let a0 = if a == 0 { i } else if a - 1 < i { a - 1 } else { a };
                    let b0 = if b - 1 < i { b - 1 } else { b };
                    assert(self@[a].0 == model[a0].0);
                    assert(self@[b].0 == model[b0].0);
                    if a0 < b0 {
                        assert(model[a0].0 != model[b0].0);
                    } else {
                        assert(model[b0].0 != model[a0].0);
                    }
                } else {
                    assert(self@[b].0 == model[b - 1].0);
                    if a > 0 {
                        assert(self@[a].0 == model[a - 1].0);
                    }
                }
            }
        }
    }
}

/// The fingerprint of a text: the hash of its bytes, closed by a byte that no text holds.
pub open spec fn fingerprint_of(text: Seq<char>) -> u64 {
    DefaultHasher::spec_finish(seq![encode_utf8(text), seq![0xffu8]])
}

/// The fingerprint of a query, from the text that tells it apart from others.
pub fn query_fingerprint(text: &str) -> (r: u64)
    ensures
        r == fingerprint_of(text@),
{
    let mut hasher = DefaultHasher::new();
    hasher.write(text.as_bytes());
    let mut end: Vec<u8> = Vec::new();
    end.push(0xff);
    assert(end@ =~= seq![0xffu8]);
    hasher.write(end.as_slice());
    assert(hasher@ =~= seq![encode_utf8(text@), seq![0xffu8]]);
    hasher.finish()
}

/// The plan of a query: the one in the cache, if there is one under its fingerprint; else it is made
/// and stored.
pub fn plan_query<F: Fn(&Quantity, &Quantity) -> Compared>(
    cache: &mut PlanCache,
    fingerprint: u64,
    query: &Query,
    stats: &PlanStats,
    compare: &F,
) -> (r: LogicalPlan)
    requires
        old(cache).wf(),
        decides(*compare),
        conditions_fit(query_plan(*query, *stats), *compare),
    ensures
        final(cache).wf(),
        position(old(cache)@, fingerprint) < old(cache)@.len() ==> {
            &&& r@ == old(cache)@[position(old(cache)@, fingerprint) as int].1
            &&& final(cache)@ == touched(old(cache)@, fingerprint)
        },
        position(old(cache)@, fingerprint) >= old(cache)@.len() ==> {
            &&& r@ == optimized(query_plan(*query, *stats), *stats, CostModel::standard(), *compare)
            &&& final(cache)@ == stored(old(cache)@, fingerprint, r@, CACHED_PLANS as nat)
        },
{
    if let Some(cached) = cache.get(fingerprint) {
        return cached;
    }
    let cost_model = CostModel::default();
    let plan = ast_to_logical(query, stats);
    let plan = optimize(plan, stats, &cost_model, compare);
    cache.put(fingerprint, plan.clone());
    plan
}

/// A plan that was stored is found under its fingerprint until another takes its place.
pub proof fn stored_plan_is_found(entries: Seq<(u64, Plan)>, key: u64, plan: Plan, limit: nat)
    requires
        limit > 0,
    ensures
        position(stored(entries, key, plan, limit), key) < stored(entries, key, plan, limit).len(),
        stored(entries, key, plan, limit)[position(stored(entries, key, plan, limit), key) as int].1 == plan,
{
    let s = stored(entries, key, plan, limit);
    assert(s[0] == (key, plan));
}

proof fn lemma_position_is_first<V>(entries: Seq<(u64, V)>, key: u64)
    ensures
        position(entries, key) <= entries.len(),
        position(entries, key) < entries.len() ==> entries[position(entries, key) as int].0 == key,
        forall|j: int| 0 <= j < position(entries, key) ==> (#[trigger] entries[j]).0 != key,
    decreases entries.len(),
{
    if entries.len() > 0 && entries[0].0 != key {
        lemma_position_is_first(entries.skip(1), key);
        assert forall|j: int| 0 <= j < position(entries, key) implies (#[trigger] entries[j]).0 != key by {
            if j > 0 {
                assert(entries.skip(1)[j - 1] == entries[j]);
            }
        }
    }
}

/// The entry that was used last comes first, and the others keep their order. Only where a new key finds no
/// room does an entry go, and it is the last one: the one used longest ago.
pub proof fn entries_stand_by_their_last_use<V>(entries: Seq<(u64, V)>, key: u64, value: V, limit: nat)
    requires
        0 < limit,
        entries.len() <= limit,
    ensures
        ({
            let known = exists|i: int| 0 <= i < entries.len() && (#[trigger] entries[i]).0 == key;
            let after = stored(entries, key, value, limit);
            let used = touched(entries, key);
            &&& after[0] == (key, value)
            &&& after.len() <= limit
            &&& !known && entries.len() < limit ==> after.skip(1) == entries
            &&& !known && entries.len() == limit ==> after.skip(1) == entries.drop_last()
            &&& known ==> after.len() == entries.len() && used.len() == entries.len() && used[0].0 == key
            &&& known ==> after.skip(1) == used.skip(1)
            &&& known ==> exists|i: int| 0 <= i < entries.len() && used[0] == entries[i] && used.skip(1) == #[trigger] entries.remove(i)
            &&& !known ==> used == entries
        }),
{
    let i = position(entries, key);
    lemma_position_is_first(entries, key);
    let after = stored(entries, key, value, limit);
    let used = touched(entries, key);
    if i < entries.len() {
        assert(entries[i as int].0 == key);
        assert(after.skip(1) =~= entries.remove(i as int));
        assert(used.skip(1) =~= entries.remove(i as int));
        assert(used[0] == entries[i as int]);
    } else if entries.len() == limit {
        assert(after.skip(1) =~= entries.drop_last());
    } else {
        assert(after.skip(1) =~= entries);
    }
}

} // verus!
