//! Statistics of the stored graph, and the estimates that are made from them.
use std::collections::HashMap;

use vstd::prelude::*;

use crate::planner::cost::CostModel;
use crate::planner::expression::{expr_view, BinaryOp, Expr, Expression, UnaryOp};
use crate::planner::ids::{EdgeTypeId, LabelId, PropertyId};
use crate::planner::logical::{JoinKind, JoinType, LogicalOp, Op};
use crate::planner::value::PropertyValue;
use crate::quantity::Quantity;

verus! {

broadcast use vstd::std_specs::hash::group_hash_axioms;

/// The key under which a pair of identifiers is found in a map.
pub open spec fn pair_key(first: u32, second: u32) -> u64 {
    (first * 0x1_0000_0000 + second) as u64
}

fn pack(first: u32, second: u32) -> (r: u64)
    ensures
        r == pair_key(first, second),
{
    first as u64 * 0x1_0000_0000 + second as u64
}

/// Different pairs have different keys.
pub proof fn pair_keys_are_distinct(a: u32, b: u32, c: u32, d: u32)
    ensures
        pair_key(a, b) == pair_key(c, d) <==> a == c && b == d,
{
}

/// A count that goes with one identifier.
#[derive(Clone, Copy, Debug, PartialEq, Eq, Structural)]
pub struct CountOf {
    pub id: u32,
    pub count: u64,
}

/// A count that goes with a pair of identifiers.
#[derive(Clone, Copy, Debug, PartialEq, Eq, Structural)]
pub struct CountOfPair {
    pub id: u32,
    pub property: PropertyId,
    pub count: u64,
}

/// What the planner reads of the storage: its size, and for each active index the number of
/// entries.
#[derive(Debug)]
pub struct StorageCounts {
    pub vertices: u64,
    pub edges: u64,
    pub labels: Vec<CountOf>,
    pub label_properties: Vec<CountOfPair>,
    pub edge_types: Vec<CountOf>,
    pub edge_type_properties: Vec<CountOfPair>,
}

/// The statistics that a plan is made from.
#[derive(Debug)]
pub struct PlanStats {
    pub vertex_count: u64,
    pub edge_count: u64,
    pub label_counts: HashMap<u32, u64>,
    pub label_property_counts: HashMap<u64, u64>,
    pub edge_type_counts: HashMap<u32, u64>,
    pub edge_type_property_counts: HashMap<u64, u64>,
}

/// The map that the first `n` counts make; a later count replaces an earlier one.
pub open spec fn counts_map(s: Seq<CountOf>, n: nat) -> Map<u32, u64>
    decreases n,
{
    if n == 0 {
        Map::empty()
    } else {
        counts_map(s, (n - 1) as nat).insert(s[n - 1].id, s[n - 1].count)
    }
}

/// The map that the first `n` counts of pairs make; a later count replaces an earlier one.
pub open spec fn pair_counts_map(s: Seq<CountOfPair>, n: nat) -> Map<u64, u64>
    decreases n,
{
    if n == 0 {
        Map::empty()
    } else {
        pair_counts_map(s, (n - 1) as nat).insert(pair_key(s[n - 1].id, s[n - 1].property.id), s[n - 1].count)
    }
}

fn collect_counts(v: &Vec<CountOf>) -> (m: HashMap<u32, u64>)
    ensures
        m@ == counts_map(v@, v@.len()),
{
    let mut m: HashMap<u32, u64> = HashMap::new();
    let mut i: usize = 0;
    while i < v.len()
        invariant
            i <= v@.len(),
            m@ == counts_map(v@, i as nat),
        decreases v@.len() - i,
    {
        m.insert(v[i].id, v[i].count);
        i += 1;
    }
    m
}

fn collect_pair_counts(v: &Vec<CountOfPair>) -> (m: HashMap<u64, u64>)
    ensures
        m@ == pair_counts_map(v@, v@.len()),
{
    let mut m: HashMap<u64, u64> = HashMap::new();
    let mut i: usize = 0;
    while i < v.len()
        invariant
            i <= v@.len(),
            m@ == pair_counts_map(v@, i as nat),
        decreases v@.len() - i,
    {
        m.insert(pack(v[i].id, v[i].property.id), v[i].count);
        i += 1;
    }
    m
}

/// The value under a key, if the key is there.
pub open spec fn lookup<K, V>(m: Map<K, V>, k: K) -> Option<V> {
    if m.contains_key(k) {
        Some(m[k])
    } else {
        None
    }
}

impl PlanStats {
    /// Gathers the statistics of the storage.
    pub fn from_storage(storage: &StorageCounts) -> (r: Self)
        ensures
            r.vertex_count == storage.vertices,
            r.edge_count == storage.edges,
            r.label_counts@ == counts_map(storage.labels@, storage.labels@.len()),
            r.label_property_counts@ == pair_counts_map(
                storage.label_properties@,
                storage.label_properties@.len(),
            ),
            r.edge_type_counts@ == counts_map(storage.edge_types@, storage.edge_types@.len()),
            r.edge_type_property_counts@ == pair_counts_map(
                storage.edge_type_properties@,
                storage.edge_type_properties@.len(),
            ),
    {
        PlanStats {
            vertex_count: storage.vertices,
            edge_count: storage.edges,
            label_counts: collect_counts(&storage.labels),
            label_property_counts: collect_pair_counts(&storage.label_properties),
            edge_type_counts: collect_counts(&storage.edge_types),
            edge_type_property_counts: collect_pair_counts(&storage.edge_type_properties),
        }
    }

    /// The number of vertices with a label, where an index counts them.
    pub open spec fn label_count(self, label: LabelId) -> Option<u64> {
        lookup(self.label_counts@, label.id)
    }

    /// The number of vertices with a label and a property, where an index counts them.
    pub open spec fn label_property_count(self, label: LabelId, property: PropertyId) -> Option<u64> {
        lookup(self.label_property_counts@, pair_key(label.id, property.id))
    }

    pub fn count_of_label(&self, label: LabelId) -> (r: Option<u64>)
        ensures
            r == self.label_count(label),
    {
        match self.label_counts.get(&label.id) {
            Some(n) => Some(*n),
            None => None,
        }
    }

    pub fn count_of_label_property(&self, label: LabelId, property: PropertyId) -> (r: Option<u64>)
        ensures
            r == self.label_property_count(label, property),
    {
        match self.label_property_counts.get(&pack(label.id, property.id)) {
            Some(n) => Some(*n),
            None => None,
        }
    }
}

/// Statistics about a single label.
#[derive(Debug)]
pub struct TableStats {
    pub row_count: u64,
    /// Number of distinct values per property.
    pub distinct_values: HashMap<u32, u64>,
    /// Share of nulls per property.
    pub null_fraction: HashMap<u32, Quantity>,
    /// Smallest value per property.
    pub min_value: HashMap<u32, PropertyValue>,
    /// Largest value per property.
    pub max_value: HashMap<u32, PropertyValue>,
}

impl TableStats {
    pub fn default() -> (r: Self)
        ensures
            r.row_count == 0,
            r.distinct_values@ == Map::<u32, u64>::empty(),
            r.null_fraction@ == Map::<u32, Quantity>::empty(),
            r.min_value@ == Map::<u32, PropertyValue>::empty(),
            r.max_value@ == Map::<u32, PropertyValue>::empty(),
    {
        TableStats {
            row_count: 0,
            distinct_values: HashMap::new(),
            null_fraction: HashMap::new(),
            min_value: HashMap::new(),
            max_value: HashMap::new(),
        }
    }
}

/// Statistics about a single edge type.
#[derive(Clone, Copy, Debug, PartialEq, Eq, Structural)]
pub struct EdgeTypeStats {
    pub edge_count: u64,
    pub distinct_source_vertices: u64,
    pub distinct_target_vertices: u64,
}

/// Statistics that the optimizer uses.
#[derive(Debug)]
pub struct CatalogStats {
    pub tables: HashMap<u32, TableStats>,
    pub edge_types: HashMap<u32, EdgeTypeStats>,
    pub total_vertices: u64,
}

impl CatalogStats {
    pub fn default() -> (r: Self)
        ensures
            r.tables@ == Map::<u32, TableStats>::empty(),
            r.edge_types@ == Map::<u32, EdgeTypeStats>::empty(),
            r.total_vertices == 0,
    {
        CatalogStats { tables: HashMap::new(), edge_types: HashMap::new(), total_vertices: 0 }
    }

    /// Builds catalog statistics from the counts of the plan statistics: a table for each counted
    /// label, knowing nothing of its properties, and the edges of each counted type.
    pub fn from_plan_stats(stats: &PlanStats) -> (r: Self)
        ensures
            r.total_vertices == stats.vertex_count,
            r.tables@.dom() == stats.label_counts@.dom(),
            forall|k: u32| #[trigger]
                r.tables@.contains_key(k) ==> {
                    let t = r.tables@[k];
                    &&& t.row_count == stats.label_counts@[k]
                    &&& t.distinct_values@ == Map::<u32, u64>::empty()
                    &&& t.null_fraction@ == Map::<u32, Quantity>::empty()
                    &&& t.min_value@ == Map::<u32, PropertyValue>::empty()
                    &&& t.max_value@ == Map::<u32, PropertyValue>::empty()
                },
            r.edge_types@.dom() == stats.edge_type_counts@.dom(),
            forall|k: u32| #[trigger]
                r.edge_types@.contains_key(k) ==> r.edge_types@[k] == (EdgeTypeStats {
                    edge_count: stats.edge_type_counts@[k],
                    distinct_source_vertices: 0,
                    distinct_target_vertices: 0,
                }),
    {
        let mut tables: HashMap<u32, TableStats> = HashMap::new();
        for kv in it: stats.label_counts.iter()
            invariant
                forall|k: u32| #[trigger]
                    tables@.contains_key(k) <==> exists|j: int| 0 <= j < it.index() && *(#[trigger] it.seq()[j]).0 == k,
                forall|k: u32| #[trigger]
                    tables@.contains_key(k) ==> {
                        let t = tables@[k];
                        &&& stats.label_counts@.contains_key(k)
                        &&& t.row_count == stats.label_counts@[k]
                        &&& t.distinct_values@ == Map::<u32, u64>::empty()
                        &&& t.null_fraction@ == Map::<u32, Quantity>::empty()
                        &&& t.min_value@ == Map::<u32, PropertyValue>::empty()
                        &&& t.max_value@ == Map::<u32, PropertyValue>::empty()
                    },
        {
            let mut t = TableStats::default();
            t.row_count = *kv.1;
            tables.insert(*kv.0, t);
        }
        assert(tables@.dom() =~= stats.label_counts@.dom());
        let mut edge_types: HashMap<u32, EdgeTypeStats> = HashMap::new();
        for kv in it: stats.edge_type_counts.iter()
            invariant
                forall|k: u32| #[trigger]
                    edge_types@.contains_key(k) <==> exists|j: int| 0 <= j < it.index() && *(#[trigger] it.seq()[j]).0 == k,
                forall|k: u32| #[trigger]
                    edge_types@.contains_key(k) ==> stats.edge_type_counts@.contains_key(k) && edge_types@[k]
                        == (EdgeTypeStats {
                        edge_count: stats.edge_type_counts@[k],
                        distinct_source_vertices: 0,
                        distinct_target_vertices: 0,
                    }),
        {
            edge_types.insert(
                *kv.0,
                EdgeTypeStats { edge_count: *kv.1, distinct_source_vertices: 0, distinct_target_vertices: 0 },
            );
        }
        assert(edge_types@.dom() =~= stats.edge_type_counts@.dom());
        CatalogStats { tables, edge_types, total_vertices: stats.vertex_count }
    }

    /// The statistics of a label, where there are any.
    pub fn table_stats(&self, label: LabelId) -> (r: Option<&TableStats>)
        ensures
            match r {
                Some(t) => self.tables@.contains_key(label.id) && *t == self.tables@[label.id],
                None => !self.tables@.contains_key(label.id),
            },
    {
        self.tables.get(&label.id)
    }

    /// The number of rows of a label, or one where nothing is known.
    pub open spec fn label_rows(self, label: LabelId) -> u64 {
        match lookup(self.tables@, label.id) {
            Some(t) => t.row_count,
            None => 1,
        }
    }

    /// The number of edges of a type, or one where nothing is known.
    pub open spec fn edge_type_rows(self, edge_type: EdgeTypeId) -> u64 {
        match lookup(self.edge_types@, edge_type.id) {
            Some(t) => t.edge_count,
            None => 1,
        }
    }

    /// The number of distinct values that a table knows for a property.
    pub open spec fn known_distinct(self, table: u32, property: PropertyId) -> Option<u64> {
        match lookup(self.tables@, table) {
            Some(t) => lookup(t.distinct_values@, property.id),
            None => None,
        }
    }

    /// Estimate the number of rows for a label scan.
    pub fn label_cardinality(&self, label: LabelId) -> (r: Quantity)
        ensures
            r == Quantity::Count(self.label_rows(label)),
    {
        match self.tables.get(&label.id) {
            Some(t) => Quantity::Count(t.row_count),
            None => Quantity::Count(1),
        }
    }

    /// Estimate the number of rows for an edge type scan.
    pub fn edge_type_cardinality(&self, edge_type: EdgeTypeId) -> (r: Quantity)
        ensures
            r == Quantity::Count(self.edge_type_rows(edge_type)),
    {
        match self.edge_types.get(&edge_type.id) {
            Some(t) => Quantity::Count(t.edge_count),
            None => Quantity::Count(1),
        }
    }

    /// Estimate the number of distinct values for a property on a label.
    pub fn distinct_count(&self, label: LabelId, property: PropertyId) -> (r: Quantity)
        ensures
            r == Quantity::Count(
                match self.known_distinct(label.id, property) {
                    Some(n) => n,
                    None => 1,
                },
            ),
    {
        match self.tables.get(&label.id) {
            Some(t) => match t.distinct_values.get(&property.id) {
                Some(n) => Quantity::Count(*n),
                None => Quantity::Count(1),
            },
            None => Quantity::Count(1),
        }
    }

    /// Whether some table knows the number of distinct values of a property.
    pub open spec fn knows_distinct(self, property: PropertyId) -> bool {
        exists|k: u32| #[trigger] self.known_distinct(k, property) is Some
    }

    /// Whether `n` is the largest number of distinct values that a table knows for a property.
    pub open spec fn is_best_distinct(self, property: PropertyId, n: u64) -> bool {
        &&& exists|k: u32| #[trigger] self.known_distinct(k, property) == Some(n)
        &&& forall|k: u32| (#[trigger] self.known_distinct(k, property)) matches Some(m) ==> m <= n
    }

    /// The largest number of distinct values that a table knows for a property, or one where no
    /// table knows any.
    pub open spec fn best_distinct(self, property: PropertyId) -> u64 {
        if self.knows_distinct(property) {
            choose|n: u64| self.is_best_distinct(property, n)
        } else {
            1
        }
    }
}

/// Find the best (most selective) distinct count for a property across all tables.
pub fn best_distinct_for_property(catalog_stats: &CatalogStats, property: PropertyId) -> (r: u64)
    ensures
        r == catalog_stats.best_distinct(property),
{
    let mut best: Option<u64> = None;
    for kv in it: catalog_stats.tables.iter()
        invariant
            best is None ==> forall|j: int|
                0 <= j < it.index() ==> catalog_stats.known_distinct(*(#[trigger] it.seq()[j]).0, property) is None,
            best matches Some(n) ==> (exists|k: u32| #[trigger] catalog_stats.known_distinct(k, property) == Some(n)),
            best matches Some(n) ==> forall|j: int|
                0 <= j < it.index() ==> (catalog_stats.known_distinct(*(#[trigger] it.seq()[j]).0, property) matches Some(m)
                    ==> m <= n),
    {
        match kv.1.distinct_values.get(&property.id) {
            Some(n) => {
                assert(catalog_stats.known_distinct(*kv.0, property) == Some(*n));
                best = match best {
                    Some(m) => if *n > m {
                        Some(*n)
                    } else {
                        Some(m)
                    },
                    None => Some(*n),
                };
            },
            None => {
                assert(catalog_stats.known_distinct(*kv.0, property) is None);
            },
        }
    }
    proof {
        assert forall|k: u32| catalog_stats.tables@.contains_key(k) implies (#[trigger] catalog_stats.known_distinct(
            k,
            property,
        ) matches Some(m) ==> best is Some && m <= best->0) by {}
        match best {
            Some(n) => {
                assert(catalog_stats.is_best_distinct(property, n));
                let c = choose|m: u64| catalog_stats.is_best_distinct(property, m);
                assert(catalog_stats.is_best_distinct(property, c));
                let k1 = choose|k: u32| #[trigger] catalog_stats.known_distinct(k, property) == Some(c);
                let k2 = choose|k: u32| #[trigger] catalog_stats.known_distinct(k, property) == Some(n);
                assert(c <= n && n <= c);
            },
            None => {},
        }
    }
    match best {
        Some(n) => n,
        None => 1,
    }
}

/// The property that an expression like `n.prop` reads.
pub open spec fn property_of(e: Expr) -> Option<PropertyId> {
    match e {
        Expr::Property(object, key) => if (*object) is Identifier {
            Some(key)
        } else {
            None
        },
        _ => None,
    }
}

/// Extracts the property that an expression like `n.prop` reads.
pub fn extract_property(expr: &Expression) -> (r: Option<PropertyId>)
    ensures
        r == property_of(expr@),
{
    proof {
        reveal_with_fuel(expr_view, 2);
    }
    match expr {
        Expression::Property { object, key } => match **object {
            Expression::Identifier(_) => Some(*key),
            _ => None,
        },
        _ => None,
    }
}

/// The share of rows with one value of a property that has `distinct` values.
pub open spec fn one_of(distinct: u64) -> Quantity {
    Quantity::smaller(Quantity::quotient(Quantity::Count(1), Quantity::Count(distinct)), Quantity::Count(1))
}

/// The share of rows that an equality lets through: one in as many as its property has values.
pub open spec fn equality_share(lhs: Expr, rhs: Expr, catalog: CatalogStats) -> Quantity {
    if property_of(lhs) is Some && catalog.best_distinct(property_of(lhs)->0) > 0 {
        one_of(catalog.best_distinct(property_of(lhs)->0))
    } else if property_of(rhs) is Some && catalog.best_distinct(property_of(rhs)->0) > 0 {
        one_of(catalog.best_distinct(property_of(rhs)->0))
    } else {
        Quantity::decimal(1, 2)
    }
}

/// The share of rows that satisfy one of two independent conditions, but no more than all.
pub open spec fn either_share(a: Quantity, b: Quantity) -> Quantity {
    Quantity::smaller(Quantity::Either(Box::new(a), Box::new(b)), Quantity::Count(1))
}

/// The share of rows that a condition lets through, by the catalog's statistics.
pub open spec fn selectivity(e: Expr, catalog: CatalogStats) -> Quantity
    decreases e,
{
    match e {
        Expr::Bool(b) => Quantity::Count(if b { 1 } else { 0 }),
        Expr::Binary(op, lhs, rhs) => match op {
            BinaryOp::Eq => equality_share(*lhs, *rhs, catalog),
            BinaryOp::Neq => Quantity::decimal(99, 2),
            BinaryOp::Lt | BinaryOp::Gt | BinaryOp::Lte | BinaryOp::Gte => if property_of(*lhs) is Some || property_of(
                *rhs,
            ) is Some {
                Quantity::decimal(33, 2)
            } else {
                Quantity::decimal(1, 1)
            },
            BinaryOp::And => Quantity::product(selectivity(*lhs, catalog), selectivity(*rhs, catalog)),
            BinaryOp::Or => either_share(selectivity(*lhs, catalog), selectivity(*rhs, catalog)),
            BinaryOp::StartsWith | BinaryOp::EndsWith | BinaryOp::Contains | BinaryOp::RegexMatch => Quantity::decimal(5, 2),
            BinaryOp::In => Quantity::decimal(15, 2),
            _ => Quantity::decimal(3, 1),
        },
        Expr::Unary(op, inner) => match op {
            UnaryOp::Not => Quantity::difference(Quantity::Count(1), selectivity(*inner, catalog)),
            UnaryOp::IsNull | UnaryOp::IsNotNull => Quantity::decimal(2, 2),
            UnaryOp::Neg => Quantity::decimal(3, 1),
        },
        Expr::Label(_, _) => Quantity::decimal(1, 1),
        _ => Quantity::decimal(3, 1),
    }
}

fn equality_selectivity(lhs: &Expression, rhs: &Expression, catalog_stats: &CatalogStats) -> (r: Quantity)
    ensures
        r == equality_share(lhs@, rhs@, *catalog_stats),
{
    if let Some(prop) = extract_property(lhs) {
        let distinct: u64 = best_distinct_for_property(catalog_stats, prop);
        if distinct > 0 {
            return Quantity::Count(1).over(Quantity::Count(distinct)).at_most(Quantity::Count(1));
        }
    }
    if let Some(prop) = extract_property(rhs) {
        let distinct: u64 = best_distinct_for_property(catalog_stats, prop);
        if distinct > 0 {
            return Quantity::Count(1).over(Quantity::Count(distinct)).at_most(Quantity::Count(1));
        }
    }
    Quantity::from_decimal(1, 2)
}

/// Estimate selectivity of a filter expression using catalog statistics.
pub fn estimate_selectivity(filter_expr: &Expression, catalog_stats: &CatalogStats) -> (r: Quantity)
    ensures
        r == selectivity(filter_expr@, *catalog_stats),
    decreases filter_expr,
{
    match filter_expr {
        Expression::Bool(b) => if *b {
            Quantity::Count(1)
        } else {
            Quantity::Count(0)
        },
        Expression::Binary(op, lhs, rhs) => match op {
            BinaryOp::Eq => equality_selectivity(lhs, rhs, catalog_stats),
            BinaryOp::Neq => Quantity::from_decimal(99, 2),
            BinaryOp::Lt | BinaryOp::Gt | BinaryOp::Lte | BinaryOp::Gte => if extract_property(lhs).is_some()
                || extract_property(rhs).is_some() {
                Quantity::from_decimal(33, 2)
            } else {
                Quantity::from_decimal(1, 1)
            },
            BinaryOp::And => {
                let s1 = estimate_selectivity(lhs, catalog_stats);
                let s2 = estimate_selectivity(rhs, catalog_stats);
                s1.times(s2)
            },
            BinaryOp::Or => {
                let s1 = estimate_selectivity(lhs, catalog_stats);
                let s2 = estimate_selectivity(rhs, catalog_stats);
                s1.either(s2).at_most(Quantity::Count(1))
            },
            BinaryOp::StartsWith | BinaryOp::EndsWith | BinaryOp::Contains | BinaryOp::RegexMatch => Quantity::from_decimal(
                5,
                2,
            ),
            BinaryOp::In => Quantity::from_decimal(15, 2),
            _ => Quantity::from_decimal(3, 1),
        },
        Expression::Unary(op, inner) => match op {
            UnaryOp::Not => Quantity::Count(1).minus(estimate_selectivity(inner, catalog_stats)),
            UnaryOp::IsNull | UnaryOp::IsNotNull => Quantity::from_decimal(2, 2),
            UnaryOp::Neg => Quantity::from_decimal(3, 1),
        },
        Expression::Label { .. } => Quantity::from_decimal(1, 1),
        _ => Quantity::from_decimal(3, 1),
    }
}

/// The larger of a count and one.
pub open spec fn at_least_one(n: u64) -> u64 {
    if n == 0 {
        1
    } else {
        n
    }
}

pub fn count_at_least_one(n: u64) -> (r: u64)
    ensures
        r == at_least_one(n),
{
    if n == 0 {
        1
    } else {
        n
    }
}

/// The number of rows that an operator gives, by the catalog's statistics. For a filter it is the
/// share of its input.
pub open spec fn op_cardinality(op: Op, catalog: CatalogStats) -> Quantity
    decreases op,
{
    match op {
        Op::AllScan(_) => Quantity::Count(at_least_one(catalog.total_vertices)),
        Op::LabelScan(_, label) => Quantity::Count(catalog.label_rows(label)),
        Op::LabelPropertyScan(_, label, _, _) => Quantity::product(
            Quantity::Count(catalog.label_rows(label)),
            Quantity::decimal(1, 2),
        ),
        Op::EdgeTypeScan(_, edge_type) => Quantity::Count(catalog.edge_type_rows(edge_type)),
        Op::EdgeTypePropertyScan(_, edge_type, _, _) => Quantity::product(
            Quantity::Count(catalog.edge_type_rows(edge_type)),
            Quantity::decimal(1, 2),
        ),
        Op::Filter(condition) => selectivity(condition, catalog),
        Op::Join(left, right, kind) => {
            let l = op_cardinality(left.op, catalog);
            let r = op_cardinality(right.op, catalog);
            match kind {
                JoinKind::NestedLoop => Quantity::product(l, r),
                JoinKind::HashJoin(_, _) => Quantity::larger(l, r),
            }
        },
        Op::Distinct => Quantity::decimal(5, 1),
        Op::Limit(count) => Quantity::Count(count as u64),
        Op::Aggregate(group_by, _) => Quantity::Count(if group_by.len() == 0 { 1 } else { 10 }),
        Op::Union(left, right, all) => {
            let both = Quantity::sum(op_cardinality(left.op, catalog), op_cardinality(right.op, catalog));
            if all {
                both
            } else {
                Quantity::product(both, Quantity::decimal(5, 1))
            }
        },
        _ => Quantity::Count(1),
    }
}

/// Estimate the cardinality of a logical operator given catalog statistics.
pub fn estimate_cardinality(op: &LogicalOp, catalog_stats: &CatalogStats) -> (r: Quantity)
    ensures
        r == op_cardinality(op@, *catalog_stats),
    decreases op,
{
    match op {
        LogicalOp::AllScan { .. } => Quantity::Count(count_at_least_one(catalog_stats.total_vertices)),
        LogicalOp::LabelScan { label, .. } => catalog_stats.label_cardinality(*label),
        LogicalOp::LabelPropertyScan { label, .. } => catalog_stats.label_cardinality(*label).times(
            Quantity::from_decimal(1, 2),
        ),
        LogicalOp::EdgeTypeScan { edge_type, .. } => catalog_stats.edge_type_cardinality(*edge_type),
        LogicalOp::EdgeTypePropertyScan { edge_type, .. } => catalog_stats.edge_type_cardinality(*edge_type).times(
            Quantity::from_decimal(1, 2),
        ),
        LogicalOp::Filter { condition } => estimate_selectivity(condition, catalog_stats),
        LogicalOp::Join { left, right, join_type } => {
            let l = estimate_cardinality(&left.op, catalog_stats);
            let r = estimate_cardinality(&right.op, catalog_stats);
            match join_type {
                JoinType::NestedLoop => l.times(r),
                JoinType::HashJoin { .. } => l.at_least(r),
            }
        },
        LogicalOp::Distinct => Quantity::from_decimal(5, 1),
        LogicalOp::Limit { count } => Quantity::Count(*count as u64),
        LogicalOp::Aggregate { group_by, .. } => if group_by.len() == 0 {
            Quantity::Count(1)
        } else {
            Quantity::Count(10)
        },
        LogicalOp::Union { left, right, all } => {
            let l = estimate_cardinality(&left.op, catalog_stats);
            let r = estimate_cardinality(&right.op, catalog_stats);
            if *all {
                l.plus(r)
            } else {
                l.plus(r).times(Quantity::from_decimal(5, 1))
            }
        },
        _ => Quantity::Count(1),
    }
}

/// The share of rows that a condition lets through, by its kind alone.
pub open spec fn selectivity_by_kind(e: Expr, cm: CostModel) -> Quantity
    decreases e,
{
    match e {
        Expr::Bool(b) => Quantity::Count(if b { 1 } else { 0 }),
        Expr::Binary(op, lhs, rhs) => match op {
            BinaryOp::Eq => cm.equality_selectivity,
            BinaryOp::Lt | BinaryOp::Gt | BinaryOp::Lte | BinaryOp::Gte => cm.range_selectivity,
            BinaryOp::And => Quantity::product(selectivity_by_kind(*lhs, cm), selectivity_by_kind(*rhs, cm)),
            BinaryOp::Or => either_share(selectivity_by_kind(*lhs, cm), selectivity_by_kind(*rhs, cm)),
            BinaryOp::StartsWith | BinaryOp::EndsWith | BinaryOp::Contains | BinaryOp::RegexMatch => cm.like_selectivity,
            BinaryOp::In => cm.in_selectivity,
            _ => cm.default_selectivity,
        },
        Expr::Unary(op, inner) => match op {
            UnaryOp::Not => Quantity::difference(Quantity::Count(1), selectivity_by_kind(*inner, cm)),
            UnaryOp::IsNull | UnaryOp::IsNotNull => cm.null_selectivity,
            UnaryOp::Neg => cm.default_selectivity,
        },
        Expr::Label(_, _) => cm.label_selectivity,
        _ => cm.default_selectivity,
    }
}

/// Estimate selectivity for a given expression using predicate-type constants.
pub fn estimate_selectivity_legacy(expr: &Expression, cm: &CostModel) -> (r: Quantity)
    ensures
        r == selectivity_by_kind(expr@, *cm),
    decreases expr,
{
    match expr {
        Expression::Bool(b) => if *b {
            Quantity::Count(1)
        } else {
            Quantity::Count(0)
        },
        Expression::Binary(op, lhs, rhs) => match op {
            BinaryOp::Eq => cm.equality_selectivity.clone(),
            BinaryOp::Lt | BinaryOp::Gt | BinaryOp::Lte | BinaryOp::Gte => cm.range_selectivity.clone(),
            BinaryOp::And => {
                let s1 = estimate_selectivity_legacy(lhs, cm);
                let s2 = estimate_selectivity_legacy(rhs, cm);
                s1.times(s2)
            },
            BinaryOp::Or => {
                let s1 = estimate_selectivity_legacy(lhs, cm);
                let s2 = estimate_selectivity_legacy(rhs, cm);
                s1.either(s2).at_most(Quantity::Count(1))
            },
            BinaryOp::StartsWith | BinaryOp::EndsWith | BinaryOp::Contains | BinaryOp::RegexMatch => {
                cm.like_selectivity.clone()
            },
            BinaryOp::In => cm.in_selectivity.clone(),
            _ => cm.default_selectivity.clone(),
        },
        Expression::Unary(op, inner) => match op {
            UnaryOp::Not => Quantity::Count(1).minus(estimate_selectivity_legacy(inner, cm)),
            UnaryOp::IsNull | UnaryOp::IsNotNull => cm.null_selectivity.clone(),
            UnaryOp::Neg => cm.default_selectivity.clone(),
        },
        Expression::Label { .. } => cm.label_selectivity.clone(),
        _ => cm.default_selectivity.clone(),
    }
}

/// The cost of an operator and the rows that it gives, for as many rows of input.
pub open spec fn op_cost(op: Op, input: Quantity, cm: CostModel) -> (Quantity, Quantity) {
    match op {
        Op::AllScan(_) => (cm.scan_all_cost, input),
        Op::LabelScan(_, _) | Op::EdgeTypeScan(_, _) => (
            cm.scan_label_cost,
            Quantity::product(input, cm.label_selectivity),
        ),
        Op::LabelPropertyScan(_, _, _, _) | Op::EdgeTypePropertyScan(_, _, _, _) => (
            cm.scan_label_property_cost,
            Quantity::product(input, cm.equality_selectivity),
        ),
        Op::Filter(condition) => (
            Quantity::product(input, cm.filter_cost_per_row),
            Quantity::product(input, selectivity_by_kind(condition, cm)),
        ),
        Op::Sort(_) => (cm.sort(input), input),
        Op::Limit(count) => (Quantity::Count(1), Quantity::smaller(Quantity::Count(count as u64), input)),
        Op::Skip(_) => (Quantity::Count(1), input),
        Op::EdgeExpand { .. } => (
            Quantity::product(input, Quantity::Count(10)),
            Quantity::product(input, Quantity::Count(5)),
        ),
        Op::Distinct => (
            Quantity::product(input, cm.distinct_cost_per_row),
            Quantity::product(input, Quantity::decimal(5, 1)),
        ),
        Op::Aggregate(group_by, _) => (
            Quantity::product(input, cm.aggregate_cost_per_row),
            grouped_rows(group_by.len() == 0, input),
        ),
        Op::Union(_, _, all) => (
            cm.union_overhead,
            if all {
                input
            } else {
                Quantity::product(input, Quantity::decimal(5, 1))
            },
        ),
        _ => (input, input),
    }
}

/// The rows that an aggregation gives: one in ten, but at least one; one where nothing is grouped.
pub open spec fn grouped_rows(ungrouped: bool, input: Quantity) -> Quantity {
    Quantity::larger(
        if ungrouped {
            Quantity::Count(1)
        } else {
            Quantity::product(input, Quantity::decimal(1, 1))
        },
        Quantity::Count(1),
    )
}

pub fn grouped_row_count(ungrouped: bool, input: &Quantity) -> (r: Quantity)
    ensures
        r == grouped_rows(ungrouped, *input),
{
    let rows = if ungrouped {
        Quantity::Count(1)
    } else {
        input.clone().times(Quantity::from_decimal(1, 1))
    };
    rows.at_least(Quantity::Count(1))
}

/// Estimates the cost of an operator and the rows that it gives, for as many rows of input.
pub fn estimate_cost(op: &LogicalOp, input_card: &Quantity, cm: &CostModel) -> (r: (Quantity, Quantity))
    ensures
        r == op_cost(op@, *input_card, *cm),
{
    match op {
        LogicalOp::AllScan { .. } => (cm.scan_all_cost.clone(), input_card.clone()),
        LogicalOp::LabelScan { .. } => (cm.scan_label_cost.clone(), input_card.clone().times(cm.label_selectivity.clone())),
        LogicalOp::LabelPropertyScan { .. } => (
            cm.scan_label_property_cost.clone(),
            input_card.clone().times(cm.equality_selectivity.clone()),
        ),
        LogicalOp::EdgeTypeScan { .. } => (
            cm.scan_label_cost.clone(),
            input_card.clone().times(cm.label_selectivity.clone()),
        ),
        LogicalOp::EdgeTypePropertyScan { .. } => (
            cm.scan_label_property_cost.clone(),
            input_card.clone().times(cm.equality_selectivity.clone()),
        ),
        LogicalOp::Filter { condition } => {
            let sel = estimate_selectivity_legacy(condition, cm);
            (input_card.clone().times(cm.filter_cost_per_row.clone()), input_card.clone().times(sel))
        },
        LogicalOp::Sort { .. } => (cm.sort_cost(input_card), input_card.clone()),
        LogicalOp::Limit { count } => (Quantity::Count(1), Quantity::Count(*count as u64).at_most(input_card.clone())),
        LogicalOp::Skip { .. } => (Quantity::Count(1), input_card.clone()),
        LogicalOp::EdgeExpand { .. } => (
            input_card.clone().times(Quantity::Count(10)),
            input_card.clone().times(Quantity::Count(5)),
        ),
        LogicalOp::Distinct => (
            input_card.clone().times(cm.distinct_cost_per_row.clone()),
            input_card.clone().times(Quantity::from_decimal(5, 1)),
        ),
        LogicalOp::Aggregate { group_by, .. } => (
            input_card.clone().times(cm.aggregate_cost_per_row.clone()),
            grouped_row_count(group_by.len() == 0, input_card),
        ),
        LogicalOp::Union { all, .. } => (
            cm.union_overhead.clone(),
            if *all {
                input_card.clone()
            } else {
                input_card.clone().times(Quantity::from_decimal(5, 1))
            },
        ),
        _ => (input_card.clone(), input_card.clone()),
    }
}

} // verus!
