//! Plans: how they are made, estimated, rewritten and converted.
use std::collections::HashMap;

use std::hash::{Hash, Hasher};

use graphkit::planner::cache::PlanCache;
use graphkit::planner::cost::CostModel;
use graphkit::planner::explain::{explain_plan, profile_plan, PlanProfile, Shown};
use graphkit::planner::expression::{BinaryOp, Expression, UnaryOp};
use graphkit::planner::fold::{eval_const, fold_expression};
use graphkit::planner::generate::ast_to_logical;
use graphkit::planner::ids::{EdgeTypeId, LabelId, PropertyId};
use graphkit::planner::logical::{JoinType, LogicalOp, LogicalPlan, PlanCost};
use graphkit::planner::physical::{child_is_sorted, choose_join_physical, is_convertible, physical_plan_from_logical, PhysicalOp, PhysicalPlan};
use graphkit::planner::query::{
    Clause, Direction, EdgePattern, MatchPattern, NodePattern, OrderByItem, PatternElement, PatternStep, Query, ReturnItem,
};
use graphkit::planner::rules::{
    check_conditions, constant_fold, filter_references_preserved, index_intersection, merge_filters, pushdown_filter, pushdown_limit, pushdown_skip,
    remove_redundant_filters, remove_true_filters, reorder_joins, simplify_trivial_filters,
};
use graphkit::planner::stats::{CatalogStats, CountOf, CountOfPair, EdgeTypeStats, PlanStats, StorageCounts, TableStats};
use graphkit::planner::value::PropertyValue;
use graphkit::quantity::{Compared, Quantity};

/// The double that a quantity stands for.
fn value(q: &Quantity) -> f64 {
    match q {
        Quantity::Bits(b) => f64::from_bits(*b),
        Quantity::Decimal { units, places } => *units as f64 / 10f64.powi(*places as i32),
        Quantity::Count(n) => *n as f64,
        Quantity::Integer(n) => *n as f64,
        Quantity::Sum(a, b) => value(a) + value(b),
        Quantity::Difference(a, b) => value(a) - value(b),
        Quantity::Product(a, b) => value(a) * value(b),
        Quantity::Quotient(a, b) => value(a) / value(b),
        Quantity::Negated(a) => -value(a),
        Quantity::Larger(a, b) => value(a).max(value(b)),
        Quantity::Smaller(a, b) => value(a).min(value(b)),
        Quantity::Log2(a) => value(a).log2(),
        Quantity::Ln(a) => value(a).ln(),
        Quantity::Sqrt(a) => value(a).sqrt(),
        Quantity::Abs(a) => value(a).abs(),
        Quantity::Either(a, b) => value(a) + value(b) - value(a) * value(b),
    }
}

fn compare(a: &Quantity, b: &Quantity) -> Compared {
    match value(a).partial_cmp(&value(b)) {
        Some(std::cmp::Ordering::Less) => Compared::Less,
        Some(std::cmp::Ordering::Equal) => Compared::Equal,
        Some(std::cmp::Ordering::Greater) => Compared::Greater,
        None => Compared::Unordered,
    }
}

fn quantity(x: f64) -> Quantity {
    Quantity::Bits(x.to_bits())
}

fn text<T: std::fmt::Debug>(x: &T) -> String {
    format!("{:?}", x)
}

fn show(what: Shown) -> String {
    match what {
        Shown::Expression(e) => text(e),
        Shown::Value(v) => text(v),
        Shown::Number(q, places) => format!("{:.*}", places as usize, value(q)),
    }
}

fn fold(e: &Expression) -> Expression {
    fold_expression(e, &compare)
}

fn optimize(plan: LogicalPlan, stats: &PlanStats, cm: &CostModel) -> LogicalPlan {
    graphkit::planner::rules::optimize(plan, stats, cm, &compare)
}

fn estimate_cost(op: &LogicalOp, input_card: f64, cm: &CostModel) -> (f64, f64) {
    let (cost, card) = graphkit::planner::stats::estimate_cost(op, &quantity(input_card), cm);
    (value(&cost), value(&card))
}

fn estimate_selectivity_legacy(e: &Expression, cm: &CostModel) -> f64 {
    value(&graphkit::planner::stats::estimate_selectivity_legacy(e, cm))
}

fn estimate_selectivity(e: &Expression, catalog: &CatalogStats) -> f64 {
    value(&graphkit::planner::stats::estimate_selectivity(e, catalog))
}

fn estimate_cardinality(op: &LogicalOp, catalog: &CatalogStats) -> f64 {
    value(&graphkit::planner::stats::estimate_cardinality(op, catalog))
}

fn no_counts() -> StorageCounts {
    StorageCounts {
        vertices: 0,
        edges: 0,
        labels: vec![],
        label_properties: vec![],
        edge_types: vec![],
        edge_type_properties: vec![],
    }
}

fn plan_query(counts: &StorageCounts, query: &Query) -> LogicalPlan {
    let stats = PlanStats::from_storage(counts);
    assert!(check_conditions(&ast_to_logical(query, &stats), &compare));
    graphkit::planner::cache::plan_query(&mut PlanCache::new(), 1, query, &stats, &compare)
}

fn query(clauses: Vec<Clause>) -> Query {
    Query { clauses, index_hints: vec![] }
}

fn vertex(alias: &str, labels: &[LabelId]) -> NodePattern {
    NodePattern { alias: Some(alias.to_string()), labels: labels.to_vec(), properties: vec![] }
}

fn anything() -> NodePattern {
    NodePattern { alias: None, labels: vec![], properties: vec![] }
}

fn step(alias: &str, edge_type: EdgeTypeId) -> PatternStep {
    PatternStep {
        edge: EdgePattern {
            alias: Some(alias.to_string()),
            direction: Direction::Right,
            edge_types: vec![edge_type],
            properties: vec![],
        },
        node: anything(),
    }
}

fn matching(node: NodePattern, edges: Vec<PatternStep>, where_clause: Option<Expression>) -> Clause {
    Clause::Match { pattern: MatchPattern { elements: vec![PatternElement { node, edges }] }, where_clause }
}

fn returning(name: &str) -> Clause {
    Clause::Return { items: vec![ReturnItem { expression: identifier(name), alias: None }], distinct: false, all: false }
}

fn identifier(name: &str) -> Expression {
    Expression::Identifier(name.to_string())
}

fn property_is(alias: &str, key: PropertyId, n: i64) -> Expression {
    let property = Expression::Property { object: Box::new(identifier(alias)), key };
    Expression::Binary(BinaryOp::Eq, Box::new(property), Box::new(Expression::Int(n)))
}

#[test]
fn test_plan_label_scan() {
    let person = LabelId::new(10);
    let mut counts = no_counts();
    counts.vertices = 1;
    counts.labels.push(CountOf { id: person.as_uint(), count: 1 });
    // MATCH (n:Person) RETURN n
    let query = query(vec![matching(vertex("n", &[person]), vec![], None), returning("n")]);
    let plan = plan_query(&counts, &query);
    assert!(value(&plan.cost.total()) > 0.0);
}

#[test]
fn test_plan_all_scan_when_empty() {
    // MATCH (n) RETURN n
    let query = query(vec![matching(vertex("n", &[]), vec![], None), returning("n")]);
    let plan = plan_query(&no_counts(), &query);
    assert!(!format!("{:?}", plan.op).is_empty());
    assert!(format!("{:?}", plan.op).contains("AllScan"));
}

#[test]
fn test_cost_model_defaults() {
    let cm = CostModel::default();
    assert!(value(&cm.scan_all_cost) > value(&cm.scan_label_cost));
    assert!(value(&cm.scan_label_cost) > value(&cm.scan_label_property_cost));
    assert!(value(&cm.equality_selectivity) < value(&cm.range_selectivity));
    assert!(value(&cm.range_selectivity) < value(&cm.default_selectivity));
}

#[test]
fn test_estimate_filter_cost() {
    let cm = CostModel::default();
    // Bool(true) has selectivity 1.0, so card == input_card.
    let (cost, card) = estimate_cost(
        &LogicalOp::Filter {
            condition: Expression::Bool(true),
        },
        1000.0,
        &cm,
    );
    assert!(cost > 0.0);
    assert_eq!(card, 1000.0);

    // Bool(false) has selectivity 0.0, so card == 0.
    let (_cost2, card2) = estimate_cost(
        &LogicalOp::Filter {
            condition: Expression::Bool(false),
        },
        1000.0,
        &cm,
    );
    assert_eq!(card2, 0.0);

    // Equality filter should reduce cardinality.
    let (_cost3, card3) = estimate_cost(
        &LogicalOp::Filter {
            condition: Expression::Binary(BinaryOp::Eq, Box::new(Expression::Identifier("n".to_string())),
                Box::new(Expression::Int(1)),
            ),
        },
        1000.0,
        &cm,
    );
    assert!(card3 < 1000.0);
}

#[test]
fn test_stats_from_storage() {
    let stats = PlanStats::from_storage(&no_counts());
    assert_eq!(stats.vertex_count, 0);
    assert_eq!(stats.edge_count, 0);
}

#[test]
fn test_filter_to_index_scan() {
    let person = LabelId::new(10);
    let mut counts = no_counts();
    counts.vertices = 1;
    counts.labels.push(CountOf { id: person.as_uint(), count: 1 });
    // MATCH (n:Person) WHERE n.age = 30 RETURN n
    let condition = property_is("n", PropertyId::new(3), 30);
    let query = query(vec![matching(vertex("n", &[person]), vec![], Some(condition)), returning("n")]);
    let plan = plan_query(&counts, &query);
    assert!(!format!("{:?}", plan.op).is_empty());
}

#[test]
fn test_aggregate_operator() {
    let cm = CostModel::default();
    let plan = LogicalPlan {
        op: LogicalOp::Aggregate {
            group_by: vec![ReturnItem { expression: Expression::Identifier("a".to_string()), alias: None }],
            aggregates: vec![ReturnItem { expression: Expression::CountStar, alias: Some("count".to_string()) }],
        },
        cost: PlanCost::default(),
        cardinality: quantity(10.0),
    };
    let (cost, card) = estimate_cost(&plan.op, 1000.0, &cm);
    assert!(cost > 0.0);
    assert!(card < 1000.0);
}

#[test]
fn test_distinct_operator() {
    let cm = CostModel::default();
    let (cost, card) = estimate_cost(&LogicalOp::Distinct, 1000.0, &cm);
    assert!(cost > 0.0);
    assert!(card < 1000.0);
}

#[test]
fn test_union_operator() {
    let cm = CostModel::default();
    let (cost_all, card_all) = estimate_cost(
        &LogicalOp::Union {
            left: Box::new(LogicalPlan {
                op: LogicalOp::AllScan { alias: None },
                cost: PlanCost::default(),
                cardinality: quantity(100.0),
            }),
            right: Box::new(LogicalPlan {
                op: LogicalOp::AllScan { alias: None },
                cost: PlanCost::default(),
                cardinality: quantity(100.0),
            }),
            all: true,
        },
        200.0,
        &cm,
    );
    assert!(cost_all > 0.0);
    assert_eq!(card_all, 200.0);

    let (_cost_distinct, card_distinct) = estimate_cost(
        &LogicalOp::Union {
            left: Box::new(LogicalPlan {
                op: LogicalOp::AllScan { alias: None },
                cost: PlanCost::default(),
                cardinality: quantity(100.0),
            }),
            right: Box::new(LogicalPlan {
                op: LogicalOp::AllScan { alias: None },
                cost: PlanCost::default(),
                cardinality: quantity(100.0),
            }),
            all: false,
        },
        200.0,
        &cm,
    );
    assert_eq!(card_distinct, 100.0);
}

#[test]
fn test_remove_redundant_filter_true() {
    let plan = LogicalPlan {
        op: LogicalOp::Join {
            left: Box::new(LogicalPlan {
                op: LogicalOp::Filter {
                    condition: Expression::Bool(true),
                },
                cost: PlanCost::default(),
                cardinality: quantity(10.0),
            }),
            right: Box::new(LogicalPlan {
                op: LogicalOp::AllScan { alias: None },
                cost: PlanCost::default(),
                cardinality: quantity(10.0),
            }),
            join_type: JoinType::NestedLoop,
        },
        cost: PlanCost::default(),
        cardinality: quantity(10.0),
    };
    let optimized = remove_redundant_filters(plan);
    // The redundant filter should be preserved in the tree since it's a leaf in a Join;
    // the function only removes Filter(true) when it's the direct child of a Join and
    // we don't have a way to "skip" it without restructuring. The key behavior is that
    // the function doesn't panic and handles the pattern.
    assert!(matches!(optimized.op, LogicalOp::Join { .. }));
}

#[test]
fn test_selectivity_estimation() {
    let cm = CostModel::default();
    assert_eq!(
        estimate_selectivity_legacy(&Expression::Bool(true), &cm),
        1.0
    );
    assert_eq!(
        estimate_selectivity_legacy(&Expression::Bool(false), &cm),
        0.0
    );
    assert_eq!(
        estimate_selectivity_legacy(
            &Expression::Binary(BinaryOp::Eq, Box::new(Expression::Int(1)), Box::new(Expression::Int(2))),
            &cm
        ),
        value(&cm.equality_selectivity)
    );
    assert_eq!(
        estimate_selectivity_legacy(
            &Expression::Binary(BinaryOp::Lt, Box::new(Expression::Int(1)), Box::new(Expression::Int(2))),
            &cm
        ),
        value(&cm.range_selectivity)
    );

    // And selectivity = product
    let and_expr = Expression::Binary(BinaryOp::And, Box::new(Expression::Binary(BinaryOp::Eq, Box::new(Expression::Int(1)),
            Box::new(Expression::Int(2)),
        )),
        Box::new(Expression::Binary(BinaryOp::Eq, Box::new(Expression::Int(3)),
            Box::new(Expression::Int(4)),
        )),
    );
    assert_eq!(
        estimate_selectivity_legacy(&and_expr, &cm),
        value(&cm.equality_selectivity) * value(&cm.equality_selectivity)
    );

    // Or selectivity = s1 + s2 - s1*s2
    let or_expr = Expression::Binary(BinaryOp::Or, Box::new(Expression::Binary(BinaryOp::Eq, Box::new(Expression::Int(1)),
            Box::new(Expression::Int(2)),
        )),
        Box::new(Expression::Binary(BinaryOp::Eq, Box::new(Expression::Int(3)),
            Box::new(Expression::Int(4)),
        )),
    );
    let expected_or = value(&cm.equality_selectivity) + value(&cm.equality_selectivity)
        - value(&cm.equality_selectivity) * value(&cm.equality_selectivity);
    assert_eq!(estimate_selectivity_legacy(&or_expr, &cm), expected_or);

    // Not selectivity = 1 - s
    let not_expr = Expression::Unary(UnaryOp::Not, Box::new(Expression::Bool(true)));
    assert_eq!(estimate_selectivity_legacy(&not_expr, &cm), 0.0);
}

#[test]
fn test_explain_plan() {
    let plan = LogicalPlan {
        op: LogicalOp::Join {
            left: Box::new(LogicalPlan {
                op: LogicalOp::LabelScan {
                    alias: Some("n".to_string()),
                    label: LabelId::new(1),
                },
                cost: PlanCost {
                    cpu: quantity(100.0),
                    io: quantity(0.0),
                },
                cardinality: quantity(10.0),
            }),
            right: Box::new(LogicalPlan {
                op: LogicalOp::Filter {
                    condition: Expression::Bool(true),
                },
                cost: PlanCost { cpu: quantity(5.0), io: quantity(0.0) },
                cardinality: quantity(5.0),
            }),
            join_type: JoinType::NestedLoop,
        },
        cost: PlanCost {
            cpu: quantity(105.0),
            io: quantity(0.0),
        },
        cardinality: quantity(10.0),
    };
    let explanation = explain_plan(&plan, &show);
    assert!(explanation.contains("Join"));
    assert!(explanation.contains("LabelScan"));
    assert!(explanation.contains("Filter"));
    assert!(explanation.contains("cost="));
    assert!(explanation.contains("card="));
}

#[test]
fn test_plan_profile() {
    let profile = PlanProfile::new(quantity(100.0)).with_actual_rows(95).with_execution_time(quantity(2.5));
    assert_eq!(value(&profile.estimated_rows), 100.0);
    assert_eq!(profile.actual_rows, Some(95));
    assert_eq!(profile.execution_time_ms.as_ref().map(|ms| value(ms)), Some(2.5));
    let error = value(&profile.cardinality_error().unwrap());
    assert!((error - 0.95).abs() < 0.01);
}

#[test]
fn test_profile_plan() {
    let plan = LogicalPlan {
        op: LogicalOp::Join {
            left: Box::new(LogicalPlan {
                op: LogicalOp::AllScan { alias: None },
                cost: PlanCost::default(),
                cardinality: quantity(100.0),
            }),
            right: Box::new(LogicalPlan {
                op: LogicalOp::Filter {
                    condition: Expression::Bool(true),
                },
                cost: PlanCost::default(),
                cardinality: quantity(50.0),
            }),
            join_type: JoinType::NestedLoop,
        },
        cost: PlanCost::default(),
        cardinality: quantity(100.0),
    };
    let profiles = profile_plan(&plan, &show);
    assert_eq!(profiles.len(), 3);
    assert_eq!(value(&profiles[0].profile.estimated_rows), 100.0); // Join
    assert_eq!(value(&profiles[1].profile.estimated_rows), 100.0); // AllScan
    assert_eq!(value(&profiles[2].profile.estimated_rows), 50.0); // Filter
}

#[test]
fn test_cost_model_new_selectivities() {
    let cm = CostModel::default();
    assert!(value(&cm.like_selectivity) < value(&cm.range_selectivity));
    assert!(value(&cm.in_selectivity) < value(&cm.default_selectivity));
    assert!(value(&cm.null_selectivity) < value(&cm.default_selectivity));
    assert!(value(&cm.label_selectivity) < value(&cm.default_selectivity));
    assert!(value(&cm.distinct_cost_per_row) > 0.0);
    assert!(value(&cm.aggregate_cost_per_row) > 0.0);
    assert!(value(&cm.union_overhead) >= 0.0);
}

#[test]
fn test_filter_references_preserved() {
    let condition = Expression::Binary(BinaryOp::Eq, Box::new(Expression::Property {
            object: Box::new(Expression::Identifier("n".to_string())),
            key: PropertyId::new(1),
        }),
        Box::new(Expression::Int(30)),
    );
    let expressions = vec![Expression::Identifier("n".to_string())];
    assert!(filter_references_preserved(&condition, &expressions));

    let expressions2 = vec![Expression::Identifier("m".to_string())];
    assert!(!filter_references_preserved(&condition, &expressions2));
}

#[test]
fn test_pushdown_limit_through_sort() {
    let plan = LogicalPlan {
        op: LogicalOp::Join {
            left: Box::new(LogicalPlan {
                op: LogicalOp::Limit { count: 10 },
                cost: PlanCost::default(),
                cardinality: quantity(10.0),
            }),
            right: Box::new(LogicalPlan {
                op: LogicalOp::Sort { key: vec![] },
                cost: PlanCost::default(),
                cardinality: quantity(100.0),
            }),
            join_type: JoinType::NestedLoop,
        },
        cost: PlanCost::default(),
        cardinality: quantity(10.0),
    };
    let optimized = pushdown_limit(plan);
    // The limit should be pushed through the sort.
    assert!(matches!(optimized.op, LogicalOp::Join { .. }));
}

#[test]
fn test_reorder_joins_with_union() {
    let cm = CostModel::default();
    let plan = LogicalPlan {
        op: LogicalOp::Union {
            left: Box::new(LogicalPlan {
                op: LogicalOp::AllScan { alias: None },
                cost: PlanCost::default(),
                cardinality: quantity(100.0),
            }),
            right: Box::new(LogicalPlan {
                op: LogicalOp::AllScan { alias: None },
                cost: PlanCost::default(),
                cardinality: quantity(50.0),
            }),
            all: true,
        },
        cost: PlanCost::default(),
        cardinality: quantity(150.0),
    };
    let optimized = reorder_joins(plan, &cm, &compare);
    assert!(matches!(optimized.op, LogicalOp::Union { .. }));
    assert_eq!(value(&optimized.cardinality), 150.0);
}

#[test]
fn test_physical_plan_from_logical_seq_scan() {
    let cm = CostModel::default();
    let catalog = CatalogStats::default();
    let logical = LogicalPlan {
        op: LogicalOp::AllScan { alias: None },
        cost: PlanCost::default(),
        cardinality: quantity(1000.0),
    };
    let physical = physical_plan_from_logical(&logical, &cm, &catalog, &compare);
    assert!(matches!(physical.op, PhysicalOp::SeqScan { .. }));
    assert_eq!(value(&physical.cardinality), 1.0); // default catalog has 0 vertices -> max(1,0)=1
}

#[test]
fn test_physical_plan_from_logical_index_seek() {
    let cm = CostModel::default();
    let catalog = CatalogStats::default();
    let logical = LogicalPlan {
        op: LogicalOp::LabelPropertyScan {
            alias: Some("n".to_string()),
            label: LabelId::new(1),
            property: PropertyId::new(2),
            value: PropertyValue::Int(42),
        },
        cost: PlanCost::default(),
        cardinality: quantity(10.0),
    };
    let physical = physical_plan_from_logical(&logical, &cm, &catalog, &compare);
    assert!(matches!(physical.op, PhysicalOp::IndexSeek { .. }));
}

#[test]
fn test_physical_plan_filter() {
    let cm = CostModel::default();
    let catalog = CatalogStats::default();
    let logical = LogicalPlan {
        op: LogicalOp::Filter {
            condition: Expression::Binary(BinaryOp::Eq, Box::new(Expression::Identifier("n".to_string())),
                Box::new(Expression::Int(1)),
            ),
        },
        cost: PlanCost::default(),
        cardinality: quantity(100.0),
    };
    let physical = physical_plan_from_logical(&logical, &cm, &catalog, &compare);
    assert!(matches!(physical.op, PhysicalOp::Filter { .. }));
}

#[test]
fn test_physical_plan_aggregate_prefers_hash() {
    let cm = CostModel::default();
    let catalog = CatalogStats::default();
    let logical = LogicalPlan {
        op: LogicalOp::Aggregate {
            group_by: vec![ReturnItem { expression: Expression::Identifier("a".to_string()), alias: None }],
            aggregates: vec![ReturnItem { expression: Expression::CountStar, alias: Some("c".to_string()) }],
        },
        cost: PlanCost::default(),
        cardinality: quantity(100.0),
    };
    let physical = physical_plan_from_logical(&logical, &cm, &catalog, &compare);
    // Without sorted input, should prefer HashAggregate
    assert!(matches!(physical.op, PhysicalOp::HashAggregate { .. }));
}

#[test]
fn test_physical_plan_aggregate_prefers_streaming_when_sorted() {
    // Build a logical plan that would produce a sorted physical child.
    // Since our logical->physical converter doesn't auto-insert Sort,
    // we test the helper directly.
    let sorted_child = PhysicalPlan {
        op: PhysicalOp::Sort {
            key: vec![OrderByItem {
                expression: Expression::Identifier("a".to_string()),
                ascending: true,
            }],
            child: Box::new(PhysicalPlan {
                op: PhysicalOp::SeqScan {
                    alias: None,
                    label: None,
                },
                cost: PlanCost::default(),
                cardinality: quantity(100.0),
            }),
        },
        cost: PlanCost::default(),
        cardinality: quantity(100.0),
    };
    assert!(child_is_sorted(&sorted_child));
}

#[test]
fn test_physical_plan_join_chooses_cheapest() {
    let cm = CostModel::default();
    let catalog = CatalogStats::default();
    let logical = LogicalPlan {
        op: LogicalOp::Join {
            left: Box::new(LogicalPlan {
                op: LogicalOp::AllScan { alias: None },
                cost: PlanCost::default(),
                cardinality: quantity(100.0),
            }),
            right: Box::new(LogicalPlan {
                op: LogicalOp::AllScan { alias: None },
                cost: PlanCost::default(),
                cardinality: quantity(100.0),
            }),
            join_type: JoinType::NestedLoop,
        },
        cost: PlanCost::default(),
        cardinality: quantity(100.0),
    };
    let physical = physical_plan_from_logical(&logical, &cm, &catalog, &compare);
    // Should produce some kind of join
    assert!(
        matches!(physical.op, PhysicalOp::NestedLoopJoin { .. })
            || matches!(physical.op, PhysicalOp::HashJoin { .. })
            || matches!(physical.op, PhysicalOp::SortMergeJoin { .. })
    );
}

#[test]
fn test_hash_join_cost_formula() {
    let cm = CostModel::default();
    let cost = value(&cm.hash_join_cost(&quantity(100.0), &quantity(1000.0)));
    let expected = value(&cm.hash_join_build_cost) * 100.0 + value(&cm.hash_join_probe_cost) * 1000.0;
    assert_eq!(cost, expected);
}

#[test]
fn test_nested_loop_join_cost_formula() {
    let cm = CostModel::default();
    let cost = value(&cm.nested_loop_join_cost(&quantity(10.0), &quantity(10.0)));
    let expected = value(&cm.nested_loop_join_cost) + 10.0 * 10.0;
    assert_eq!(cost, expected);
}

#[test]
fn test_sort_merge_join_cost_formula() {
    let cm = CostModel::default();
    let cost = value(&cm.sort_merge_join_cost(&quantity(100.0), &quantity(200.0)));
    let expected = value(&cm.nested_loop_join_cost)
        + 100.0 * value(&cm.sort_cost_per_row)
        + 200.0 * value(&cm.sort_cost_per_row)
        + 300.0 * value(&cm.sort_merge_join_cost_per_row);
    assert_eq!(cost, expected);
}

#[test]
fn test_hash_aggregate_cost_formula() {
    let cm = CostModel::default();
    let cost = value(&cm.hash_aggregate_cost(&quantity(500.0)));
    let expected =
        500.0 * (value(&cm.hash_aggregate_build_cost_per_row) + value(&cm.hash_aggregate_probe_cost_per_row));
    assert_eq!(cost, expected);
}

#[test]
fn test_streaming_aggregate_cost_formula() {
    let cm = CostModel::default();
    let cost = value(&cm.streaming_aggregate_cost(&quantity(500.0)));
    let expected = 500.0 * value(&cm.streaming_aggregate_cost_per_row);
    assert_eq!(cost, expected);
}

#[test]
fn test_catalog_stats_label_cardinality() {
    let mut catalog = CatalogStats::default();
    let label = LabelId::new(1);
    let mut table = TableStats::default();
    table.row_count = 500;
    catalog.tables.insert(label.as_uint(), table);
    assert_eq!(value(&catalog.label_cardinality(label)), 500.0);
}

#[test]
fn test_estimate_selectivity_with_catalog() {
    let mut catalog = CatalogStats::default();
    let label = LabelId::new(1);
    let prop = PropertyId::new(2);
    let mut table = TableStats::default();
    table.row_count = 1000;
    table.distinct_values.insert(prop.as_uint(), 100);
    catalog.tables.insert(label.as_uint(), table);

    let expr = Expression::Binary(BinaryOp::Eq, Box::new(Expression::Property {
            object: Box::new(Expression::Identifier("n".to_string())),
            key: prop,
        }),
        Box::new(Expression::Int(42)),
    );
    let sel = estimate_selectivity(&expr, &catalog);
    // 1 / distinct_values = 1/100 = 0.01
    assert!((sel - 0.01).abs() < 0.001);
}

#[test]
fn test_estimate_selectivity_and_with_catalog() {
    let mut catalog = CatalogStats::default();
    let label = LabelId::new(1);
    let prop = PropertyId::new(2);
    let mut table = TableStats::default();
    table.row_count = 1000;
    table.distinct_values.insert(prop.as_uint(), 100);
    catalog.tables.insert(label.as_uint(), table);

    let expr = Expression::Binary(BinaryOp::And, Box::new(Expression::Binary(BinaryOp::Eq, Box::new(Expression::Property {
                object: Box::new(Expression::Identifier("n".to_string())),
                key: prop,
            }),
            Box::new(Expression::Int(1)),
        )),
        Box::new(Expression::Binary(BinaryOp::Eq, Box::new(Expression::Property {
                object: Box::new(Expression::Identifier("n".to_string())),
                key: prop,
            }),
            Box::new(Expression::Int(2)),
        )),
    );
    let sel = estimate_selectivity(&expr, &catalog);
    // 0.01 * 0.01 = 0.0001
    assert!((sel - 0.0001).abs() < 0.00001);
}

#[test]
fn test_estimate_cardinality_with_catalog() {
    let mut catalog = CatalogStats::default();
    let label = LabelId::new(1);
    let mut table = TableStats::default();
    table.row_count = 5000;
    catalog.tables.insert(label.as_uint(), table);
    catalog.total_vertices = 10000;

    let scan = LogicalOp::LabelScan {
        alias: Some("n".to_string()),
        label,
    };
    let card = estimate_cardinality(&scan, &catalog);
    assert_eq!(card, 5000.0);
}

#[test]
fn test_plan_edge_type_scan() {
    let knows = EdgeTypeId::new(10);
    let mut counts = no_counts();
    counts.vertices = 2;
    counts.edges = 1;
    counts.edge_types.push(CountOf { id: knows.as_uint(), count: 1 });
    // MATCH ()-[r:KNOWS]->() RETURN r
    let query = query(vec![matching(anything(), vec![step("r", knows)], None), returning("r")]);
    let plan = plan_query(&counts, &query);
    let plan_str = format!("{:?}", plan.op);
    assert!(plan_str.contains("EdgeTypeScan") || plan_str.contains("EdgeExpand"), "plan: {}", plan_str);
}

#[test]
fn test_plan_edge_type_property_scan() {
    let knows = EdgeTypeId::new(10);
    let since = PropertyId::new(20);
    let mut counts = no_counts();
    counts.vertices = 2;
    counts.edges = 1;
    counts.edge_type_properties.push(CountOfPair { id: knows.as_uint(), property: since, count: 1 });
    // MATCH ()-[r:KNOWS]->() WHERE r.since = 2010 RETURN r
    let condition = property_is("r", since, 2010);
    let query = query(vec![matching(anything(), vec![step("r", knows)], Some(condition)), returning("r")]);
    let plan = plan_query(&counts, &query);
    let plan_str = format!("{:?}", plan.op);
    assert!(
        plan_str.contains("EdgeTypePropertyScan") || plan_str.contains("EdgeTypeScan") || plan_str.contains("EdgeExpand"),
        "plan: {}",
        plan_str
    );
}

#[test]
fn test_edge_type_scan_cardinality() {
    let mut catalog = CatalogStats::default();
    let etype = EdgeTypeId::new(5);
    catalog.total_vertices = 1000;
    catalog.edge_types.insert(etype.as_uint(),
        EdgeTypeStats {
            edge_count: 250,
            distinct_source_vertices: 100,
            distinct_target_vertices: 100,
        },
    );
    let scan = LogicalOp::EdgeTypeScan {
        alias: Some("r".to_string()),
        edge_type: etype,
    };
    let card = estimate_cardinality(&scan, &catalog);
    assert_eq!(card, 250.0); // edge_type_cardinality now uses catalog stats
}

#[test]
fn test_edge_type_scan_cardinality_fallback() {
    let catalog = CatalogStats::default();
    let etype = EdgeTypeId::new(5);
    let scan = LogicalOp::EdgeTypeScan {
        alias: Some("r".to_string()),
        edge_type: etype,
    };
    let card = estimate_cardinality(&scan, &catalog);
    assert_eq!(card, 1.0); // fallback when no stats available
}

#[test]
fn test_physical_plan_edge_type_scan() {
    let cm = CostModel::default();
    let mut catalog = CatalogStats::default();
    let etype = EdgeTypeId::new(5);
    catalog.total_vertices = 1000;
    let logical = LogicalPlan {
        op: LogicalOp::EdgeTypeScan {
            alias: Some("r".to_string()),
            edge_type: etype,
        },
        cost: PlanCost::default(),
        cardinality: quantity(50.0),
    };
    let physical = physical_plan_from_logical(&logical, &cm, &catalog, &compare);
    assert!(matches!(physical.op, PhysicalOp::EdgeTypeScan { .. }));
}

#[test]
fn test_physical_plan_edge_type_property_scan() {
    let cm = CostModel::default();
    let mut catalog = CatalogStats::default();
    let etype = EdgeTypeId::new(5);
    catalog.total_vertices = 1000;
    let logical = LogicalPlan {
        op: LogicalOp::EdgeTypePropertyScan {
            alias: Some("r".to_string()),
            edge_type: etype,
            property: PropertyId::new(1),
            value: PropertyValue::Int(42),
        },
        cost: PlanCost::default(),
        cardinality: quantity(5.0),
    };
    let physical = physical_plan_from_logical(&logical, &cm, &catalog, &compare);
    assert!(matches!(
        physical.op,
        PhysicalOp::EdgeTypePropertyScan { .. }
    ));
}

#[test]
fn test_merge_adjacent_filters() {
    let plan = LogicalPlan {
        op: LogicalOp::Join {
            left: Box::new(LogicalPlan {
                op: LogicalOp::Join {
                    left: Box::new(LogicalPlan {
                        op: LogicalOp::AllScan { alias: None },
                        cost: PlanCost::default(),
                        cardinality: quantity(100.0),
                    }),
                    right: Box::new(LogicalPlan {
                        op: LogicalOp::Filter {
                            condition: Expression::Bool(true),
                        },
                        cost: PlanCost::default(),
                        cardinality: quantity(100.0),
                    }),
                    join_type: JoinType::NestedLoop,
                },
                cost: PlanCost::default(),
                cardinality: quantity(100.0),
            }),
            right: Box::new(LogicalPlan {
                op: LogicalOp::Filter {
                    condition: Expression::Bool(false),
                },
                cost: PlanCost::default(),
                cardinality: quantity(100.0),
            }),
            join_type: JoinType::NestedLoop,
        },
        cost: PlanCost::default(),
        cardinality: quantity(100.0),
    };
    let merged = merge_filters(plan);
    // Should collapse to a single Filter(And(true, false)) attached to AllScan.
    if let LogicalOp::Join { left, right, .. } = &merged.op {
        assert!(matches!(left.op, LogicalOp::AllScan { alias: None }));
        if let LogicalOp::Filter { condition } = &right.op {
            assert!(matches!(condition, Expression::Binary(BinaryOp::And, _, _)));
        } else {
            panic!("Expected Filter after merge, got {:?}", right.op);
        }
    } else {
        panic!("Expected Join after merge, got {:?}", merged.op);
    }
}

#[test]
fn test_constant_fold_arithmetic() {
    let expr = Expression::Binary(BinaryOp::Add, Box::new(Expression::Int(3)), Box::new(Expression::Int(4)));
    let folded = fold(&expr);
    assert_eq!(text(&folded), text(&Expression::Int(7)));
}

#[test]
fn test_constant_fold_nested_arithmetic() {
    let expr = Expression::Binary(BinaryOp::Mul, Box::new(Expression::Binary(BinaryOp::Add, Box::new(Expression::Int(1)),
            Box::new(Expression::Int(2)),
        )),
        Box::new(Expression::Int(4)),
    );
    let folded = fold(&expr);
    assert_eq!(text(&folded), text(&Expression::Int(12)));
}

#[test]
fn test_constant_fold_logical() {
    let expr = Expression::Binary(BinaryOp::And, Box::new(Expression::Bool(true)),
        Box::new(Expression::Bool(false)),
    );
    let folded = fold(&expr);
    assert_eq!(text(&folded), text(&Expression::Bool(false)));

    let expr2 = Expression::Binary(BinaryOp::Or, Box::new(Expression::Bool(false)),
        Box::new(Expression::Bool(true)),
    );
    let folded2 = fold(&expr2);
    assert_eq!(text(&folded2), text(&Expression::Bool(true)));

    let expr3 = Expression::Unary(UnaryOp::Not, Box::new(Expression::Bool(true)));
    let folded3 = fold(&expr3);
    assert_eq!(text(&folded3), text(&Expression::Bool(false)));
}

#[test]
fn test_constant_fold_comparison() {
    let expr = Expression::Binary(BinaryOp::Eq, Box::new(Expression::Int(2)), Box::new(Expression::Int(3)));
    assert_eq!(text(&fold(&expr)), text(&Expression::Bool(false)));

    let expr2 = Expression::Binary(BinaryOp::Lt, Box::new(Expression::Int(2)), Box::new(Expression::Int(3)));
    assert_eq!(text(&fold(&expr2)), text(&Expression::Bool(true)));

    let expr3 = Expression::Binary(BinaryOp::Gte, Box::new(Expression::String("abc".to_string())),
        Box::new(Expression::String("abc".to_string())),
    );
    assert_eq!(text(&fold(&expr3)), text(&Expression::Bool(true)));
}

#[test]
fn test_constant_fold_is_null() {
    let expr = Expression::Unary(UnaryOp::IsNull, Box::new(Expression::Null));
    assert_eq!(text(&fold(&expr)), text(&Expression::Bool(true)));

    let expr2 = Expression::Unary(UnaryOp::IsNotNull, Box::new(Expression::Int(5)));
    assert_eq!(text(&fold(&expr2)), text(&Expression::Bool(true)));
}

#[test]
fn test_constant_fold_mixed_with_variables() {
    // 1 + 2 + n should fold to 3 + n
    let expr = Expression::Binary(BinaryOp::Add, Box::new(Expression::Binary(BinaryOp::Add, Box::new(Expression::Int(1)),
            Box::new(Expression::Int(2)),
        )),
        Box::new(Expression::Identifier("n".to_string())),
    );
    let folded = fold(&expr);
    assert_eq!(text(&folded), text(&Expression::Binary(BinaryOp::Add, Box::new(Expression::Int(3)),
            Box::new(Expression::Identifier("n".to_string()))
        )));
}

#[test]
fn test_constant_fold_in_filter_plan() {
    let plan = LogicalPlan {
        op: LogicalOp::Filter {
            condition: Expression::Binary(BinaryOp::And, Box::new(Expression::Bool(true)),
                Box::new(Expression::Binary(BinaryOp::Eq, Box::new(Expression::Int(1)),
                    Box::new(Expression::Int(1)),
                )),
            ),
        },
        cost: PlanCost::default(),
        cardinality: quantity(100.0),
    };
    let folded = constant_fold(plan, &compare);
    if let LogicalOp::Filter { condition } = &folded.op {
        // true AND (1 = 1) -> true AND true -> true
        assert_eq!(text(condition), text(&Expression::Bool(true)));
    } else {
        panic!("Expected Filter");
    }
}

#[test]
fn test_constant_fold_short_circuit_and() {
    // false AND anything -> false
    let expr = Expression::Binary(BinaryOp::And, Box::new(Expression::Bool(false)),
        Box::new(Expression::Identifier("n".to_string())),
    );
    assert_eq!(text(&fold(&expr)), text(&Expression::Bool(false)));
}

#[test]
fn test_constant_fold_short_circuit_or() {
    // true OR anything -> true
    let expr = Expression::Binary(BinaryOp::Or, Box::new(Expression::Bool(true)),
        Box::new(Expression::Identifier("n".to_string())),
    );
    assert_eq!(text(&fold(&expr)), text(&Expression::Bool(true)));
}

#[test]
fn test_remove_true_filters_drops_redundant_filter() {
    let plan = LogicalPlan {
        op: LogicalOp::Join {
            left: Box::new(LogicalPlan {
                op: LogicalOp::AllScan { alias: None },
                cost: PlanCost::default(),
                cardinality: quantity(100.0),
            }),
            right: Box::new(LogicalPlan {
                op: LogicalOp::Filter {
                    condition: Expression::Bool(true),
                },
                cost: PlanCost::default(),
                cardinality: quantity(100.0),
            }),
            join_type: JoinType::NestedLoop,
        },
        cost: PlanCost::default(),
        cardinality: quantity(100.0),
    };
    let optimized = remove_true_filters(plan);
    assert!(matches!(optimized.op, LogicalOp::AllScan { alias: None }));
}

#[test]
fn test_optimize_pipeline_removes_folded_true_filter() {
    let cm = CostModel::default();
    let stats = PlanStats {
        vertex_count: 100,
        edge_count: 10,
        label_counts: HashMap::new(),
        label_property_counts: HashMap::new(),
        edge_type_counts: HashMap::new(),
        edge_type_property_counts: HashMap::new(),
    };
    let plan = LogicalPlan {
        op: LogicalOp::Join {
            left: Box::new(LogicalPlan {
                op: LogicalOp::AllScan { alias: None },
                cost: PlanCost::default(),
                cardinality: quantity(100.0),
            }),
            right: Box::new(LogicalPlan {
                op: LogicalOp::Filter {
                    condition: Expression::Binary(BinaryOp::And, Box::new(Expression::Bool(true)),
                        Box::new(Expression::Bool(true)),
                    ),
                },
                cost: PlanCost::default(),
                cardinality: quantity(100.0),
            }),
            join_type: JoinType::NestedLoop,
        },
        cost: PlanCost::default(),
        cardinality: quantity(100.0),
    };
    let optimized = optimize(plan, &stats, &cm);
    // After constant_fold + remove_true_filters, the filter should be gone.
    assert!(matches!(optimized.op, LogicalOp::AllScan { alias: None }));
}

#[test]
fn test_simplify_trivial_filters_false_to_empty() {
    let plan = LogicalPlan {
        op: LogicalOp::Join {
            left: Box::new(LogicalPlan {
                op: LogicalOp::AllScan { alias: None },
                cost: PlanCost::default(),
                cardinality: quantity(100.0),
            }),
            right: Box::new(LogicalPlan {
                op: LogicalOp::Filter {
                    condition: Expression::Bool(false),
                },
                cost: PlanCost::default(),
                cardinality: quantity(100.0),
            }),
            join_type: JoinType::NestedLoop,
        },
        cost: PlanCost::default(),
        cardinality: quantity(100.0),
    };
    let simplified = simplify_trivial_filters(plan);
    assert!(matches!(simplified.op, LogicalOp::EmptyResult));
    assert_eq!(value(&simplified.cardinality), 0.0);
}

#[test]
fn test_simplify_trivial_filters_null_to_empty() {
    let plan = LogicalPlan {
        op: LogicalOp::Filter {
            condition: Expression::Null,
        },
        cost: PlanCost::default(),
        cardinality: quantity(100.0),
    };
    let simplified = simplify_trivial_filters(plan);
    assert!(matches!(simplified.op, LogicalOp::EmptyResult));
}

#[test]
fn test_simplify_trivial_filters_propagates_up() {
    let inner = LogicalPlan {
        op: LogicalOp::Join {
            left: Box::new(LogicalPlan {
                op: LogicalOp::AllScan { alias: None },
                cost: PlanCost::default(),
                cardinality: quantity(100.0),
            }),
            right: Box::new(LogicalPlan {
                op: LogicalOp::Filter {
                    condition: Expression::Bool(false),
                },
                cost: PlanCost::default(),
                cardinality: quantity(100.0),
            }),
            join_type: JoinType::NestedLoop,
        },
        cost: PlanCost::default(),
        cardinality: quantity(100.0),
    };
    let plan = LogicalPlan {
        op: LogicalOp::Join {
            left: Box::new(inner),
            right: Box::new(LogicalPlan {
                op: LogicalOp::Limit { count: 10 },
                cost: PlanCost::default(),
                cardinality: quantity(10.0),
            }),
            join_type: JoinType::NestedLoop,
        },
        cost: PlanCost::default(),
        cardinality: quantity(10.0),
    };
    let simplified = simplify_trivial_filters(plan);
    assert!(matches!(simplified.op, LogicalOp::EmptyResult));
}

#[test]
fn test_optimize_pipeline_false_filter_becomes_empty() {
    let cm = CostModel::default();
    let stats = PlanStats {
        vertex_count: 100,
        edge_count: 10,
        label_counts: HashMap::new(),
        label_property_counts: HashMap::new(),
        edge_type_counts: HashMap::new(),
        edge_type_property_counts: HashMap::new(),
    };
    let plan = LogicalPlan {
        op: LogicalOp::Join {
            left: Box::new(LogicalPlan {
                op: LogicalOp::AllScan { alias: None },
                cost: PlanCost::default(),
                cardinality: quantity(100.0),
            }),
            right: Box::new(LogicalPlan {
                op: LogicalOp::Filter {
                    condition: Expression::Bool(false),
                },
                cost: PlanCost::default(),
                cardinality: quantity(100.0),
            }),
            join_type: JoinType::NestedLoop,
        },
        cost: PlanCost::default(),
        cardinality: quantity(100.0),
    };
    let optimized = optimize(plan, &stats, &cm);
    assert!(matches!(optimized.op, LogicalOp::EmptyResult));
}

#[test]
fn test_pushdown_limit_through_project() {
    let plan = LogicalPlan {
        op: LogicalOp::Join {
            left: Box::new(LogicalPlan {
                op: LogicalOp::Limit { count: 5 },
                cost: PlanCost::default(),
                cardinality: quantity(5.0),
            }),
            right: Box::new(LogicalPlan {
                op: LogicalOp::Project {
                    expressions: vec![Expression::Identifier("n".to_string())],
                },
                cost: PlanCost::default(),
                cardinality: quantity(100.0),
            }),
            join_type: JoinType::NestedLoop,
        },
        cost: PlanCost::default(),
        cardinality: quantity(5.0),
    };
    let optimized = pushdown_limit(plan);
    // Should become: Join(Limit, Project) - Limit pushed through Project
    assert!(matches!(optimized.op, LogicalOp::Join { .. }));
    if let LogicalOp::Join { left, right, .. } = optimized.op {
        assert!(matches!(left.op, LogicalOp::Limit { count: 5 }));
        assert!(matches!(right.op, LogicalOp::Project { .. }));
    }
}

#[test]
fn test_pushdown_skip_through_filter() {
    let plan = LogicalPlan {
        op: LogicalOp::Join {
            left: Box::new(LogicalPlan {
                op: LogicalOp::Skip { count: 10 },
                cost: PlanCost::default(),
                cardinality: quantity(90.0),
            }),
            right: Box::new(LogicalPlan {
                op: LogicalOp::Filter {
                    condition: Expression::Bool(true),
                },
                cost: PlanCost::default(),
                cardinality: quantity(100.0),
            }),
            join_type: JoinType::NestedLoop,
        },
        cost: PlanCost::default(),
        cardinality: quantity(90.0),
    };
    let optimized = pushdown_skip(plan);
    // Should become: Join(Skip, Filter)
    assert!(matches!(optimized.op, LogicalOp::Join { .. }));
    if let LogicalOp::Join { left, right, .. } = optimized.op {
        assert!(matches!(left.op, LogicalOp::Skip { count: 10 }));
        assert!(matches!(right.op, LogicalOp::Filter { .. }));
    }
}

#[test]
fn test_pushdown_skip_through_project() {
    let plan = LogicalPlan {
        op: LogicalOp::Join {
            left: Box::new(LogicalPlan {
                op: LogicalOp::Skip { count: 3 },
                cost: PlanCost::default(),
                cardinality: quantity(97.0),
            }),
            right: Box::new(LogicalPlan {
                op: LogicalOp::Project {
                    expressions: vec![Expression::Identifier("a".to_string())],
                },
                cost: PlanCost::default(),
                cardinality: quantity(100.0),
            }),
            join_type: JoinType::NestedLoop,
        },
        cost: PlanCost::default(),
        cardinality: quantity(97.0),
    };
    let optimized = pushdown_skip(plan);
    assert!(matches!(optimized.op, LogicalOp::Join { .. }));
    if let LogicalOp::Join { left, right, .. } = optimized.op {
        assert!(matches!(left.op, LogicalOp::Skip { count: 3 }));
        assert!(matches!(right.op, LogicalOp::Project { .. }));
    }
}

#[test]
fn test_simplify_trivial_filter_false_becomes_empty_result() {
    let plan = LogicalPlan {
        op: LogicalOp::Filter {
            condition: Expression::Bool(false),
        },
        cost: PlanCost::default(),
        cardinality: quantity(100.0),
    };
    let optimized = simplify_trivial_filters(plan);
    assert!(matches!(optimized.op, LogicalOp::EmptyResult));
}

#[test]
fn test_simplify_trivial_filter_null_becomes_empty_result() {
    let plan = LogicalPlan {
        op: LogicalOp::Filter {
            condition: Expression::Null,
        },
        cost: PlanCost::default(),
        cardinality: quantity(100.0),
    };
    let optimized = simplify_trivial_filters(plan);
    assert!(matches!(optimized.op, LogicalOp::EmptyResult));
}

#[test]
fn test_simplify_trivial_filter_true_unchanged() {
    let plan = LogicalPlan {
        op: LogicalOp::Filter {
            condition: Expression::Bool(true),
        },
        cost: PlanCost::default(),
        cardinality: quantity(100.0),
    };
    let optimized = simplify_trivial_filters(plan);
    assert!(matches!(optimized.op, LogicalOp::Filter { .. }));
}

#[test]
fn test_simplify_trivial_filter_in_join_right() {
    let plan = LogicalPlan {
        op: LogicalOp::Join {
            left: Box::new(LogicalPlan {
                op: LogicalOp::AllScan { alias: None },
                cost: PlanCost::default(),
                cardinality: quantity(100.0),
            }),
            right: Box::new(LogicalPlan {
                op: LogicalOp::Filter {
                    condition: Expression::Bool(false),
                },
                cost: PlanCost::default(),
                cardinality: quantity(0.0),
            }),
            join_type: JoinType::NestedLoop,
        },
        cost: PlanCost::default(),
        cardinality: quantity(100.0),
    };
    let optimized = simplify_trivial_filters(plan);
    assert!(matches!(optimized.op, LogicalOp::EmptyResult));
}

#[test]
fn test_remove_true_filters_removes_trivial_true_in_join() {
    let plan = LogicalPlan {
        op: LogicalOp::Join {
            left: Box::new(LogicalPlan {
                op: LogicalOp::AllScan { alias: None },
                cost: PlanCost::default(),
                cardinality: quantity(100.0),
            }),
            right: Box::new(LogicalPlan {
                op: LogicalOp::Filter {
                    condition: Expression::Bool(true),
                },
                cost: PlanCost::default(),
                cardinality: quantity(100.0),
            }),
            join_type: JoinType::NestedLoop,
        },
        cost: PlanCost::default(),
        cardinality: quantity(100.0),
    };
    let optimized = remove_true_filters(plan);
    assert!(matches!(optimized.op, LogicalOp::AllScan { alias: None }));
}

#[test]
fn test_remove_true_filters_preserves_non_trivial_in_join() {
    let plan = LogicalPlan {
        op: LogicalOp::Join {
            left: Box::new(LogicalPlan {
                op: LogicalOp::AllScan { alias: None },
                cost: PlanCost::default(),
                cardinality: quantity(100.0),
            }),
            right: Box::new(LogicalPlan {
                op: LogicalOp::Filter {
                    condition: Expression::Binary(BinaryOp::Eq, Box::new(Expression::Identifier("a".to_string())),
                        Box::new(Expression::Int(1)),
                    ),
                },
                cost: PlanCost::default(),
                cardinality: quantity(100.0),
            }),
            join_type: JoinType::NestedLoop,
        },
        cost: PlanCost::default(),
        cardinality: quantity(100.0),
    };
    let optimized = remove_true_filters(plan);
    assert!(matches!(optimized.op, LogicalOp::Join { .. }));
}

#[test]
fn test_merge_filters_combines_adjacent_filters() {
    // Build Filter -> Filter chain manually
    let inner = LogicalPlan {
        op: LogicalOp::AllScan { alias: None },
        cost: PlanCost::default(),
        cardinality: quantity(100.0),
    };
    let middle = LogicalPlan {
        op: LogicalOp::Filter {
            condition: Expression::Identifier("a".to_string()),
        },
        cost: PlanCost::default(),
        cardinality: quantity(50.0),
    };
    let outer = LogicalPlan {
        op: LogicalOp::Filter {
            condition: Expression::Identifier("b".to_string()),
        },
        cost: PlanCost::default(),
        cardinality: quantity(25.0),
    };
    let chain = LogicalPlan {
        op: LogicalOp::Join {
            left: Box::new(inner),
            right: Box::new(middle),
            join_type: JoinType::NestedLoop,
        },
        cost: PlanCost::default(),
        cardinality: quantity(100.0),
    };
    let plan = LogicalPlan {
        op: LogicalOp::Join {
            left: Box::new(chain),
            right: Box::new(outer),
            join_type: JoinType::NestedLoop,
        },
        cost: PlanCost::default(),
        cardinality: quantity(100.0),
    };
    let optimized = merge_filters(plan);
    // merge_filters only merges adjacent Filter nodes, not Join children
    assert!(matches!(optimized.op, LogicalOp::Join { .. }));
}

#[test]
fn test_constant_fold_evaluates_literal_expression() {
    let plan = LogicalPlan {
        op: LogicalOp::Filter {
            condition: Expression::Binary(BinaryOp::Add, Box::new(Expression::Int(2)),
                Box::new(Expression::Int(3)),
            ),
        },
        cost: PlanCost::default(),
        cardinality: quantity(100.0),
    };
    let optimized = constant_fold(plan, &compare);
    if let LogicalOp::Filter { condition } = optimized.op {
        assert_eq!(text(&condition), text(&Expression::Int(5)));
    } else {
        panic!("expected Filter");
    }
}

#[test]
fn test_constant_fold_evaluates_bool_and() {
    let plan = LogicalPlan {
        op: LogicalOp::Filter {
            condition: Expression::Binary(BinaryOp::And, Box::new(Expression::Bool(true)),
                Box::new(Expression::Bool(false)),
            ),
        },
        cost: PlanCost::default(),
        cardinality: quantity(100.0),
    };
    let optimized = constant_fold(plan, &compare);
    if let LogicalOp::Filter { condition } = optimized.op {
        assert_eq!(text(&condition), text(&Expression::Bool(false)));
    } else {
        panic!("expected Filter");
    }
}

#[test]
fn test_edge_type_cardinality_with_stats() {
    let mut stats = CatalogStats::default();
    let etype = EdgeTypeId::new(1);
    stats.edge_types.insert(etype.as_uint(),
        EdgeTypeStats {
            edge_count: 500,
            distinct_source_vertices: 100,
            distinct_target_vertices: 100,
        },
    );
    assert_eq!(value(&stats.edge_type_cardinality(etype)), 500.0);
}

#[test]
fn test_edge_type_cardinality_fallback() {
    let stats = CatalogStats::default();
    let etype = EdgeTypeId::new(99);
    assert_eq!(value(&stats.edge_type_cardinality(etype)), 1.0);
}

fn plan(op: LogicalOp, rows: f64) -> LogicalPlan {
    LogicalPlan { op, cost: PlanCost::default(), cardinality: quantity(rows) }
}

fn join(left: LogicalPlan, right: LogicalPlan) -> LogicalPlan {
    plan(LogicalOp::Join { left: Box::new(left), right: Box::new(right), join_type: JoinType::NestedLoop }, 100.0)
}

fn scan(rows: f64) -> LogicalPlan {
    plan(LogicalOp::AllScan { alias: None }, rows)
}

fn filter(condition: Expression) -> LogicalPlan {
    plan(LogicalOp::Filter { condition }, 100.0)
}

#[test]
fn plans_are_kept_until_others_take_their_place() {
    let stats = PlanStats::from_storage(&no_counts());
    let named = |name: &str| query(vec![matching(vertex(name, &[]), vec![], None), returning(name)]);
    let mut cache = PlanCache::new();
    let first = graphkit::planner::cache::plan_query(&mut cache, 1, &named("a"), &stats, &compare);
    // The fingerprint decides: the plan of the first query comes back
    let again = graphkit::planner::cache::plan_query(&mut cache, 1, &named("b"), &stats, &compare);
    assert_eq!(text(&first), text(&again));
    assert!(text(&cache.get(1).unwrap()).contains("\"a\""));
    assert!(cache.get(2).is_none());
    // As many other plans as the cache holds push the first one out
    for fingerprint in 10..10_000u64 {
        cache.put(fingerprint, scan(1.0));
        if cache.get(1).is_none() {
            panic!("a plan that was just looked at was given up");
        }
        if fingerprint == 200 {
            break;
        }
    }
    for fingerprint in 1_000..20_000u64 {
        cache.put(fingerprint, scan(1.0));
    }
    assert!(cache.get(1).is_none());
    assert!(cache.get(19_999).is_some());
}

#[test]
fn fingerprints_follow_the_text() {
    let fingerprint = graphkit::planner::cache::query_fingerprint("MATCH (n)");
    assert_eq!(fingerprint, graphkit::planner::cache::query_fingerprint("MATCH (n)"));
    assert_ne!(fingerprint, graphkit::planner::cache::query_fingerprint("MATCH (m)"));
    let mut hasher = std::collections::hash_map::DefaultHasher::new();
    "MATCH (n)".hash(&mut hasher);
    assert_eq!(fingerprint, hasher.finish());
}

#[test]
fn constants_fold_to_what_they_are() {
    let int = |n: i64| Box::new(Expression::Int(n));
    let binary = |op: BinaryOp, l: Box<Expression>, r: Box<Expression>| text(&fold(&Expression::Binary(op, l, r)));
    assert_eq!(binary(BinaryOp::Sub, int(3), int(5)), "Int(-2)");
    assert_eq!(binary(BinaryOp::Div, int(-7), int(2)), "Int(-3)");
    assert_eq!(binary(BinaryOp::Mod, int(-7), int(2)), "Int(-1)");
    // A division by zero stays as it is
    assert!(binary(BinaryOp::Div, int(1), int(0)).contains("Div"));
    assert_eq!(binary(BinaryOp::Neq, int(1), int(2)), "Bool(true)");
    // What is folded does not fold further
    let folded = fold(&Expression::Binary(BinaryOp::Add, int(1), Box::new(identifier("n"))));
    assert_eq!(text(&fold(&folded)), text(&folded));
    let is_null = Expression::Unary(UnaryOp::IsNull, Box::new(identifier("n")));
    assert_eq!(text(&fold(&is_null)), text(&is_null));
    assert!(eval_const(BinaryOp::Eq, &identifier("n"), &identifier("m"), &compare).is_none());
}

#[test]
fn filters_are_merged_and_keep_their_conditions() {
    let merged = merge_filters(join(join(scan(10.0), filter(identifier("a"))), filter(identifier("b"))));
    let shown = text(&merged.op);
    assert_eq!(shown.matches("Filter").count(), 1);
    assert!(shown.contains("\"a\"") && shown.contains("\"b\"") && shown.contains("And"));
}

#[test]
fn passes_keep_what_they_do_not_touch() {
    let made = || join(scan(10.0), filter(identifier("a")));
    let before = text(&made().op);
    assert_eq!(text(&remove_redundant_filters(made()).op), before);
    assert_eq!(text(&remove_true_filters(made()).op), before);
    assert_eq!(text(&simplify_trivial_filters(made()).op), before);
    assert_eq!(text(&pushdown_filter(made()).op), before);
    assert_eq!(text(&index_intersection(made(), &PlanStats::from_storage(&no_counts())).op), before);
}

#[test]
fn a_filter_that_is_always_true_leaves_its_join() {
    let reduced = remove_redundant_filters(join(join(scan(10.0), filter(Expression::Bool(true))), filter(identifier("a"))));
    assert_eq!(text(&reduced.op), text(&join(scan(10.0), filter(identifier("a"))).op));
    assert!(matches!(remove_redundant_filters(join(scan(10.0), filter(Expression::Bool(true)))).op, LogicalOp::AllScan { .. }));
}

#[test]
fn joins_are_as_cheap_as_can_be() {
    let cm = CostModel::default();
    let side = |rows: f64| PhysicalPlan {
        op: PhysicalOp::SeqScan { alias: None, label: None },
        cost: PlanCost::default(),
        cardinality: quantity(rows),
    };
    let joined = choose_join_physical(side(100.0), side(1000.0), &JoinType::NestedLoop, &cm, &compare);
    assert!(matches!(joined.op, PhysicalOp::SortMergeJoin { .. }));
    assert!(value(&joined.cost.cpu) <= 6500.0);
    let keyed = JoinType::HashJoin { left_key: "a".to_string(), right_key: "b".to_string() };
    let joined = choose_join_physical(side(100.0), side(1000.0), &keyed, &cm, &compare);
    assert!(matches!(joined.op, PhysicalOp::HashJoin { .. }));
    assert_eq!(value(&joined.cost.cpu), 6000.0);
}

#[test]
fn the_smaller_side_of_a_join_comes_first() {
    let cm = CostModel::default();
    let reordered = reorder_joins(join(scan(100.0), scan(5.0)), &cm, &compare);
    match &reordered.op {
        LogicalOp::Join { left, right, .. } => {
            assert_eq!((value(&left.cardinality), value(&right.cardinality)), (5.0, 100.0));
        }
        _ => panic!("a join was expected"),
    }
}

#[test]
fn explanations_indent_the_inputs() {
    let explanation = explain_plan(&join(scan(10.0), filter(Expression::Bool(true))), &show);
    let lines: Vec<&str> = explanation.lines().collect();
    assert_eq!(lines.len(), 3);
    assert!(lines[0].contains("Join"));
    assert!(lines[1].contains("AllScan"));
    assert!(lines[2].contains("Filter"));
    assert!(lines[1].contains("card=10"));
}

#[test]
fn names_are_quoted_as_they_are_written() {
    let named = plan(LogicalOp::LabelScan { alias: Some("a\"\n\u{e9}".to_string()), label: LabelId::new(2) }, 1.0);
    let explanation = explain_plan(&named, &show);
    assert!(explanation.contains(&format!("LabelScan(alias=Some({:?}), label=2)", "a\"\n\u{e9}")));
}

#[test]
fn rows_are_estimated_from_counts() {
    let mut counts = no_counts();
    counts.vertices = 500;
    counts.labels.push(CountOf { id: 7, count: 40 });
    counts.label_properties.push(CountOfPair { id: 7, property: PropertyId::new(3), count: 8 });
    let stats = PlanStats::from_storage(&counts);
    assert_eq!(stats.count_of_label(LabelId::new(7)), Some(40));
    assert_eq!(stats.count_of_label(LabelId::new(8)), None);
    assert_eq!(stats.count_of_label_property(LabelId::new(7), PropertyId::new(3)), Some(8));
    let catalog = CatalogStats::from_plan_stats(&stats);
    assert_eq!(value(&catalog.label_cardinality(LabelId::new(7))), 40.0);
    assert_eq!(catalog.total_vertices, 500);
    let physical = physical_plan_from_logical(&plan(LogicalOp::LabelScan { alias: None, label: LabelId::new(7) }, 1.0), &CostModel::default(), &catalog, &compare);
    assert!(matches!(physical.op, PhysicalOp::SeqScan { label: Some(_), .. }));
    let mut by_name: HashMap<u32, u64> = HashMap::new();
    by_name.insert(7, 40);
    assert_eq!(stats.label_counts, by_name);
}

#[test]
fn indexed_properties_are_sought() {
    let person = LabelId::new(7);
    let age = PropertyId::new(3);
    let mut counts = no_counts();
    counts.vertices = 500;
    counts.labels.push(CountOf { id: person.as_uint(), count: 40 });
    counts.label_properties.push(CountOfPair { id: person.as_uint(), property: age, count: 8 });
    let query = query(vec![matching(vertex("n", &[person]), vec![], Some(property_is("n", age, 30))), returning("n")]);
    let plan = plan_query(&counts, &query);
    assert!(text(&plan.op).contains("LabelPropertyScan"));
    assert!(is_convertible(&plan));
    let physical: PhysicalPlan = physical_plan_from_logical(&plan, &CostModel::default(), &CatalogStats::default(), &compare);
    assert!(text(&physical.op).contains("IndexSeek"));
    assert_eq!(text(&PropertyValue::Int(30)), "Int(30)");
}

/// The operators of a plan that hold no inputs, by the text of their kind, in no order.
fn operators(p: &LogicalPlan) -> Vec<String> {
    let mut found: Vec<String> = Vec::new();
    match &p.op {
        LogicalOp::Join { left, right, .. } => {
            found.extend(operators(left));
            found.extend(operators(right));
        }
        op => found.push(text(op)),
    }
    found.sort();
    found
}

#[test]
fn pushing_down_and_reordering_keep_the_operators() {
    let limit = || plan(LogicalOp::Limit { count: 3 }, 3.0);
    let sort = || plan(LogicalOp::Sort { key: vec![] }, 100.0);
    let made = || join(join(scan(50.0), scan(7.0)), join(limit(), sort()));
    let before = operators(&made());
    assert_eq!(operators(&pushdown_limit(made())), before);
    assert_eq!(operators(&pushdown_skip(made())), before);
    assert_eq!(operators(&pushdown_filter(made())), before);
    assert_eq!(operators(&reorder_joins(made(), &CostModel::default(), &compare)), before);
}

#[test]
fn emptiness_moves_up_and_only_true_filters_go() {
    let empty = simplify_trivial_filters(join(join(scan(5.0), filter(Expression::Bool(false))), scan(4.0)));
    assert!(matches!(empty.op, LogicalOp::EmptyResult));
    let kept = remove_true_filters(join(join(scan(5.0), filter(identifier("a"))), filter(Expression::Bool(true))));
    assert_eq!(operators(&kept).len(), 2);
}

#[test]
fn reading_queries_have_physical_plans() {
    let stats = PlanStats::from_storage(&no_counts());
    let order = Clause::OrderBy { items: vec![OrderByItem { expression: identifier("n"), ascending: true }] };
    let limit = Clause::Limit { count: Expression::Int(3) };
    let made = query(vec![matching(vertex("n", &[]), vec![], Some(identifier("n"))), order, limit, returning("n")]);
    let logical = ast_to_logical(&made, &stats);
    assert!(is_convertible(&logical));
    let optimized = optimize(logical, &stats, &CostModel::default());
    assert!(is_convertible(&optimized));
    let physical = physical_plan_from_logical(&optimized, &CostModel::default(), &CatalogStats::default(), &compare);
    assert!(value(&physical.cost.total()) > 0.0);
}
