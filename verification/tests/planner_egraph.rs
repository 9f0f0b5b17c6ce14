//! Equality saturation: plans as nodes, rewrites, costs, and the way back.
use egg::{CostFunction, Extractor, Id, Language, Pattern, RecExpr, Rewrite, Runner, SymbolLang};
use graphkit::planner::cost::CostModel;
use graphkit::planner::egraph::{
    optimize_egraph, optimize_query, physical_plan_from_nodes, plan_to_recexpr, recexpr_to_plan, rules, value_hash, PlanAnalysis, PlanLang, PlannerCostFunction,
};
use graphkit::planner::expression::{BinaryOp, Expression};
use graphkit::planner::ids::{LabelId, PropertyId};
use graphkit::planner::logical::{JoinType, LogicalOp, LogicalPlan, PlanCost};
use graphkit::planner::physical::PhysicalOp;
use graphkit::planner::stats::CatalogStats;
use graphkit::planner::value::PropertyValue;
use graphkit::quantity::{Compared, Quantity};

/// The double that a quantity stands for.
fn value(q: &Quantity) -> f64 {
    match q {
        Quantity::Bits(b) => f64::from_bits(*b),
        Quantity::Decimal { units, places } => *units as f64 / 10f64.powi(*places as i32),
        Quantity::Count(n) => *n as f64,
        Quantity::Integer(n) => *n as f64,
        Quantity::Sum(a, b) => value(a) + value(b),
        Quantity::Difference(a, b) => value(a) - value(b),
        Quantity::Product(a, b) => value(a) * value(b),
        Quantity::Quotient(a, b) => value(a) / value(b),
        Quantity::Negated(a) => -value(a),
        Quantity::Larger(a, b) => value(a).max(value(b)),
        Quantity::Smaller(a, b) => value(a).min(value(b)),
        Quantity::Log2(a) => value(a).log2(),
        Quantity::Ln(a) => value(a).ln(),
        Quantity::Sqrt(a) => value(a).sqrt(),
        Quantity::Abs(a) => value(a).abs(),
        Quantity::Either(a, b) => value(a) + value(b) - value(a) * value(b),
    }
}

fn compare(a: &Quantity, b: &Quantity) -> Compared {
    match value(a).partial_cmp(&value(b)) {
        Some(std::cmp::Ordering::Less) => Compared::Less,
        Some(std::cmp::Ordering::Equal) => Compared::Equal,
        Some(std::cmp::Ordering::Greater) => Compared::Greater,
        None => Compared::Unordered,
    }
}

fn quantity(x: f64) -> Quantity {
    Quantity::Bits(x.to_bits())
}

fn bits(q: &Quantity) -> u64 {
    value(q).to_bits()
}

/// A node by the name of its operator, and its inputs.
fn named(node: &PlanLang) -> (String, Vec<usize>) {
    let (name, inputs) = match node {
        PlanLang::AllScan => ("scan-all", vec![]),
        PlanLang::LabelScan(a, b) => ("scan-label", vec![*a, *b]),
        PlanLang::LabelPropScan(a, b, c, d) => ("scan-prop", vec![*a, *b, *c, *d]),
        PlanLang::Filter(a, b) => ("filter", vec![*a, *b]),
        PlanLang::Project(a, b) => ("project", vec![*a, *b]),
        PlanLang::Sort(a, b) => ("sort", vec![*a, *b]),
        PlanLang::Limit(a, b) => ("limit", vec![*a, *b]),
        PlanLang::SkipOp(a, b) => ("skip", vec![*a, *b]),
        PlanLang::Join(a, b, c) => ("join", vec![*a, *b, *c]),
        PlanLang::NestedLoop => ("nl", vec![]),
        PlanLang::HashJoin(a, b) => ("hj", vec![*a, *b]),
        PlanLang::EdgeExpand(a, b, c) => ("edge-expand", vec![*a, *b, *c]),
        PlanLang::Aggregate(a, b, c) => ("aggregate", vec![*a, *b, *c]),
        PlanLang::Distinct(a) => ("distinct", vec![*a]),
        PlanLang::Union(a, b, c) => ("union", vec![*a, *b, *c]),
        PlanLang::DirLeft => ("left", vec![]),
        PlanLang::DirRight => ("right", vec![]),
        PlanLang::DirEither => ("either", vec![]),
        PlanLang::And(a, b) => ("and", vec![*a, *b]),
        PlanLang::True => ("true", vec![]),
        PlanLang::Num(n) => return (format!("{}", n), vec![]),
        PlanLang::Symbol(s) => return (s.clone(), vec![]),
    };
    (name.to_string(), inputs)
}

fn node_of(name: &str, i: &[usize]) -> PlanLang {
    match name {
        "scan-all" => PlanLang::AllScan,
        "scan-label" => PlanLang::LabelScan(i[0], i[1]),
        "scan-prop" => PlanLang::LabelPropScan(i[0], i[1], i[2], i[3]),
        "filter" => PlanLang::Filter(i[0], i[1]),
        "project" => PlanLang::Project(i[0], i[1]),
        "sort" => PlanLang::Sort(i[0], i[1]),
        "limit" => PlanLang::Limit(i[0], i[1]),
        "skip" => PlanLang::SkipOp(i[0], i[1]),
        "join" => PlanLang::Join(i[0], i[1], i[2]),
        "nl" => PlanLang::NestedLoop,
        "hj" => PlanLang::HashJoin(i[0], i[1]),
        "edge-expand" => PlanLang::EdgeExpand(i[0], i[1], i[2]),
        "aggregate" => PlanLang::Aggregate(i[0], i[1], i[2]),
        "distinct" => PlanLang::Distinct(i[0]),
        "union" => PlanLang::Union(i[0], i[1], i[2]),
        "left" => PlanLang::DirLeft,
        "right" => PlanLang::DirRight,
        "either" => PlanLang::DirEither,
        "and" => PlanLang::And(i[0], i[1]),
        "true" => PlanLang::True,
        _ => match name.parse::<i64>() {
            Ok(n) => PlanLang::Num(n),
            Err(_) => PlanLang::Symbol(name.to_string()),
        },
    }
}

struct Costs;

impl CostFunction<SymbolLang> for Costs {
    type Cost = f64;

    fn cost<C>(&mut self, enode: &SymbolLang, mut costs: C) -> f64
    where
        C: FnMut(Id) -> f64,
    {
        let inputs: Vec<Quantity> = enode.children().iter().map(|id| quantity(costs(*id))).collect();
        let positions: Vec<usize> = (0..inputs.len()).collect();
        value(&PlannerCostFunction.cost(&node_of(enode.op.as_str(), &positions), &inputs))
    }
}

/// Rewrites nodes by the rules until nothing is new, and picks the cheapest.
fn saturate(nodes: &Vec<PlanLang>) -> Vec<PlanLang> {
    let mut expr: RecExpr<SymbolLang> = RecExpr::default();
    for node in nodes {
        let (name, inputs) = named(node);
        expr.add(SymbolLang::new(name, inputs.into_iter().map(Id::from).collect()));
    }
    let rewrites: Vec<Rewrite<SymbolLang, ()>> = rules()
        .iter()
        .map(|r| {
            let pattern: Pattern<SymbolLang> = r.pattern.parse().unwrap();
            let replacement: Pattern<SymbolLang> = r.replacement.parse().unwrap();
            Rewrite::new(r.name, r.name, pattern, replacement).unwrap()
        })
        .collect();
    let runner = Runner::<SymbolLang, (), ()>::default().with_expr(&expr).run(&rewrites);
    let mut extractor = Extractor::new(&runner.egraph, Costs);
    let (_cost, best) = extractor.find_best(runner.roots[0]);
    best.as_ref()
        .iter()
        .map(|n| {
            let inputs: Vec<usize> = n.children().iter().map(|id| usize::from(*id)).collect();
            node_of(n.op.as_str(), &inputs)
        })
        .collect()
}

#[test]
fn test_optimize_query_pipeline() {
    let cm = CostModel::default();
    let catalog = CatalogStats::default();
    // Use a non-redundant filter so it survives optimization
    let logical = LogicalPlan {
        op: LogicalOp::Filter {
            condition: Expression::Binary(BinaryOp::Eq, Box::new(Expression::Identifier("n".to_string())),
                Box::new(Expression::Int(42)),
            ),
        },
        cost: PlanCost::default(),
        cardinality: quantity(100.0),
    };
    let physical = optimize_query(logical, &cm, &catalog, &bits, &saturate, &compare).unwrap();
    // Should produce a physical plan (Filter on SeqScan)
    assert!(matches!(physical.op, PhysicalOp::Filter { .. }));
}

#[test]
fn test_egraph_rewrite_rules_compile() {
    let rules = rules();
    assert!(!rules.is_empty());
    assert!(rules
        .iter()
        .any(|r| r.name.contains("push-filter")));
    assert!(rules
        .iter()
        .any(|r| r.name.contains("join-commute")));
    assert!(rules
        .iter()
        .any(|r| r.name.contains("limit-pushdown")));
    assert!(rules
        .iter()
        .any(|r| r.name.contains("distinct-idempotent")));
}

#[test]
fn test_egraph_cost_function() {
    let cf = PlannerCostFunction;
    let scan = PlanLang::AllScan;
    let cost = value(&cf.cost(&scan, &vec![]));
    assert_eq!(cost, 10000.0);
}

#[test]
fn lib_test_egraph_optimization_runs() {
    let plan = LogicalPlan {
        op: LogicalOp::LabelScan {
            alias: Some("n".to_string()),
            label: LabelId::new(1),
        },
        cost: PlanCost::default(),
        cardinality: quantity(10.0),
    };
    let cm = CostModel::default();
    let optimized = optimize_egraph(&plan, &cm, &bits, &saturate).unwrap();
    // Should return a valid logical plan
    assert!(matches!(optimized.op, LogicalOp::LabelScan { .. }));
}

#[test]
fn test_egraph_plan_to_recexpr_with_distinct() {
    let plan = LogicalPlan {
        op: LogicalOp::Distinct,
        cost: PlanCost::default(),
        cardinality: quantity(10.0),
    };
    let (expr, _) = plan_to_recexpr(&plan, &bits);
    assert!(!expr.is_empty());
}

#[test]
fn test_egraph_plan_to_recexpr_with_union() {
    let plan = LogicalPlan {
        op: LogicalOp::Union {
            left: Box::new(LogicalPlan {
                op: LogicalOp::AllScan { alias: None },
                cost: PlanCost::default(),
                cardinality: quantity(10.0),
            }),
            right: Box::new(LogicalPlan {
                op: LogicalOp::AllScan { alias: None },
                cost: PlanCost::default(),
                cardinality: quantity(10.0),
            }),
            all: true,
        },
        cost: PlanCost::default(),
        cardinality: quantity(20.0),
    };
    let (expr, _) = plan_to_recexpr(&plan, &bits);
    assert!(!expr.is_empty());
}

#[test]
fn test_egraph_rules_compile() {
    let r = rules();
    assert!(!r.is_empty());
}

#[test]
fn test_plan_to_recexpr() {
    let plan = LogicalPlan {
        op: LogicalOp::AllScan { alias: None },
        cost: PlanCost::default(),
        cardinality: quantity(100.0),
    };
    let (expr, _) = plan_to_recexpr(&plan, &bits);
    assert!(!expr.is_empty());
}

#[test]
fn egraph_test_egraph_optimization_runs() {
    let plan = LogicalPlan {
        op: LogicalOp::LabelScan {
            alias: Some("n".to_string()),
            label: LabelId::new(1),
        },
        cost: PlanCost::default(),
        cardinality: quantity(10.0),
    };
    let cm = CostModel::default();
    let _optimized = optimize_egraph(&plan, &cm, &bits, &saturate).unwrap();
}

#[test]
fn test_filter_pushdown_rule() {
    let rules = rules();
    assert!(rules
        .iter()
        .any(|r| r.name.contains("push-filter")));
}

#[test]
fn test_join_commute_rule() {
    let rules = rules();
    assert!(rules
        .iter()
        .any(|r| r.name.contains("join-commute")));
}

#[test]
fn test_cost_function() {
    let cf = PlannerCostFunction;
    let scan = PlanLang::AllScan;
    let cost = value(&cf.cost(&scan, &vec![]));
    assert_eq!(cost, 10000.0);
}

#[test]
fn test_new_egraph_rules_exist() {
    let rules = rules();
    assert!(rules
        .iter()
        .any(|r| r.name.contains("limit-pushdown-sort")));
    assert!(rules
        .iter()
        .any(|r| r.name.contains("limit-pushdown-filter")));
    assert!(rules
        .iter()
        .any(|r| r.name.contains("remove-true-filter")));
    assert!(rules
        .iter()
        .any(|r| r.name.contains("union-commute")));
    assert!(rules
        .iter()
        .any(|r| r.name.contains("distinct-idempotent")));
    assert!(rules
        .iter()
        .any(|r| r.name.contains("join-assoc")));
}

#[test]
fn test_plan_to_recexpr_with_new_ops() {
    let plan = LogicalPlan {
        op: LogicalOp::Distinct,
        cost: PlanCost::default(),
        cardinality: quantity(10.0),
    };
    let (expr, _) = plan_to_recexpr(&plan, &bits);
    assert!(!expr.is_empty());

    let plan2 = LogicalPlan {
        op: LogicalOp::Union {
            left: Box::new(LogicalPlan {
                op: LogicalOp::AllScan { alias: None },
                cost: PlanCost::default(),
                cardinality: quantity(10.0),
            }),
            right: Box::new(LogicalPlan {
                op: LogicalOp::AllScan { alias: None },
                cost: PlanCost::default(),
                cardinality: quantity(10.0),
            }),
            all: true,
        },
        cost: PlanCost::default(),
        cardinality: quantity(20.0),
    };
    let (expr2, _) = plan_to_recexpr(&plan2, &bits);
    assert!(!expr2.is_empty());
}

#[test]
fn test_cost_function_new_ops() {
    let cf = PlannerCostFunction;
    let distinct = PlanLang::Distinct(0);
    let cost = value(&cf.cost(&distinct, &vec![quantity(100.0)]));
    assert_eq!(cost, 200.0);

    let union = PlanLang::Union(0, 0, 0);
    let cost2 = value(&cf.cost(&union, &vec![quantity(50.0), quantity(50.0), quantity(50.0)]));
    assert_eq!(cost2, 101.0);
}

#[test]
fn test_analysis_tracks_properties() {
    let scan = PlanAnalysis::make(&PlanLang::AllScan, &vec![]);
    let again = PlanAnalysis::make(&PlanLang::AllScan, &vec![]);
    let data = PlanAnalysis::make(&PlanLang::Sort(0, 0), &vec![scan, again]);
    assert!(data.is_sorted);
}

#[test]
fn test_analysis_has_index_for_label_scan() {
    let label = PlanAnalysis::make(&PlanLang::Num(1), &vec![]);
    let alias = PlanAnalysis::make(&PlanLang::Symbol("n".to_string()), &vec![]);
    let data = PlanAnalysis::make(&PlanLang::LabelScan(0, 1), &vec![label, alias]);
    assert!(data.has_index);
}

#[test]
fn test_projection_pushdown_rules_exist() {
    let rules = rules();
    assert!(rules
        .iter()
        .any(|r| r.name.contains("project-pushdown")));
}

#[test]
fn test_distinct_limit_swap_rule_exists() {
    let rules = rules();
    assert!(rules
        .iter()
        .any(|r| r.name.contains("distinct-limit-swap")));
}

#[test]
fn test_filter_pushdown_distinct_rule_exists() {
    let rules = rules();
    assert!(rules
        .iter()
        .any(|r| r.name.contains("filter-pushdown-distinct")));
}

fn leaf(op: LogicalOp) -> LogicalPlan {
    LogicalPlan { op, cost: PlanCost::default(), cardinality: quantity(10.0) }
}

fn join(left: LogicalPlan, right: LogicalPlan) -> LogicalPlan {
    leaf(LogicalOp::Join { left: Box::new(left), right: Box::new(right), join_type: JoinType::NestedLoop })
}

#[test]
fn nodes_lead_back_to_the_plan() {
    let plan = join(
        leaf(LogicalOp::LabelScan { alias: Some("n".to_string()), label: LabelId::new(4) }),
        leaf(LogicalOp::AllScan { alias: None }),
    );
    let (nodes, conditions) = plan_to_recexpr(&plan, &bits);
    match recexpr_to_plan(&nodes, &conditions).op {
        LogicalOp::Join { left, right, .. } => {
            assert!(matches!(left.op, LogicalOp::LabelScan { .. }));
            assert_eq!(format!("{:?}", left.op), "LabelScan { alias: Some(\"n\"), label: LabelId { id: 4 } }");
            assert!(matches!(right.op, LogicalOp::AllScan { .. }));
        }
        _ => panic!("a join was expected"),
    }
    let physical = physical_plan_from_nodes(&nodes, &conditions, &CostModel::default(), &CatalogStats::default(), &compare);
    assert!(format!("{:?}", physical.op).contains("Join"));
}

#[test]
fn conditions_survive_saturation() {
    let equals = |name: &str, n: i64| {
        Expression::Binary(BinaryOp::Eq, Box::new(Expression::Identifier(name.to_string())), Box::new(Expression::Int(n)))
    };
    let kept = format!("{:?}", equals("n", 42));
    let cm = CostModel::default();
    let plan = leaf(LogicalOp::Filter { condition: equals("n", 42) });
    match optimize_query(plan, &cm, &CatalogStats::default(), &bits, &saturate, &compare).unwrap().op {
        PhysicalOp::Filter { condition, child } => {
            assert_eq!(format!("{:?}", condition), kept);
            assert!(matches!(child.op, PhysicalOp::SeqScan { alias: None, label: None }));
        }
        _ => panic!("a filter was expected"),
    }
    // Each filter of a plan keeps its own condition
    let both = Expression::Binary(BinaryOp::And, Box::new(equals("a", 1)), Box::new(Expression::Bool(false)));
    let plan = join(leaf(LogicalOp::Filter { condition: equals("b", 2) }), leaf(LogicalOp::Filter { condition: both }));
    let (nodes, conditions) = plan_to_recexpr(&plan, &bits);
    assert_eq!(conditions.len(), 2);
    match recexpr_to_plan(&nodes, &conditions).op {
        LogicalOp::Join { left, right, .. } => {
            let conjunction = Expression::Binary(BinaryOp::And, Box::new(equals("a", 1)), Box::new(Expression::Bool(false)));
            assert_eq!(format!("{:?}", left.op), format!("{:?}", LogicalOp::Filter { condition: equals("b", 2) }));
            assert_eq!(format!("{:?}", right.op), format!("{:?}", LogicalOp::Filter { condition: conjunction }));
        }
        _ => panic!("a join was expected"),
    }
}

#[test]
fn nodes_that_are_no_plan_are_refused() {
    let plan = leaf(LogicalOp::AllScan { alias: None });
    let cm = CostModel::default();
    let nothing = |_: &Vec<PlanLang>| -> Vec<PlanLang> { vec![] };
    assert!(optimize_egraph(&plan, &cm, &bits, &nothing).is_none());
    // A filter whose condition is a scan
    let wrong = |_: &Vec<PlanLang>| vec![PlanLang::AllScan, PlanLang::Filter(0, 0)];
    assert!(optimize_egraph(&plan, &cm, &bits, &wrong).is_none());
    assert!(optimize_query(plan, &cm, &CatalogStats::default(), &bits, &wrong, &compare).is_none());
}

#[test]
fn saturation_drops_a_filter_that_is_true() {
    let nodes = vec![PlanLang::True, PlanLang::AllScan, PlanLang::Filter(0, 1)];
    let best = saturate(&nodes);
    assert_eq!(format!("{:?}", best), "[AllScan]");
}

#[test]
fn classes_keep_the_cheaper_estimate() {
    let cheap = || PlanAnalysis::make(&PlanLang::LabelScan(0, 1), &vec![PlanAnalysis::make(&PlanLang::Num(1), &vec![]), PlanAnalysis::make(&PlanLang::Num(2), &vec![])]);
    let mut to = PlanAnalysis::make(&PlanLang::AllScan, &vec![]);
    assert!(PlanAnalysis::merge(&mut to, cheap(), &compare));
    assert_eq!(value(&to.estimated_cost), 100.0);
    assert!(to.has_index);
    assert!(!PlanAnalysis::merge(&mut to, cheap(), &compare));
}

#[test]
fn values_hash_by_tag_and_content() {
    let hash = |v: PropertyValue| value_hash(&v, &bits);
    assert_eq!(hash(PropertyValue::Int(5)), hash(PropertyValue::Int(5)));
    assert_ne!(hash(PropertyValue::Int(5)), hash(PropertyValue::Int(6)));
    assert_ne!(hash(PropertyValue::Bool(true)), hash(PropertyValue::Int(1)));
    assert_eq!(hash(PropertyValue::Double(quantity(0.5))), hash(PropertyValue::Double(Quantity::Decimal { units: 5, places: 1 })));
    assert_eq!(PropertyId::new(3).as_uint(), 3);
}
