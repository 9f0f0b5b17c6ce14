//! Logical plans of parsed queries.
use vstd::prelude::*;

use crate::planner::cost::CostModel;
use crate::planner::expression::{expr_view, BinaryOp, Expr, Expression, UnaryOp};
use crate::planner::ids::{LabelId, PropertyId};
use crate::planner::logical::{clone_entries, clone_exprs, clone_items, clone_keys, clone_labels, JoinKind, JoinType, LogicalOp, LogicalPlan, Op, Plan, PlanCost};
use crate::planner::query::{opt_text, views, Clause, IndexHint, MatchPattern, NamedExpr, NodePattern, PatternElement, PatternStep, PropertyEntry, Query, ReturnItem, SetItem};
use crate::planner::stats::{at_least_one, count_at_least_one, estimate_cost, op_cost, PlanStats};
use crate::planner::value::{PropertyValue, Value};
use crate::quantity::Quantity;
use crate::text::{equal_ignoring_case, same_ignoring_case};

verus! {

/// A plan of one operator on so many rows of input, at the standard costs.
pub open spec fn leaf_of(op: Op, rows: Quantity) -> Plan {
    let (cost, cardinality) = op_cost(op, rows, CostModel::standard());
    Plan { op, cost: PlanCost::of_cpu(cost), cardinality }
}

pub fn leaf(op: LogicalOp, cardinality: Quantity) -> (r: LogicalPlan)
    ensures
        r@ == leaf_of(op@, cardinality),
{
    let cm = CostModel::default();
    let (cost, card) = estimate_cost(&op, &cardinality, &cm);
    LogicalPlan { op, cost: PlanCost::cpu_only(cost), cardinality: card }
}

/// Two plans of which the second works on what the first gives.
pub open spec fn chain_of(left: Plan, right: Plan) -> Plan {
    Plan {
        op: Op::Join(Box::new(left), Box::new(right), JoinKind::NestedLoop),
        cost: PlanCost::of_cpu(Quantity::Count(1)),
        cardinality: Quantity::larger(left.cardinality, right.cardinality),
    }
}

pub fn chain(left: LogicalPlan, right: LogicalPlan) -> (r: LogicalPlan)
    ensures
        r@ == chain_of(left@, right@),
{
    let cardinality = left.cardinality.clone().at_least(right.cardinality.clone());
    LogicalPlan {
        op: LogicalOp::Join { left: Box::new(left), right: Box::new(right), join_type: JoinType::NestedLoop },
        cost: PlanCost::cpu_only(Quantity::Count(1)),
        cardinality,
    }
}

/// The plan of a query that asks for nothing.
pub open spec fn blank_plan() -> Plan {
    Plan { op: Op::AllScan(None), cost: PlanCost::zero(), cardinality: Quantity::Count(0) }
}

fn blank() -> (r: LogicalPlan)
    ensures
        r@ == blank_plan(),
{
    LogicalPlan { op: LogicalOp::AllScan { alias: None }, cost: PlanCost::default(), cardinality: Quantity::Count(0) }
}

/// Plans chained from left to right.
pub open spec fn chained(s: Seq<Plan>) -> Plan
    decreases s.len(),
{
    if s.len() == 0 {
        blank_plan()
    } else if s.len() == 1 {
        s[0]
    } else {
        chain_of(chained(s.drop_last()), s.last())
    }
}

/// The plan so far, with one more chained to it.
pub open spec fn extended(current: Option<Plan>, next: Plan) -> Plan {
    match current {
        Some(p) => chain_of(p, next),
        None => next,
    }
}

fn extend(current: Option<LogicalPlan>, next: LogicalPlan) -> (r: LogicalPlan)
    ensures
        r@ == extended(
            match current {
                Some(p) => Some(p@),
                None => None,
            },
            next@,
        ),
{
    match current {
        Some(p) => chain(p, next),
        None => next,
    }
}

/// The value of a literal expression.
pub open spec fn literal_value(e: Expr) -> Option<Value> {
    match e {
        Expr::Int(n) => Some(Value::Int(n)),
        Expr::Double(q) => Some(Value::Double(q)),
        Expr::Text(s) => Some(Value::Text(s)),
        Expr::Bool(b) => Some(Value::Bool(b)),
        Expr::Null => Some(Value::Null),
        _ => None,
    }
}

/// The model of an optional property value.
pub open spec fn opt_value(o: Option<PropertyValue>) -> Option<Value> {
    match o {
        Some(v) => Some(v@),
        None => None,
    }
}

pub fn expr_to_literal(expr: &Expression) -> (r: Option<PropertyValue>)
    ensures
        opt_value(r) == literal_value(expr@),
{
    match expr {
        Expression::Int(n) => Some(PropertyValue::Int(*n)),
        Expression::Double(q) => Some(PropertyValue::Double(q.clone())),
        Expression::String(s) => Some(PropertyValue::String(s.clone())),
        Expression::Bool(b) => Some(PropertyValue::Bool(*b)),
        Expression::Null => Some(PropertyValue::Null),
        _ => None,
    }
}

/// A condition that a property of a named vertex or edge has a given value.
pub struct PropertyEquality {
    pub alias: String,
    pub property: PropertyId,
    pub value: PropertyValue,
}

/// The model of a property equality.
pub struct Equality {
    pub alias: Seq<char>,
    pub property: PropertyId,
    pub value: Value,
}

impl View for PropertyEquality {
    type V = Equality;

    open spec fn view(&self) -> Equality {
        Equality { alias: self.alias@, property: self.property, value: self.value@ }
    }
}

/// The model of an optional property equality.
pub open spec fn opt_equality(o: Option<PropertyEquality>) -> Option<Equality> {
    match o {
        Some(q) => Some(q@),
        None => None,
    }
}

/// The equality that a property read and a literal make.
pub open spec fn property_literal(prop: Expr, lit: Expr) -> Option<Equality> {
    match prop {
        Expr::Property(object, key) => match (*object, literal_value(lit)) {
            (Expr::Identifier(alias), Some(value)) => Some(Equality { alias, property: key, value }),
            _ => None,
        },
        _ => None,
    }
}

fn try_property_literal(prop_expr: &Expression, lit_expr: &Expression) -> (r: Option<PropertyEquality>)
    ensures
        opt_equality(r) == property_literal(prop_expr@, lit_expr@),
{
    proof {
        reveal_with_fuel(expr_view, 2);
    }
    if let Expression::Property { object, key } = prop_expr {
        if let Expression::Identifier(alias) = &**object {
            if let Some(value) = expr_to_literal(lit_expr) {
                return Some(PropertyEquality { alias: alias.clone(), property: *key, value });
            }
        }
    }
    None
}

/// The first property equality among the conjuncts of a condition.
pub open spec fn property_equality(e: Expr) -> Option<Equality>
    decreases e,
{
    match e {
        Expr::Binary(BinaryOp::Eq, lhs, rhs) => match property_literal(*lhs, *rhs) {
            Some(q) => Some(q),
            None => property_literal(*rhs, *lhs),
        },
        Expr::Binary(BinaryOp::And, lhs, rhs) => match property_equality(*lhs) {
            Some(q) => Some(q),
            None => property_equality(*rhs),
        },
        _ => None,
    }
}

/// Extracts the first property equality among the conjuncts of a condition.
pub fn extract_property_equality(expr: &Expression) -> (r: Option<PropertyEquality>)
    ensures
        opt_equality(r) == property_equality(expr@),
    decreases expr,
{
    match expr {
        Expression::Binary(op, lhs, rhs) => match op {
            BinaryOp::Eq => {
                let first = try_property_literal(lhs, rhs);
                if first.is_some() {
                    return first;
                }
                try_property_literal(rhs, lhs)
            },
            BinaryOp::And => {
                let first = extract_property_equality(lhs);
                if first.is_some() {
                    return first;
                }
                extract_property_equality(rhs)
            },
            _ => None,
        },
        _ => None,
    }
}

/// The value that an equality gives to a property, if it is about that property.
pub open spec fn value_given(q: Option<Equality>, alias: Seq<char>, property: PropertyId) -> Option<Value> {
    match q {
        Some(e) => if e.alias == alias && e.property == property {
            Some(e.value)
        } else {
            None
        },
        None => None,
    }
}

/// The first of two optional values.
pub open spec fn first_of(a: Option<Value>, b: Option<Value>) -> Option<Value> {
    match a {
        Some(v) => Some(v),
        None => b,
    }
}

/// The value that the first conjunct about a property gives to it.
pub open spec fn specific_equality(e: Expr, alias: Seq<char>, property: PropertyId) -> Option<Value>
    decreases e,
{
    match e {
        Expr::Binary(BinaryOp::Eq, lhs, rhs) => first_of(
            value_given(property_literal(*lhs, *rhs), alias, property),
            value_given(property_literal(*rhs, *lhs), alias, property),
        ),
        Expr::Binary(BinaryOp::And, lhs, rhs) => first_of(
            specific_equality(*lhs, alias, property),
            specific_equality(*rhs, alias, property),
        ),
        _ => None,
    }
}

fn value_if_about(q: Option<PropertyEquality>, alias: &String, property: PropertyId) -> (r: Option<PropertyValue>)
    ensures
        opt_value(r) == value_given(opt_equality(q), alias@, property),
{
    match q {
        Some(e) => if e.alias == *alias && e.property == property {
            Some(e.value)
        } else {
            None
        },
        None => None,
    }
}

/// Extracts the value that a condition gives to a property of a named vertex.
pub fn extract_specific_property_equality(expr: &Expression, target_alias: &String, target_property: PropertyId) -> (r: Option<
    PropertyValue,
>)
    ensures
        opt_value(r) == specific_equality(expr@, target_alias@, target_property),
    decreases expr,
{
    match expr {
        Expression::Binary(op, lhs, rhs) => match op {
            BinaryOp::Eq => {
                let first = value_if_about(try_property_literal(lhs, rhs), target_alias, target_property);
                if first.is_some() {
                    return first;
                }
                value_if_about(try_property_literal(rhs, lhs), target_alias, target_property)
            },
            BinaryOp::And => {
                let first = extract_specific_property_equality(lhs, target_alias, target_property);
                if first.is_some() {
                    return first;
                }
                extract_specific_property_equality(rhs, target_alias, target_property)
            },
            _ => None,
        },
        _ => None,
    }
}

/// Whether a name, in any mixture of cases, is that of an aggregate function.
pub open spec fn names_aggregate(name: Seq<char>) -> bool {
    ||| same_ignoring_case(name, "count"@)
    ||| same_ignoring_case(name, "sum"@)
    ||| same_ignoring_case(name, "avg"@)
    ||| same_ignoring_case(name, "min"@)
    ||| same_ignoring_case(name, "max"@)
    ||| same_ignoring_case(name, "collect"@)
    ||| same_ignoring_case(name, "collect_map"@)
    ||| same_ignoring_case(name, "collectmap"@)
}

/// Whether an expression aggregates: a count of rows, an aggregate function, or arithmetic on one.
pub open spec fn aggregating(e: Expr) -> bool
    decreases e,
{
    match e {
        Expr::CountStar => true,
        Expr::Function(name, _, _) => names_aggregate(name),
        Expr::Binary(BinaryOp::Add | BinaryOp::Sub | BinaryOp::Mul | BinaryOp::Div | BinaryOp::Mod, a, b) => aggregating(*a)
            || aggregating(*b),
        Expr::Unary(UnaryOp::Neg | UnaryOp::Not, a) => aggregating(*a),
        _ => false,
    }
}

/// Decides whether an expression aggregates.
pub fn is_aggregate(expr: &Expression) -> (r: bool)
    ensures
        r == aggregating(expr@),
    decreases expr,
{
    match expr {
        Expression::CountStar => true,
        Expression::Function { name, .. } => {
            let n = name.as_str();
            equal_ignoring_case(n, "count") || equal_ignoring_case(n, "sum") || equal_ignoring_case(n, "avg")
                || equal_ignoring_case(n, "min") || equal_ignoring_case(n, "max") || equal_ignoring_case(n, "collect")
                || equal_ignoring_case(n, "collect_map") || equal_ignoring_case(n, "collectmap")
        },
        Expression::Binary(op, a, b) => match op {
            BinaryOp::Add | BinaryOp::Sub | BinaryOp::Mul | BinaryOp::Div | BinaryOp::Mod => is_aggregate(a) || is_aggregate(b),
            _ => false,
        },
        Expression::Unary(op, a) => match op {
            UnaryOp::Neg | UnaryOp::Not => is_aggregate(a),
            _ => false,
        },
        _ => false,
    }
}

/// The first hint for a label.
pub open spec fn hint_for(hints: Seq<IndexHint>, label: LabelId) -> Option<IndexHint>
    decreases hints.len(),
{
    if hints.len() == 0 {
        None
    } else if hints[0].label == label {
        Some(hints[0])
    } else {
        hint_for(hints.skip(1), label)
    }
}

fn find_hint(hints: &Vec<IndexHint>, label: LabelId) -> (r: Option<IndexHint>)
    ensures
        r == hint_for(hints@, label),
{
    let mut i: usize = 0;
    assert(hints@.skip(0) =~= hints@);
    while i < hints.len()
        invariant
            i <= hints@.len(),
            hint_for(hints@, label) == hint_for(hints@.skip(i as int), label),
        decreases hints@.len() - i,
    {
        if hints[i].label == label {
            return Some(hints[i]);
        }
        assert(hints@.skip(i as int).skip(1) =~= hints@.skip(i + 1));
        i += 1;
    }
    None
}

/// The number of vertices that a pattern vertex may stand for: those of its first label, or all;
/// at least one.
pub open spec fn node_rows(node: NodePattern, stats: PlanStats) -> u64 {
    at_least_one(
        if node.labels@.len() > 0 {
            match stats.label_count(node.labels@[0]) {
                Some(n) => n,
                None => 0,
            }
        } else {
            stats.vertex_count
        },
    )
}

fn node_cardinality(node: &NodePattern, stats: &PlanStats) -> (r: u64)
    ensures
        r == node_rows(*node, *stats),
{
    let n: u64 = if node.labels.len() > 0 {
        match stats.count_of_label(node.labels[0]) {
            Some(n) => n,
            None => 0,
        }
    } else {
        stats.vertex_count
    };
    count_at_least_one(n)
}

/// The number that is known for a label and a property, or none.
pub open spec fn known_rows(stats: PlanStats, label: LabelId, property: PropertyId) -> u64 {
    match stats.label_property_count(label, property) {
        Some(n) => n,
        None => 0,
    }
}

fn known_count(stats: &PlanStats, label: LabelId, property: PropertyId) -> (r: u64)
    ensures
        r == known_rows(*stats, label, property),
{
    match stats.count_of_label_property(label, property) {
        Some(n) => n,
        None => 0,
    }
}

/// The index scan that the condition of a clause suggests for a vertex, if its index has entries.
pub open spec fn suggested_scan(
    alias: Option<Seq<char>>,
    label: LabelId,
    condition: Option<Expr>,
    stats: PlanStats,
) -> Option<Plan> {
    match condition {
        Some(wc) => match property_equality(wc) {
            Some(q) => if alias == Some(q.alias) && known_rows(stats, label, q.property) > 0 {
                Some(
                    leaf_of(
                        Op::LabelPropertyScan(alias, label, q.property, q.value),
                        Quantity::Count(known_rows(stats, label, q.property)),
                    ),
                )
            } else {
                None
            },
            None => None,
        },
        None => None,
    }
}

/// The index scan that a hint asks for, if the condition of the clause gives the property a value.
pub open spec fn hinted_scan(
    alias: Option<Seq<char>>,
    label: LabelId,
    condition: Option<Expr>,
    stats: PlanStats,
    hints: Seq<IndexHint>,
) -> Option<Plan> {
    match (hint_for(hints, label), condition, alias) {
        (Some(hint), Some(wc), Some(name)) => match hint.property {
            Some(property) => match specific_equality(wc, name, property) {
                Some(value) => Some(
                    leaf_of(
                        Op::LabelPropertyScan(alias, label, property, value),
                        Quantity::Count(at_least_one(known_rows(stats, label, property))),
                    ),
                ),
                None => None,
            },
            None => None,
        },
        _ => None,
    }
}

/// The scan that finds a vertex: of an index where a hint or the condition leads to one, else of
/// its first label, else of all vertices.
pub open spec fn node_scan(
    node: NodePattern,
    condition: Option<Expr>,
    stats: PlanStats,
    hints: Seq<IndexHint>,
) -> Plan {
    let alias = opt_text(node.alias);
    let rows = Quantity::Count(node_rows(node, stats));
    if node.labels@.len() > 0 {
        let label = node.labels@[0];
        match hinted_scan(alias, label, condition, stats, hints) {
            Some(p) => p,
            None => match suggested_scan(alias, label, condition, stats) {
                Some(p) => p,
                None => leaf_of(Op::LabelScan(alias, label), rows),
            },
        }
    } else {
        leaf_of(Op::AllScan(alias), rows)
    }
}

/// The model of an optional expression.
pub open spec fn opt_expr(o: Option<Expression>) -> Option<Expr> {
    match o {
        Some(e) => Some(e@),
        None => None,
    }
}

/// The model of an optional plan.
pub open spec fn opt_plan(o: Option<LogicalPlan>) -> Option<Plan> {
    match o {
        Some(p) => Some(p@),
        None => None,
    }
}

fn suggest_scan(alias: &Option<String>, label: LabelId, where_clause: &Option<Expression>, stats: &PlanStats) -> (r: Option<
    LogicalPlan,
>)
    ensures
        opt_plan(r) == suggested_scan(opt_text(*alias), label, opt_expr(*where_clause), *stats),
{
    if let Some(wc) = where_clause {
        if let Some(q) = extract_property_equality(wc) {
            let named = match alias {
                Some(name) => *name == q.alias,
                None => false,
            };
            let count: u64 = known_count(stats, label, q.property);
            if named && count > 0 {
                return Some(
                    leaf(
                        LogicalOp::LabelPropertyScan {
                            alias: alias.clone(),
                            label,
                            property: q.property,
                            value: q.value,
                        },
                        Quantity::Count(count),
                    ),
                );
            }
        }
    }
    None
}

fn hint_scan(
    alias: &Option<String>,
    label: LabelId,
    where_clause: &Option<Expression>,
    stats: &PlanStats,
    hints: &Vec<IndexHint>,
) -> (r: Option<LogicalPlan>)
    ensures
        opt_plan(r) == hinted_scan(opt_text(*alias), label, opt_expr(*where_clause), *stats, hints@),
{
    match (find_hint(hints, label), where_clause, alias) {
        (Some(hint), Some(wc), Some(name)) => match hint.property {
            Some(property) => match extract_specific_property_equality(wc, name, property) {
                Some(value) => {
                    let count: u64 = count_at_least_one(known_count(stats, label, property));
                    Some(
                        leaf(
                            LogicalOp::LabelPropertyScan { alias: alias.clone(), label, property, value },
                            Quantity::Count(count),
                        ),
                    )
                },
                None => None,
            },
            None => None,
        },
        _ => None,
    }
}

fn plan_node(node: &NodePattern, where_clause: &Option<Expression>, stats: &PlanStats, hints: &Vec<IndexHint>) -> (r:
    LogicalPlan)
    ensures
        r@ == node_scan(*node, opt_expr(*where_clause), *stats, hints@),
{
    let rows = Quantity::Count(node_cardinality(node, stats));
    if node.labels.len() > 0 {
        let label = node.labels[0];
        if let Some(p) = hint_scan(&node.alias, label, where_clause, stats, hints) {
            return p;
        }
        if let Some(p) = suggest_scan(&node.alias, label, where_clause, stats) {
            return p;
        }
        leaf(LogicalOp::LabelScan { alias: node.alias.clone(), label }, rows)
    } else {
        leaf(LogicalOp::AllScan { alias: node.alias.clone() }, rows)
    }
}

/// The condition that a property of a named vertex or edge has the value of an expression.
pub open spec fn property_is(alias: Seq<char>, entry: PropertyEntry) -> Expr {
    Expr::Binary(
        BinaryOp::Eq,
        Box::new(Expr::Property(Box::new(Expr::Identifier(alias)), entry.key)),
        Box::new(entry.value@),
    )
}

/// A plan with a filter chained to it, on a share of its rows.
pub open spec fn filtered(p: Plan, condition: Expr, share: Quantity) -> Plan {
    chain_of(p, leaf_of(Op::Filter(condition), Quantity::product(p.cardinality, share)))
}

fn add_filter(plan: LogicalPlan, condition: Expression, share: Quantity) -> (r: LogicalPlan)
    ensures
        r@ == filtered(plan@, condition@, share),
{
    let card = plan.cardinality.clone().times(share);
    chain(plan, leaf(LogicalOp::Filter { condition }, card))
}

/// A plan with a filter for each of the first `n` properties.
pub open spec fn with_properties(p: Plan, alias: Seq<char>, entries: Seq<PropertyEntry>, n: nat) -> Plan
    decreases n,
{
    if n == 0 {
        p
    } else {
        filtered(
            with_properties(p, alias, entries, (n - 1) as nat),
            property_is(alias, entries[n - 1]),
            Quantity::decimal(3, 1),
        )
    }
}

fn add_property_filters(plan: LogicalPlan, alias: &String, entries: &Vec<PropertyEntry>) -> (r: LogicalPlan)
    ensures
        r@ == with_properties(plan@, alias@, entries@, entries@.len()),
{
    let ghost start = plan@;
    let mut scan = plan;
    let mut i: usize = 0;
    while i < entries.len()
        invariant
            i <= entries@.len(),
            scan@ == with_properties(start, alias@, entries@, i as nat),
        decreases entries@.len() - i,
    {
        proof {
            reveal_with_fuel(expr_view, 3);
        }
        let read = Expression::Property {
            object: Box::new(Expression::Identifier(alias.clone())),
            key: entries[i].key,
        };
        let condition = Expression::Binary(BinaryOp::Eq, Box::new(read), Box::new(entries[i].value.clone()));
        scan = add_filter(scan, condition, Quantity::from_decimal(3, 1));
        i += 1;
    }
    scan
}

/// A plan with a filter for each of the first `n` labels.
pub open spec fn with_labels(p: Plan, alias: Seq<char>, labels: Seq<LabelId>, n: nat) -> Plan
    decreases n,
{
    if n == 0 {
        p
    } else {
        filtered(
            with_labels(p, alias, labels, (n - 1) as nat),
            Expr::Label(Box::new(Expr::Identifier(alias)), labels[n - 1]),
            Quantity::decimal(5, 1),
        )
    }
}

fn add_label_filters(plan: LogicalPlan, alias: &String, labels: &Vec<LabelId>) -> (r: LogicalPlan)
    ensures
        r@ == with_labels(plan@, alias@, labels@, labels@.len()),
{
    let ghost start = plan@;
    let mut scan = plan;
    let mut i: usize = 0;
    while i < labels.len()
        invariant
            i <= labels@.len(),
            scan@ == with_labels(start, alias@, labels@, i as nat),
        decreases labels@.len() - i,
    {
        proof {
            reveal_with_fuel(expr_view, 2);
        }
        let condition = Expression::Label { object: Box::new(Expression::Identifier(alias.clone())), label: labels[i] };
        scan = add_filter(scan, condition, Quantity::from_decimal(5, 1));
        i += 1;
    }
    scan
}

/// The name of a vertex; one without a name is called `_`.
pub open spec fn name_or_blank(o: Option<Seq<char>>) -> Seq<char> {
    match o {
        Some(s) => s,
        None => "_"@,
    }
}

fn name_or_underscore(o: &Option<String>) -> (r: String)
    ensures
        r@ == name_or_blank(opt_text(*o)),
{
    match o {
        Some(s) => s.clone(),
        None => "_".to_string(),
    }
}

/// The operator that follows a step of a path from the vertex named `from`.
pub open spec fn expand_op(from: Seq<char>, step: PatternStep) -> Op {
    Op::EdgeExpand {
        from_alias: from,
        edge_alias: opt_text(step.edge.alias),
        to_alias: opt_text(step.node.alias),
        direction: step.edge.direction,
        edge_type: if step.edge.edge_types@.len() > 0 {
            Some(step.edge.edge_types@[0])
        } else {
            None
        },
    }
}

/// A plan with one step of a path: the edge is followed, then the properties of the edge, the
/// labels and the properties of the vertex are tested, as far as the two have names.
pub open spec fn stepped(p: Plan, from: Seq<char>, step: PatternStep, rows: u64) -> Plan {
    let followed = chain_of(
        p,
        leaf_of(expand_op(from, step), Quantity::product(Quantity::Count(rows), Quantity::Count(5))),
    );
    let edge_tested = match step.edge.alias {
        Some(alias) => with_properties(followed, alias@, step.edge.properties@, step.edge.properties@.len()),
        None => followed,
    };
    match step.node.alias {
        Some(alias) => with_properties(
            with_labels(edge_tested, alias@, step.node.labels@, step.node.labels@.len()),
            alias@,
            step.node.properties@,
            step.node.properties@.len(),
        ),
        None => edge_tested,
    }
}

fn add_step(plan: LogicalPlan, from: &String, step: &PatternStep, rows: u64) -> (r: LogicalPlan)
    ensures
        r@ == stepped(plan@, from@, *step, rows),
{
    let edge_type = if step.edge.edge_types.len() > 0 {
        Some(step.edge.edge_types[0])
    } else {
        None
    };
    let edge_plan = leaf(
        LogicalOp::EdgeExpand {
            from_alias: from.clone(),
            edge_alias: step.edge.alias.clone(),
            to_alias: step.node.alias.clone(),
            direction: step.edge.direction,
            edge_type,
        },
        Quantity::Count(rows).times(Quantity::Count(5)),
    );
    let mut scan = chain(plan, edge_plan);
    if let Some(alias) = &step.edge.alias {
        scan = add_property_filters(scan, alias, &step.edge.properties);
    }
    if let Some(alias) = &step.node.alias {
        scan = add_label_filters(scan, alias, &step.node.labels);
        scan = add_property_filters(scan, alias, &step.node.properties);
    }
    scan
}

/// The name of the vertex that a path has reached after `n` steps.
pub open spec fn reached(element: PatternElement, n: nat) -> Seq<char> {
    if n == 0 {
        name_or_blank(opt_text(element.node.alias))
    } else {
        name_or_blank(opt_text(element.edges@[n - 1].node.alias))
    }
}

/// A plan with the first `n` steps of a path.
pub open spec fn with_steps(p: Plan, element: PatternElement, rows: u64, n: nat) -> Plan
    decreases n,
{
    if n == 0 {
        p
    } else {
        stepped(
            with_steps(p, element, rows, (n - 1) as nat),
            reached(element, (n - 1) as nat),
            element.edges@[n - 1],
            rows,
        )
    }
}

/// The plan of a path: the scan of its first vertex, tests of its properties, then the steps.
pub open spec fn element_plan(
    element: PatternElement,
    condition: Option<Expr>,
    stats: PlanStats,
    hints: Seq<IndexHint>,
) -> Plan {
    let scan = node_scan(element.node, condition, stats, hints);
    let tested = match element.node.alias {
        Some(alias) => with_properties(scan, alias@, element.node.properties@, element.node.properties@.len()),
        None => scan,
    };
    with_steps(tested, element, node_rows(element.node, stats), element.edges@.len())
}

fn plan_element(element: &PatternElement, where_clause: &Option<Expression>, stats: &PlanStats, hints: &Vec<IndexHint>) -> (r:
    LogicalPlan)
    ensures
        r@ == element_plan(*element, opt_expr(*where_clause), *stats, hints@),
{
    let node_card: u64 = node_cardinality(&element.node, stats);
    let mut scan = plan_node(&element.node, where_clause, stats, hints);
    if let Some(alias) = &element.node.alias {
        scan = add_property_filters(scan, alias, &element.node.properties);
    }
    let ghost start = scan@;
    let mut from = name_or_underscore(&element.node.alias);
    let mut i: usize = 0;
    while i < element.edges.len()
        invariant
            i <= element.edges@.len(),
            from@ == reached(*element, i as nat),
            scan@ == with_steps(start, *element, node_card, i as nat),
        decreases element.edges@.len() - i,
    {
        scan = add_step(scan, &from, &element.edges[i], node_card);
        from = name_or_underscore(&element.edges[i].node.alias);
        i += 1;
    }
    scan
}

/// Two paths of a pattern, joined.
pub open spec fn paths_joined(left: Plan, right: Plan) -> Plan {
    let rows = Quantity::larger(left.cardinality, right.cardinality);
    Plan {
        op: Op::Join(Box::new(left), Box::new(right), JoinKind::NestedLoop),
        cost: PlanCost::of_cpu(Quantity::sum(Quantity::Count(10), rows)),
        cardinality: rows,
    }
}

/// The first `n` paths of a pattern, joined from left to right; `n` is at least one.
pub open spec fn elements_joined(
    elements: Seq<PatternElement>,
    condition: Option<Expr>,
    stats: PlanStats,
    hints: Seq<IndexHint>,
    n: nat,
) -> Plan
    decreases n,
{
    let last = element_plan(elements[n - 1], condition, stats, hints);
    if n <= 1 {
        last
    } else {
        paths_joined(elements_joined(elements, condition, stats, hints, (n - 1) as nat), last)
    }
}

/// The plan of a `MATCH` clause: its paths joined, then filtered by its condition.
pub open spec fn match_plan(
    pattern: MatchPattern,
    condition: Option<Expr>,
    stats: PlanStats,
    hints: Seq<IndexHint>,
) -> Plan {
    let n = pattern.elements@.len();
    let joined = if n == 0 {
        leaf_of(Op::AllScan(None), Quantity::Count(stats.vertex_count))
    } else {
        elements_joined(pattern.elements@, condition, stats, hints, n)
    };
    match condition {
        Some(wc) => filtered(joined, wc, Quantity::decimal(3, 1)),
        None => joined,
    }
}

/// Plans a `MATCH` clause.
pub fn plan_match(
    pattern: &MatchPattern,
    where_clause: &Option<Expression>,
    stats: &PlanStats,
    index_hints: &Vec<IndexHint>,
) -> (r: LogicalPlan)
    ensures
        r@ == match_plan(*pattern, opt_expr(*where_clause), *stats, index_hints@),
{
    let mut plan = if pattern.elements.len() == 0 {
        leaf(LogicalOp::AllScan { alias: None }, Quantity::Count(stats.vertex_count))
    } else {
        let mut joined = plan_element(&pattern.elements[0], where_clause, stats, index_hints);
        let mut i: usize = 1;
        while i < pattern.elements.len()
            invariant
                1 <= i <= pattern.elements@.len(),
                joined@ == elements_joined(
                    pattern.elements@,
                    opt_expr(*where_clause),
                    *stats,
                    index_hints@,
                    i as nat,
                ),
            decreases pattern.elements@.len() - i,
        {
            let right = plan_element(&pattern.elements[i], where_clause, stats, index_hints);
            let join_card = joined.cardinality.clone().at_least(right.cardinality.clone());
            joined =
            LogicalPlan {
                op: LogicalOp::Join {
                    left: Box::new(joined),
                    right: Box::new(right),
                    join_type: JoinType::NestedLoop,
                },
                cost: PlanCost::cpu_only(Quantity::Count(10).plus(join_card.clone())),
                cardinality: join_card,
            };
            i += 1;
        }
        joined
    };
    if let Some(wc) = where_clause {
        plan = add_filter(plan, wc.clone(), Quantity::from_decimal(3, 1));
    }
    plan
}

/// The plans that create the first vertices of the first `n` paths.
pub open spec fn create_leaves(elements: Seq<PatternElement>, stats: PlanStats, n: nat) -> Seq<Plan> {
    Seq::new(
        n,
        |i: int|
            leaf_of(
                Op::CreateVertex(elements[i].node.labels@, views(elements[i].node.properties@)),
                Quantity::Count(stats.vertex_count),
            ),
    )
}

fn plan_create(pattern: &MatchPattern, stats: &PlanStats) -> (r: LogicalPlan)
    ensures
        r@ == chained(create_leaves(pattern.elements@, *stats, pattern.elements@.len())),
{
    let mut current: Option<LogicalPlan> = None;
    let mut i: usize = 0;
    while i < pattern.elements.len()
        invariant
            i <= pattern.elements@.len(),
            current is None <==> i == 0,
            current matches Some(p) ==> p@ == chained(create_leaves(pattern.elements@, *stats, i as nat)),
        decreases pattern.elements@.len() - i,
    {
        let node = &pattern.elements[i].node;
        let next = leaf(
            LogicalOp::CreateVertex { labels: clone_labels(&node.labels), properties: clone_entries(&node.properties) },
            Quantity::Count(stats.vertex_count),
        );
        proof {
            let s = create_leaves(pattern.elements@, *stats, (i + 1) as nat);
            assert(s.drop_last() =~= create_leaves(pattern.elements@, *stats, i as nat));
            assert(s.last() == next@);
        }
        current = Some(extend(current, next));
        i += 1;
    }
    match current {
        Some(p) => p,
        None => blank(),
    }
}

/// The plans of the property assignments among the first `n` assignments.
pub open spec fn set_leaves(items: Seq<SetItem>, n: nat) -> Seq<Plan>
    decreases n,
{
    if n == 0 {
        Seq::empty()
    } else {
        let before = set_leaves(items, (n - 1) as nat);
        match items[n - 1] {
            SetItem::Property { key, value } => before.push(leaf_of(Op::SetProperty(key, value@), Quantity::Count(1))),
            SetItem::Other => before,
        }
    }
}

fn plan_set(items: &Vec<SetItem>) -> (r: LogicalPlan)
    ensures
        r@ == chained(set_leaves(items@, items@.len())),
{
    let mut current: Option<LogicalPlan> = None;
    let mut i: usize = 0;
    while i < items.len()
        invariant
            i <= items@.len(),
            current is None <==> set_leaves(items@, i as nat).len() == 0,
            current matches Some(p) ==> p@ == chained(set_leaves(items@, i as nat)),
        decreases items@.len() - i,
    {
        if let SetItem::Property { key, value } = &items[i] {
            let next = leaf(LogicalOp::SetProperty { key: *key, value: value.clone() }, Quantity::Count(1));
            proof {
                let s = set_leaves(items@, (i + 1) as nat);
                assert(s.drop_last() =~= set_leaves(items@, i as nat));
                assert(s.last() == next@);
            }
            current = Some(extend(current, next));
        }
        i += 1;
    }
    match current {
        Some(p) => p,
        None => blank(),
    }
}

/// The plan of a `RETURN` clause: the items are produced as they are, unless one of them
/// aggregates; then the others are what is grouped by.
pub open spec fn return_plan(items: Seq<NamedExpr>, all: bool) -> Plan {
    let is_agg = |item: NamedExpr| aggregating(item.expression);
    if all || items.filter(is_agg).len() == 0 {
        leaf_of(Op::Produce(items), Quantity::Count(1))
    } else {
        leaf_of(
            Op::Aggregate(items.filter(|item: NamedExpr| !aggregating(item.expression)), items.filter(is_agg)),
            Quantity::Count(1),
        )
    }
}

fn plan_return(items: &Vec<ReturnItem>, all: bool) -> (r: LogicalPlan)
    ensures
        r@ == return_plan(views(items@), all),
{
    let ghost yes = |item: NamedExpr| aggregating(item.expression);
    let ghost no = |item: NamedExpr| !aggregating(item.expression);
    let ghost model = views(items@);
    let mut group_by: Vec<ReturnItem> = Vec::new();
    let mut aggregates: Vec<ReturnItem> = Vec::new();
    let mut i: usize = 0;
    proof {
        reveal(Seq::filter);
        assert(views(group_by@) =~= model.take(0).filter(no));
        assert(views(aggregates@) =~= model.take(0).filter(yes));
    }
    while i < items.len()
        invariant
            i <= items@.len(),
            model == views(items@),
            yes == (|item: NamedExpr| aggregating(item.expression)),
            no == (|item: NamedExpr| !aggregating(item.expression)),
            views(group_by@) == model.take(i as int).filter(no),
            views(aggregates@) == model.take(i as int).filter(yes),
        decreases items@.len() - i,
    {
        let item = items[i].clone();
        let aggregate = is_aggregate(&items[i].expression);
        proof {
            reveal(Seq::filter);
            assert(model.take(i + 1).drop_last() =~= model.take(i as int));
            assert(model.take(i + 1).last() == item@);
            assert(views(group_by@).push(item@) =~= views(group_by@.push(item)));
            assert(views(aggregates@).push(item@) =~= views(aggregates@.push(item)));
        }
        if aggregate {
            aggregates.push(item);
        } else {
            group_by.push(item);
        }
        i += 1;
    }
    assert(model.take(i as int) =~= model);
    if all || aggregates.len() == 0 {
        leaf(LogicalOp::Produce { items: clone_items(items) }, Quantity::Count(1))
    } else {
        leaf(LogicalOp::Aggregate { group_by, aggregates }, Quantity::Count(1))
    }
}

/// The number of rows that the plan so far gives, or one.
pub open spec fn rows_so_far(current: Option<Plan>) -> Quantity {
    match current {
        Some(p) => p.cardinality,
        None => Quantity::Count(1),
    }
}

fn current_rows(current: &Option<LogicalPlan>) -> (r: Quantity)
    ensures
        r == rows_so_far(opt_plan(*current)),
{
    match current {
        Some(p) => p.cardinality.clone(),
        None => Quantity::Count(1),
    }
}

/// The plan of a `WITH` clause: a projection, then a filter where there is a condition.
pub open spec fn with_plan(items: Seq<NamedExpr>, condition: Option<Expr>, rows: Quantity) -> Plan {
    let projected = leaf_of(Op::Project(items.map_values(|item: NamedExpr| item.expression)), rows);
    match condition {
        Some(e) => filtered(projected, e, Quantity::decimal(3, 1)),
        None => projected,
    }
}

fn plan_with(items: &Vec<ReturnItem>, where_clause: &Option<Expression>, rows: Quantity) -> (r: LogicalPlan)
    ensures
        r@ == with_plan(views(items@), opt_expr(*where_clause), rows),
{
    let mut expressions: Vec<Expression> = Vec::new();
    let mut i: usize = 0;
    while i < items.len()
        invariant
            i <= items@.len(),
            expressions@.len() == i,
            forall|j: int| 0 <= j < i ==> (#[trigger] expressions@[j])@ == items@[j].expression@,
        decreases items@.len() - i,
    {
        expressions.push(items[i].expression.clone());
        i += 1;
    }
    assert(views(expressions@) =~= views(items@).map_values(|item: NamedExpr| item.expression));
    let mut plan = leaf(LogicalOp::Project { expressions }, rows);
    if let Some(e) = where_clause {
        plan = add_filter(plan, e.clone(), Quantity::from_decimal(3, 1));
    }
    plan
}

/// What a clause adds to the plan so far; nothing, for an offset or a limit that is no literal
/// integer and for clauses that the planner does not know.
pub open spec fn clause_plan(clause: Clause, current: Option<Plan>, stats: PlanStats, hints: Seq<IndexHint>) -> Option<
    Plan,
> {
    match clause {
        Clause::Match { pattern, where_clause } => Some(match_plan(pattern, opt_expr(where_clause), stats, hints)),
        Clause::Create { pattern } => Some(chained(create_leaves(pattern.elements@, stats, pattern.elements@.len()))),
        Clause::Return { items, distinct, all } => Some(return_plan(views(items@), all)),
        Clause::With { items, where_clause } => Some(
            with_plan(views(items@), opt_expr(where_clause), rows_so_far(current)),
        ),
        Clause::SetProperties { items } => Some(chained(set_leaves(items@, items@.len()))),
        Clause::Delete { expressions, detach } => Some(
            leaf_of(Op::Delete(views(expressions@), detach), Quantity::Count(1)),
        ),
        Clause::OrderBy { items } => Some(leaf_of(Op::Sort(views(items@)), rows_so_far(current))),
        Clause::Skip { count } => match count {
            Expression::Int(n) => Some(leaf_of(Op::Skip(n as usize), Quantity::Count(1))),
            _ => None,
        },
        Clause::Limit { count } => match count {
            Expression::Int(n) => Some(leaf_of(Op::Limit(n as usize), Quantity::Count(1))),
            _ => None,
        },
        Clause::Unwind { expression, alias } => Some(leaf_of(Op::Unwind(expression@, alias@), Quantity::Count(10))),
        Clause::Other => None,
    }
}

fn plan_clause(clause: &Clause, current: &Option<LogicalPlan>, stats: &PlanStats, index_hints: &Vec<IndexHint>) -> (r: Option<
    LogicalPlan,
>)
    ensures
        opt_plan(r) == clause_plan(*clause, opt_plan(*current), *stats, index_hints@),
{
    match clause {
        Clause::Match { pattern, where_clause } => Some(plan_match(pattern, where_clause, stats, index_hints)),
        Clause::Create { pattern } => Some(plan_create(pattern, stats)),
        Clause::Return { items, all, .. } => Some(plan_return(items, *all)),
        Clause::With { items, where_clause } => Some(plan_with(items, where_clause, current_rows(current))),
        Clause::SetProperties { items } => Some(plan_set(items)),
        Clause::Delete { expressions, detach } => Some(
            leaf(LogicalOp::Delete { expressions: clone_exprs(expressions), detach: *detach }, Quantity::Count(1)),
        ),
        Clause::OrderBy { items } => Some(leaf(LogicalOp::Sort { key: clone_keys(items) }, current_rows(current))),
        Clause::Skip { count } => match count {
            Expression::Int(n) => Some(
                leaf(LogicalOp::Skip { count: #[verifier::truncate] (*n as usize) }, Quantity::Count(1)),
            ),
            _ => None,
        },
        Clause::Limit { count } => match count {
            Expression::Int(n) => Some(
                leaf(LogicalOp::Limit { count: #[verifier::truncate] (*n as usize) }, Quantity::Count(1)),
            ),
            _ => None,
        },
        Clause::Unwind { expression, alias } => Some(
            leaf(LogicalOp::Unwind { expr: expression.clone(), alias: alias.clone() }, Quantity::Count(10)),
        ),
        Clause::Other => None,
    }
}

/// The plan of the first `n` clauses, chained from left to right.
pub open spec fn clauses_plan(query: Query, stats: PlanStats, n: nat) -> Option<Plan>
    decreases n,
{
    if n == 0 {
        None
    } else {
        let before = clauses_plan(query, stats, (n - 1) as nat);
        match clause_plan(query.clauses@[n - 1], before, stats, query.index_hints@) {
            Some(next) => Some(extended(before, next)),
            None => before,
        }
    }
}

/// The logical plan of a query.
pub open spec fn query_plan(query: Query, stats: PlanStats) -> Plan {
    match clauses_plan(query, stats, query.clauses@.len()) {
        Some(p) => p,
        None => blank_plan(),
    }
}

/// Makes the logical plan of a query, clause by clause.
pub fn ast_to_logical(query: &Query, stats: &PlanStats) -> (r: LogicalPlan)
    ensures
        r@ == query_plan(*query, *stats),
{
    let mut current: Option<LogicalPlan> = None;
    let mut i: usize = 0;
    while i < query.clauses.len()
        invariant
            i <= query.clauses@.len(),
            opt_plan(current) == clauses_plan(*query, *stats, i as nat),
        decreases query.clauses@.len() - i,
    {
        if let Some(next) = plan_clause(&query.clauses[i], &current, stats, &query.index_hints) {
            current = Some(extend(current, next));
        }
        i += 1;
    }
    match current {
        Some(p) => p,
        None => blank(),
    }
}

} // verus!
