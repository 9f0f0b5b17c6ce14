//! Plans as lists of nodes, the form in which equality saturation rewrites them.
use std::collections::hash_map::DefaultHasher;
use std::hash::Hasher;

use vstd::bytes::{spec_u64_to_le_bytes, u64_to_le_bytes};
use vstd::prelude::*;
use vstd::std_specs::hash::DefaultHasherAdditionalSpecFns;
use vstd::utf8::encode_utf8;

use crate::planner::cost::CostModel;
use crate::planner::expression::{BinaryOp, Expr, Expression};
use crate::planner::ids::{EdgeTypeId, LabelId, PropertyId};
use crate::planner::logical::{JoinKind, JoinType, LogicalOp, LogicalPlan, Op, Plan, PlanCost};
use crate::planner::physical::{convertible, is_convertible, physical_form, physical_plan_from_logical, PhysicalPlan};
use crate::planner::query::{opt_text, views, Direction, OrderByItem, ReturnItem};
use crate::planner::stats::CatalogStats;
use crate::planner::value::{PropertyValue, Value};
use crate::quantity::{bits_of, compared, decides, reads, Compared, Quantity};

verus! {

/// A node of a plan. Its inputs are named by their positions in the list.
#[derive(Debug)]
pub enum PlanLang {
    AllScan,
    /// A scan of a label: the label, the alias.
    LabelScan(usize, usize),
    /// A scan of an index: the label, the property, the value, the alias.
    LabelPropScan(usize, usize, usize, usize),
    /// A filter: the condition, the input.
    Filter(usize, usize),
    /// A projection: the expressions, the input.
    Project(usize, usize),
    /// A sort: the keys, the input.
    Sort(usize, usize),
    /// A limit: the count, the input.
    Limit(usize, usize),
    /// An offset: the count, the input.
    SkipOp(usize, usize),
    /// A join: the left input, the right input, the kind of join.
    Join(usize, usize, usize),
    NestedLoop,
    /// A hash join: the left key, the right key.
    HashJoin(usize, usize),
    /// An expansion along edges: the direction, the edge type, the input.
    EdgeExpand(usize, usize, usize),
    /// An aggregation: the number of groupings, the number of aggregates, the input.
    Aggregate(usize, usize, usize),
    /// A deduplication: the input.
    Distinct(usize),
    /// A union: the left input, the right input, whether repeated rows are kept.
    Union(usize, usize, usize),
    DirLeft,
    DirRight,
    DirEither,
    /// A conjunction of two conditions.
    And(usize, usize),
    True,
    Num(i64),
    Symbol(String),
}

/// The model of a node.
pub enum Node {
    AllScan,
    LabelScan(nat, nat),
    LabelPropScan(nat, nat, nat, nat),
    Filter(nat, nat),
    Project(nat, nat),
    Sort(nat, nat),
    Limit(nat, nat),
    SkipOp(nat, nat),
    Join(nat, nat, nat),
    NestedLoop,
    HashJoin(nat, nat),
    EdgeExpand(nat, nat, nat),
    Aggregate(nat, nat, nat),
    Distinct(nat),
    Union(nat, nat, nat),
    DirLeft,
    DirRight,
    DirEither,
    And(nat, nat),
    True,
    Num(i64),
    Symbol(Seq<char>),
}

impl View for PlanLang {
    type V = Node;

    open spec fn view(&self) -> Node {
        match *self {
            PlanLang::AllScan => Node::AllScan,
            PlanLang::LabelScan(a, b) => Node::LabelScan(a as nat, b as nat),
            PlanLang::LabelPropScan(a, b, c, d) => Node::LabelPropScan(a as nat, b as nat, c as nat, d as nat),
            PlanLang::Filter(a, b) => Node::Filter(a as nat, b as nat),
            PlanLang::Project(a, b) => Node::Project(a as nat, b as nat),
            PlanLang::Sort(a, b) => Node::Sort(a as nat, b as nat),
            PlanLang::Limit(a, b) => Node::Limit(a as nat, b as nat),
            PlanLang::SkipOp(a, b) => Node::SkipOp(a as nat, b as nat),
            PlanLang::Join(a, b, c) => Node::Join(a as nat, b as nat, c as nat),
            PlanLang::NestedLoop => Node::NestedLoop,
            PlanLang::HashJoin(a, b) => Node::HashJoin(a as nat, b as nat),
            PlanLang::EdgeExpand(a, b, c) => Node::EdgeExpand(a as nat, b as nat, c as nat),
            PlanLang::Aggregate(a, b, c) => Node::Aggregate(a as nat, b as nat, c as nat),
            PlanLang::Distinct(a) => Node::Distinct(a as nat),
            PlanLang::Union(a, b, c) => Node::Union(a as nat, b as nat, c as nat),
            PlanLang::DirLeft => Node::DirLeft,
            PlanLang::DirRight => Node::DirRight,
            PlanLang::DirEither => Node::DirEither,
            PlanLang::And(a, b) => Node::And(a as nat, b as nat),
            PlanLang::True => Node::True,
            PlanLang::Num(n) => Node::Num(n),
            PlanLang::Symbol(s) => Node::Symbol(s@),
        }
    }
}

/// The inputs of a node.
pub open spec fn inputs(node: Node) -> Seq<nat> {
    match node {
        Node::LabelScan(a, b) => seq![a, b],
        Node::LabelPropScan(a, b, c, d) => seq![a, b, c, d],
        Node::Filter(a, b) => seq![a, b],
        Node::Project(a, b) => seq![a, b],
        Node::Sort(a, b) => seq![a, b],
        Node::Limit(a, b) => seq![a, b],
        Node::SkipOp(a, b) => seq![a, b],
        Node::Join(a, b, c) => seq![a, b, c],
        Node::HashJoin(a, b) => seq![a, b],
        Node::EdgeExpand(a, b, c) => seq![a, b, c],
        Node::Aggregate(a, b, c) => seq![a, b, c],
        Node::Distinct(a) => seq![a],
        Node::Union(a, b, c) => seq![a, b, c],
        Node::And(a, b) => seq![a, b],
        _ => Seq::empty(),
    }
}

/// Whether the inputs of a node stand before a position.
pub open spec fn inputs_before(node: Node, id: nat) -> bool {
    match node {
        Node::LabelScan(a, b) => a < id && b < id,
        Node::LabelPropScan(a, b, c, d) => a < id && b < id && c < id && d < id,
        Node::Filter(a, b) => a < id && b < id,
        Node::Project(a, b) => a < id && b < id,
        Node::Sort(a, b) => a < id && b < id,
        Node::Limit(a, b) => a < id && b < id,
        Node::SkipOp(a, b) => a < id && b < id,
        Node::Join(a, b, c) => a < id && b < id && c < id,
        Node::HashJoin(a, b) => a < id && b < id,
        Node::EdgeExpand(a, b, c) => a < id && b < id && c < id,
        Node::Aggregate(a, b, c) => a < id && b < id && c < id,
        Node::Distinct(a) => a < id,
        Node::Union(a, b, c) => a < id && b < id && c < id,
        Node::And(a, b) => a < id && b < id,
        _ => true,
    }
}

/// Whether every node of a list stands behind its inputs.
pub open spec fn ordered(nodes: Seq<Node>) -> bool {
    forall|i: int| 0 <= i < nodes.len() ==> inputs_before(#[trigger] nodes[i], i as nat)
}

/// The number that stands for the type of a value.
pub open spec fn type_tag(v: Value) -> u8 {
    match v {
        Value::Null => 0,
        Value::Bool(_) => 1,
        Value::Int(_) => 2,
        Value::Double(_) => 3,
        Value::Text(_) => 4,
        Value::Other(tag, _) => tag,
    }
}

/// The bytes that a value is hashed by: its tag, then what it holds.
pub open spec fn hashed_bytes<B: Fn(&Quantity) -> u64>(v: Value, bits: B) -> Seq<Seq<u8>> {
    let tag = seq![seq![type_tag(v)]];
    match v {
        Value::Null => tag,
        Value::Bool(b) => tag.push(seq![if b { 1u8 } else { 0u8 }]),
        Value::Int(n) => tag.push(spec_u64_to_le_bytes(n as u64)),
        Value::Double(q) => tag.push(spec_u64_to_le_bytes(bits_of(bits, q))),
        Value::Text(s) => tag.push(encode_utf8(s)),
        Value::Other(_, text) => tag.push(encode_utf8(text)),
    }
}

/// The hash of a value.
pub open spec fn hash_of_value<B: Fn(&Quantity) -> u64>(v: Value, bits: B) -> u64 {
    DefaultHasher::spec_finish(hashed_bytes(v, bits))
}

fn write_byte(hasher: &mut DefaultHasher, b: u8)
    ensures
        final(hasher)@ == old(hasher)@.push(seq![b]),
{
    let mut v: Vec<u8> = Vec::new();
    v.push(b);
    assert(v@ =~= seq![b]);
    hasher.write(v.as_slice());
}

/// Hashes a value by its tag and what it holds.
pub fn value_hash<B: Fn(&Quantity) -> u64>(value: &PropertyValue, bits: &B) -> (r: u64)
    requires
        reads(*bits),
    ensures
        r == hash_of_value(value@, *bits),
{
    let mut hasher = DefaultHasher::new();
    match value {
        PropertyValue::Null => {
            write_byte(&mut hasher, 0);
        },
        PropertyValue::Bool(b) => {
            write_byte(&mut hasher, 1);
            write_byte(&mut hasher, if *b { 1 } else { 0 });
        },
        PropertyValue::Int(n) => {
            write_byte(&mut hasher, 2);
            let v = u64_to_le_bytes(#[verifier::truncate] (*n as u64));
            hasher.write(v.as_slice());
        },
        PropertyValue::Double(q) => {
            write_byte(&mut hasher, 3);
            let b: u64 = bits(q);
            let v = u64_to_le_bytes(b);
            hasher.write(v.as_slice());
        },
        PropertyValue::String(s) => {
            write_byte(&mut hasher, 4);
            hasher.write(s.as_str().as_bytes());
        },
        PropertyValue::Other { tag, text } => {
            write_byte(&mut hasher, *tag);
            hasher.write(text.as_str().as_bytes());
        },
    }
    assert(hasher@ =~= hashed_bytes(value@, *bits));
    hasher.finish()
}

/// The node of an optional alias.
pub open spec fn alias_node(alias: Option<Seq<char>>) -> Node {
    match alias {
        Some(s) => Node::Symbol(s),
        None => Node::Num(0),
    }
}

/// The node of a direction.
pub open spec fn direction_node(direction: Direction) -> Node {
    match direction {
        Direction::Left => Node::DirLeft,
        Direction::Right => Node::DirRight,
        Direction::Either => Node::DirEither,
    }
}

/// The node of an optional edge type.
pub open spec fn edge_type_node(edge_type: Option<EdgeTypeId>) -> Node {
    match edge_type {
        Some(t) => Node::Num(t.id as i64),
        None => Node::Num(-1i64),
    }
}

/// The conditions that a condition joins by conjunction, but for constants, from left to right. A list
/// of nodes names them by their places in the list of all such conditions, counted from one.
pub open spec fn leaves(e: Expr) -> Seq<Expr>
    decreases e,
{
    match e {
        Expr::Binary(BinaryOp::And, lhs, rhs) => leaves(*lhs) + leaves(*rhs),
        Expr::Bool(_) => Seq::empty(),
        _ => seq![e],
    }
}

/// The conditions that the filters of a plan are made of, from left to right.
pub open spec fn plan_leaves(p: Plan) -> Seq<Expr>
    decreases p,
{
    match p.op {
        Op::Filter(condition) => leaves(condition),
        Op::Join(left, right, _) => plan_leaves(*left) + plan_leaves(*right),
        Op::Union(left, right, _) => plan_leaves(*left) + plan_leaves(*right),
        _ => Seq::empty(),
    }
}

/// The nodes of a condition, when the list has `base` nodes and `known` conditions are named already.
/// A conjunction and a constant have nodes of their own; any other condition is named by its place.
pub open spec fn condition_nodes(e: Expr, base: nat, known: nat) -> Seq<Node>
    decreases e,
{
    match e {
        Expr::Binary(BinaryOp::And, lhs, rhs) => {
            let l = condition_nodes(*lhs, base, known);
            let r = condition_nodes(*rhs, base + l.len(), known + leaves(*lhs).len());
            (l + r).push(Node::And((base + l.len() - 1) as nat, (base + l.len() + r.len() - 1) as nat))
        },
        Expr::Bool(b) => seq![
            if b {
                Node::True
            } else {
                Node::Num(0)
            },
        ],
        _ => seq![Node::Num((known + 1) as i64)],
    }
}

/// The nodes of a join type, when the list has `base` nodes already.
pub open spec fn join_nodes(kind: JoinKind, base: nat) -> Seq<Node> {
    match kind {
        JoinKind::NestedLoop => seq![Node::NestedLoop],
        JoinKind::HashJoin(l, r) => seq![Node::Symbol(l), Node::Symbol(r), Node::HashJoin(base, base + 1)],
    }
}

/// The nodes of a plan, when the list has `base` nodes and `known` conditions are named already. Operators with one input that do
/// not hold it stand on a scan of all vertices; operators that the rewriting does not know are
/// replaced by such a scan.
pub open spec fn plan_nodes<B: Fn(&Quantity) -> u64>(p: Plan, base: nat, known: nat, bits: B) -> Seq<Node>
    decreases p,
{
    match p.op {
        Op::LabelScan(alias, label) => seq![
            alias_node(alias),
            Node::Num(label.id as i64),
            Node::LabelScan(base + 1, base),
        ],
        Op::LabelPropertyScan(alias, label, property, value) => seq![
            alias_node(alias),
            Node::Num(label.id as i64),
            Node::Num(property.id as i64),
            Node::Num(hash_of_value(value, bits) as i64),
            Node::LabelPropScan(base + 1, base + 2, base + 3, base),
        ],
        Op::Filter(condition) => {
            let c = condition_nodes(condition, base, known);
            c.push(Node::AllScan).push(Node::Filter((base + c.len() - 1) as nat, base + c.len()))
        },
        Op::Join(left, right, kind) => {
            let l = plan_nodes(*left, base, known, bits);
            let r = plan_nodes(*right, base + l.len(), known + plan_leaves(*left).len(), bits);
            let t = join_nodes(kind, base + l.len() + r.len());
            (l + r + t).push(
                Node::Join(
                    (base + l.len() - 1) as nat,
                    (base + l.len() + r.len() - 1) as nat,
                    (base + l.len() + r.len() + t.len() - 1) as nat,
                ),
            )
        },
        Op::Sort(key) => seq![Node::AllScan, Node::Num(key.len() as i64), Node::Sort(base + 1, base)],
        Op::Limit(count) => seq![Node::AllScan, Node::Num(count as i64), Node::Limit(base + 1, base)],
        Op::Skip(count) => seq![Node::AllScan, Node::Num(count as i64), Node::SkipOp(base + 1, base)],
        Op::EdgeExpand { from_alias, edge_alias, to_alias, direction, edge_type } => seq![
            direction_node(direction),
            edge_type_node(edge_type),
            Node::AllScan,
            Node::EdgeExpand(base, base + 1, base + 2),
        ],
        Op::Aggregate(group_by, aggregates) => seq![
            Node::AllScan,
            Node::Num(group_by.len() as i64),
            Node::Num(aggregates.len() as i64),
            Node::Aggregate(base + 1, base + 2, base),
        ],
        Op::Distinct => seq![Node::AllScan, Node::Distinct(base)],
        Op::Union(left, right, all) => {
            let l = plan_nodes(*left, base, known, bits);
            let r = plan_nodes(*right, base + l.len(), known + plan_leaves(*left).len(), bits);
            (l + r).push(
                Node::Num(
                    if all {
                        1
                    } else {
                        0
                    },
                ),
            ).push(
                Node::Union(
                    (base + l.len() - 1) as nat,
                    (base + l.len() + r.len() - 1) as nat,
                    base + l.len() + r.len(),
                ),
            )
        },
        _ => seq![Node::AllScan],
    }
}

/// Appends a node; the result is its position.
fn append(nodes: &mut Vec<PlanLang>, node: PlanLang) -> (id: usize)
    ensures
        id == old(nodes)@.len(),
        final(nodes)@ == old(nodes)@.push(node),
        views(final(nodes)@) == views(old(nodes)@).push(node@),
{
    let id: usize = nodes.len();
    nodes.push(node);
    assert(views(nodes@) =~= views(old(nodes)@).push(node@));
    id
}

fn append_alias(nodes: &mut Vec<PlanLang>, alias: &Option<String>) -> (id: usize)
    ensures
        id == old(nodes)@.len(),
        views(final(nodes)@) == views(old(nodes)@).push(alias_node(opt_text(*alias))),
{
    match alias {
        Some(s) => append(nodes, PlanLang::Symbol(s.clone())),
        None => append(nodes, PlanLang::Num(0)),
    }
}

/// Appends the nodes of a condition, and the conditions that they name; the result is the position of
/// the last node.
pub fn expr_to_id(expr: &Expression, nodes: &mut Vec<PlanLang>, conditions: &mut Vec<Expression>) -> (id: usize)
    ensures
        views(final(nodes)@) == views(old(nodes)@) + condition_nodes(expr@, old(nodes)@.len(), old(conditions)@.len()),
        views(final(conditions)@) == views(old(conditions)@) + leaves(expr@),
        id == final(nodes)@.len() - 1,
        final(nodes)@.len() == old(nodes)@.len() + condition_nodes(expr@, old(nodes)@.len(), old(conditions)@.len()).len(),
        final(conditions)@.len() == old(conditions)@.len() + leaves(expr@).len(),
    decreases expr,
{
    let ghost before = views(nodes@);
    let ghost base = nodes@.len();
    let ghost earlier = views(conditions@);
    let ghost known = conditions@.len();
    if let Expression::Binary(BinaryOp::And, lhs, rhs) = expr {
        let l: usize = expr_to_id(lhs, nodes, conditions);
        let r: usize = expr_to_id(rhs, nodes, conditions);
        let id: usize = append(nodes, PlanLang::And(l, r));
        assert(views(nodes@) =~= before + condition_nodes(expr@, base, known));
        assert(views(conditions@) =~= earlier + leaves(expr@));
        return id;
    }
    let id: usize = match expr {
        Expression::Bool(b) => if *b {
            append(nodes, PlanLang::True)
        } else {
            append(nodes, PlanLang::Num(0))
        },
        _ => {
            conditions.push(expr.clone());
            append(nodes, PlanLang::Num(#[verifier::truncate] (conditions.len() as i64)))
        },
    };
    assert(views(nodes@) =~= before + condition_nodes(expr@, base, known));
    assert(views(conditions@) =~= earlier + leaves(expr@));
    id
}

fn join_type_to_id(join_type: &JoinType, nodes: &mut Vec<PlanLang>) -> (id: usize)
    ensures
        views(final(nodes)@) == views(old(nodes)@) + join_nodes(join_type@, old(nodes)@.len()),
        id == final(nodes)@.len() - 1,
        final(nodes)@.len() == old(nodes)@.len() + join_nodes(join_type@, old(nodes)@.len()).len(),
{
    let ghost before = views(nodes@);
    let ghost base = nodes@.len();
    let id: usize = match join_type {
        JoinType::NestedLoop => append(nodes, PlanLang::NestedLoop),
        JoinType::HashJoin { left_key, right_key } => {
            let lk: usize = append(nodes, PlanLang::Symbol(left_key.clone()));
            let rk: usize = append(nodes, PlanLang::Symbol(right_key.clone()));
            append(nodes, PlanLang::HashJoin(lk, rk))
        },
    };
    assert(views(nodes@) =~= before + join_nodes(join_type@, base));
    id
}

/// Appends the nodes of a plan, and the conditions that they name; the result is the position of the
/// last node.
#[verifier::rlimit(40)]
pub fn plan_to_id<B: Fn(&Quantity) -> u64>(
    plan: &LogicalPlan,
    nodes: &mut Vec<PlanLang>,
    conditions: &mut Vec<Expression>,
    bits: &B,
) -> (id: usize)
    requires
        reads(*bits),
    ensures
        views(final(nodes)@) == views(old(nodes)@) + plan_nodes(plan@, old(nodes)@.len(), old(conditions)@.len(), *bits),
        views(final(conditions)@) == views(old(conditions)@) + plan_leaves(plan@),
        id == final(nodes)@.len() - 1,
        final(nodes)@.len() == old(nodes)@.len() + plan_nodes(plan@, old(nodes)@.len(), old(conditions)@.len(), *bits).len(),
        final(conditions)@.len() == old(conditions)@.len() + plan_leaves(plan@).len(),
    decreases plan,
{
    let ghost before = views(nodes@);
    let ghost base = nodes@.len();
    let ghost earlier = views(conditions@);
    let ghost known = conditions@.len();
    let id: usize = match &plan.op {
        LogicalOp::LabelScan { alias, label } => {
            let alias_id: usize = append_alias(nodes, alias);
            let label_id: usize = append(nodes, PlanLang::Num(label.as_uint() as i64));
            append(nodes, PlanLang::LabelScan(label_id, alias_id))
        },
        LogicalOp::LabelPropertyScan { alias, label, property, value } => {
            let alias_id: usize = append_alias(nodes, alias);
            let label_id: usize = append(nodes, PlanLang::Num(label.as_uint() as i64));
            let prop_id: usize = append(nodes, PlanLang::Num(property.as_uint() as i64));
            let hash: u64 = value_hash(value, bits);
            let value_id: usize = append(nodes, PlanLang::Num(#[verifier::truncate] (hash as i64)));
            append(nodes, PlanLang::LabelPropScan(label_id, prop_id, value_id, alias_id))
        },
        LogicalOp::Filter { condition } => {
            let cond_id: usize = expr_to_id(condition, nodes, conditions);
            let child_id: usize = append(nodes, PlanLang::AllScan);
            append(nodes, PlanLang::Filter(cond_id, child_id))
        },
        LogicalOp::Join { left, right, join_type } => {
            let left_id: usize = plan_to_id(left, nodes, conditions, bits);
            let right_id: usize = plan_to_id(right, nodes, conditions, bits);
            let type_id: usize = join_type_to_id(join_type, nodes);
            append(nodes, PlanLang::Join(left_id, right_id, type_id))
        },
        LogicalOp::Sort { key } => {
            let child_id: usize = append(nodes, PlanLang::AllScan);
            let keys_id: usize = append(nodes, PlanLang::Num(#[verifier::truncate] (key.len() as i64)));
            append(nodes, PlanLang::Sort(keys_id, child_id))
        },
        LogicalOp::Limit { count } => {
            let child_id: usize = append(nodes, PlanLang::AllScan);
            let count_id: usize = append(nodes, PlanLang::Num(#[verifier::truncate] (*count as i64)));
            append(nodes, PlanLang::Limit(count_id, child_id))
        },
        LogicalOp::Skip { count } => {
            let child_id: usize = append(nodes, PlanLang::AllScan);
            let count_id: usize = append(nodes, PlanLang::Num(#[verifier::truncate] (*count as i64)));
            append(nodes, PlanLang::SkipOp(count_id, child_id))
        },
        LogicalOp::EdgeExpand { direction, edge_type, .. } => {
            let dir_id: usize = match direction {
                Direction::Left => append(nodes, PlanLang::DirLeft),
                Direction::Right => append(nodes, PlanLang::DirRight),
                Direction::Either => append(nodes, PlanLang::DirEither),
            };
            let et_id: usize = match edge_type {
                Some(t) => append(nodes, PlanLang::Num(t.as_uint() as i64)),
                None => append(nodes, PlanLang::Num(-1)),
            };
            let child_id: usize = append(nodes, PlanLang::AllScan);
            append(nodes, PlanLang::EdgeExpand(dir_id, et_id, child_id))
        },
        LogicalOp::Aggregate { group_by, aggregates } => {
            let child_id: usize = append(nodes, PlanLang::AllScan);
            let gb_id: usize = append(nodes, PlanLang::Num(#[verifier::truncate] (group_by.len() as i64)));
            let agg_id: usize = append(nodes, PlanLang::Num(#[verifier::truncate] (aggregates.len() as i64)));
            append(nodes, PlanLang::Aggregate(gb_id, agg_id, child_id))
        },
        LogicalOp::Distinct => {
            let child_id: usize = append(nodes, PlanLang::AllScan);
            append(nodes, PlanLang::Distinct(child_id))
        },
        LogicalOp::Union { left, right, all } => {
            let left_id: usize = plan_to_id(left, nodes, conditions, bits);
            let right_id: usize = plan_to_id(right, nodes, conditions, bits);
            let all_id: usize = append(
                nodes,
                PlanLang::Num(
                    if *all {
                        1
                    } else {
                        0
                    },
                ),
            );
            append(nodes, PlanLang::Union(left_id, right_id, all_id))
        },
        _ => append(nodes, PlanLang::AllScan),
    };
    assert(views(nodes@) =~= before + plan_nodes(plan@, base, known, *bits));
    assert(views(conditions@) =~= earlier + plan_leaves(plan@));
    id
}

/// The nodes of a plan, and the conditions that they name.
pub fn plan_to_recexpr<B: Fn(&Quantity) -> u64>(plan: &LogicalPlan, bits: &B) -> (r: (Vec<PlanLang>, Vec<Expression>))
    requires
        reads(*bits),
    ensures
        views(r.0@) == plan_nodes(plan@, 0, 0, *bits),
        r.0@.len() > 0,
        views(r.1@) == plan_leaves(plan@),
{
    let mut nodes: Vec<PlanLang> = Vec::new();
    let mut conditions: Vec<Expression> = Vec::new();
    let id: usize = plan_to_id(plan, &mut nodes, &mut conditions, bits);
    assert(views(nodes@) =~= plan_nodes(plan@, 0, 0, *bits));
    assert(views(conditions@) =~= plan_leaves(plan@));
    (nodes, conditions)
}

/// A node read as an unsigned number; anything but a number reads as zero.
pub open spec fn as_unsigned(node: Node) -> u64 {
    match node {
        Node::Num(n) => n as u64,
        _ => 0,
    }
}

/// A node read as a signed number; anything but a number reads as zero.
pub open spec fn as_signed(node: Node) -> i64 {
    match node {
        Node::Num(n) => n,
        _ => 0,
    }
}

/// A node read as a name.
pub open spec fn as_name(node: Node) -> Option<Seq<char>> {
    match node {
        Node::Symbol(s) => Some(s),
        _ => None,
    }
}

/// A name, or the empty text.
pub open spec fn name_or_nothing(o: Option<Seq<char>>) -> Seq<char> {
    match o {
        Some(s) => s,
        None => Seq::empty(),
    }
}

/// A node read as a direction; anything but a direction reads as `Right`.
pub open spec fn as_direction(node: Node) -> Direction {
    match node {
        Node::DirLeft => Direction::Left,
        Node::DirEither => Direction::Either,
        _ => Direction::Right,
    }
}

/// A node read as a join type; anything but a hash join reads as a nested loop.
pub open spec fn as_join_kind(nodes: Seq<Node>, id: nat) -> JoinKind {
    match nodes[id as int] {
        Node::HashJoin(l, r) => JoinKind::HashJoin(
            name_or_nothing(as_name(nodes[l as int])),
            name_or_nothing(as_name(nodes[r as int])),
        ),
        _ => JoinKind::NestedLoop,
    }
}

/// Whether a node and what it is built from read as a condition.
pub open spec fn is_condition(nodes: Seq<Node>, id: nat) -> bool
    decreases id,
        when id < nodes.len() && ordered(nodes)
{
    match nodes[id as int] {
        Node::And(l, r) => is_condition(nodes, l) && is_condition(nodes, r),
        Node::True | Node::Num(_) | Node::Symbol(_) => true,
        _ => false,
    }
}

/// The condition that a node reads as. The number zero reads as false, and the place of one of the
/// named conditions as that condition.
pub open spec fn condition_of(nodes: Seq<Node>, named: Seq<Expr>, id: nat) -> Expr
    decreases id,
        when id < nodes.len() && ordered(nodes)
{
    match nodes[id as int] {
        Node::And(l, r) => Expr::Binary(
            BinaryOp::And,
            Box::new(condition_of(nodes, named, l)),
            Box::new(condition_of(nodes, named, r)),
        ),
        Node::True => Expr::Bool(true),
        Node::Num(n) => if n == 0 {
            Expr::Bool(false)
        } else if 0 < n <= named.len() {
            named[n - 1]
        } else {
            Expr::Int(n)
        },
        Node::Symbol(s) => Expr::Identifier(s),
        _ => Expr::Null,
    }
}

/// Whether the filters of a plan have conditions.
pub open spec fn decodable(nodes: Seq<Node>, id: nat) -> bool
    decreases id,
        when id < nodes.len() && ordered(nodes)
{
    match nodes[id as int] {
        Node::Filter(c, child) => is_condition(nodes, c) && decodable(nodes, child),
        Node::Join(l, r, _) => decodable(nodes, l) && decodable(nodes, r),
        Node::Union(l, r, _) => decodable(nodes, l) && decodable(nodes, r),
        Node::Project(_, child) => decodable(nodes, child),
        Node::Sort(_, child) => decodable(nodes, child),
        Node::Limit(_, child) => decodable(nodes, child),
        Node::SkipOp(_, child) => decodable(nodes, child),
        Node::EdgeExpand(_, _, child) => decodable(nodes, child),
        Node::Aggregate(_, _, child) => decodable(nodes, child),
        Node::Distinct(child) => decodable(nodes, child),
        _ => true,
    }
}

/// An operator that stands for itself alone: only the cost of its input is kept.
pub open spec fn over_input(op: Op, child: Plan, cardinality: Quantity) -> Plan {
    Plan { op, cost: child.cost, cardinality }
}

/// A scan of all vertices, at the estimate that the rewriting uses.
pub open spec fn default_scan() -> Plan {
    Plan { op: Op::AllScan(None), cost: PlanCost::zero(), cardinality: Quantity::Count(10000) }
}

/// The plan that a node reads as. What the nodes do not hold comes back blank: sort keys,
/// projections and groupings are empty, a scanned value is null, an expansion starts at `anon`.
pub open spec fn plan_of(nodes: Seq<Node>, named: Seq<Expr>, id: nat) -> Plan
    decreases id,
        when id < nodes.len() && ordered(nodes)
{
    match nodes[id as int] {
        Node::LabelScan(label, alias) => Plan {
            op: Op::LabelScan(as_name(nodes[alias as int]), LabelId { id: as_unsigned(nodes[label as int]) as u32 }),
            cost: PlanCost::zero(),
            cardinality: Quantity::Count(100),
        },
        Node::LabelPropScan(label, property, _, alias) => Plan {
            op: Op::LabelPropertyScan(
                as_name(nodes[alias as int]),
                LabelId { id: as_unsigned(nodes[label as int]) as u32 },
                PropertyId { id: as_unsigned(nodes[property as int]) as u32 },
                Value::Null,
            ),
            cost: PlanCost::zero(),
            cardinality: Quantity::Count(10),
        },
        Node::Filter(condition, input) => {
            let child = plan_of(nodes, named, input);
            over_input(
                Op::Filter(condition_of(nodes, named, condition)),
                child,
                Quantity::product(child.cardinality, Quantity::decimal(3, 1)),
            )
        },
        Node::Join(l, r, kind) => {
            let left = plan_of(nodes, named, l);
            let right = plan_of(nodes, named, r);
            Plan {
                op: Op::Join(Box::new(left), Box::new(right), as_join_kind(nodes, kind)),
                cost: PlanCost::zero(),
                cardinality: Quantity::larger(left.cardinality, right.cardinality),
            }
        },
        Node::Sort(_, input) => {
            let child = plan_of(nodes, named, input);
            over_input(Op::Sort(Seq::empty()), child, child.cardinality)
        },
        Node::Limit(count, input) => {
            let child = plan_of(nodes, named, input);
            let n = as_unsigned(nodes[count as int]) as usize;
            over_input(Op::Limit(n), child, Quantity::smaller(child.cardinality, Quantity::Count(n as u64)))
        },
        Node::SkipOp(count, input) => {
            let child = plan_of(nodes, named, input);
            over_input(Op::Skip(as_unsigned(nodes[count as int]) as usize), child, child.cardinality)
        },
        Node::EdgeExpand(direction, edge_type, input) => {
            let child = plan_of(nodes, named, input);
            over_input(
                Op::EdgeExpand {
                    from_alias: "anon"@,
                    edge_alias: None,
                    to_alias: None,
                    direction: as_direction(nodes[direction as int]),
                    edge_type: if as_signed(nodes[edge_type as int]) >= 0 {
                        Some(EdgeTypeId { id: as_unsigned(nodes[edge_type as int]) as u32 })
                    } else {
                        None
                    },
                },
                child,
                Quantity::product(child.cardinality, Quantity::Count(5)),
            )
        },
        Node::Project(_, input) => {
            let child = plan_of(nodes, named, input);
            over_input(Op::Project(Seq::empty()), child, child.cardinality)
        },
        Node::Aggregate(_, _, input) => {
            let child = plan_of(nodes, named, input);
            over_input(
                Op::Aggregate(Seq::empty(), Seq::empty()),
                child,
                Quantity::product(child.cardinality, Quantity::decimal(1, 1)),
            )
        },
        Node::Distinct(input) => {
            let child = plan_of(nodes, named, input);
            over_input(Op::Distinct, child, Quantity::product(child.cardinality, Quantity::decimal(5, 1)))
        },
        Node::Union(l, r, all) => {
            let left = plan_of(nodes, named, l);
            let right = plan_of(nodes, named, r);
            Plan {
                op: Op::Union(Box::new(left), Box::new(right), as_unsigned(nodes[all as int]) != 0),
                cost: PlanCost::zero(),
                cardinality: Quantity::sum(left.cardinality, right.cardinality),
            }
        },
        _ => default_scan(),
    }
}

fn node_as_u64(nodes: &Vec<PlanLang>, id: usize) -> (r: u64)
    requires
        id < nodes@.len(),
    ensures
        r == as_unsigned(views(nodes@)[id as int]),
{
    match &nodes[id] {
        PlanLang::Num(n) => #[verifier::truncate] (*n as u64),
        _ => 0,
    }
}

fn node_as_i64(nodes: &Vec<PlanLang>, id: usize) -> (r: i64)
    requires
        id < nodes@.len(),
    ensures
        r == as_signed(views(nodes@)[id as int]),
{
    match &nodes[id] {
        PlanLang::Num(n) => *n,
        _ => 0,
    }
}

fn node_as_symbol(nodes: &Vec<PlanLang>, id: usize) -> (r: Option<String>)
    requires
        id < nodes@.len(),
    ensures
        opt_text(r) == as_name(views(nodes@)[id as int]),
{
    match &nodes[id] {
        PlanLang::Symbol(s) => Some(s.clone()),
        _ => None,
    }
}

fn symbol_or_empty(nodes: &Vec<PlanLang>, id: usize) -> (r: String)
    requires
        id < nodes@.len(),
    ensures
        r@ == name_or_nothing(as_name(views(nodes@)[id as int])),
{
    match node_as_symbol(nodes, id) {
        Some(s) => s,
        None => String::new(),
    }
}

fn node_as_direction(nodes: &Vec<PlanLang>, id: usize) -> (r: Direction)
    requires
        id < nodes@.len(),
    ensures
        r == as_direction(views(nodes@)[id as int]),
{
    match &nodes[id] {
        PlanLang::DirLeft => Direction::Left,
        PlanLang::DirRight => Direction::Right,
        PlanLang::DirEither => Direction::Either,
        _ => Direction::Right,
    }
}

fn node_to_join_type(nodes: &Vec<PlanLang>, id: usize) -> (r: JoinType)
    requires
        id < nodes@.len(),
        ordered(views(nodes@)),
    ensures
        r@ == as_join_kind(views(nodes@), id as nat),
{
    assert(inputs_before(views(nodes@)[id as int], id as nat));
    match &nodes[id] {
        PlanLang::HashJoin(l, r) => JoinType::HashJoin {
            left_key: symbol_or_empty(nodes, *l),
            right_key: symbol_or_empty(nodes, *r),
        },
        _ => JoinType::NestedLoop,
    }
}

/// Reads a node as a condition.
pub fn node_to_expr(nodes: &Vec<PlanLang>, conditions: &Vec<Expression>, id: usize) -> (r: Expression)
    requires
        id < nodes@.len(),
        ordered(views(nodes@)),
        is_condition(views(nodes@), id as nat),
    ensures
        r@ == condition_of(views(nodes@), views(conditions@), id as nat),
    decreases id,
{
    assert(inputs_before(views(nodes@)[id as int], id as nat));
    match &nodes[id] {
        PlanLang::And(l, r) => Expression::Binary(
            BinaryOp::And,
            Box::new(node_to_expr(nodes, conditions, *l)),
            Box::new(node_to_expr(nodes, conditions, *r)),
        ),
        PlanLang::True => Expression::Bool(true),
        PlanLang::Num(n) => if *n == 0 {
            Expression::Bool(false)
        } else if *n > 0 && *n as u64 <= conditions.len() as u64 {
            conditions[(*n - 1) as usize].clone()
        } else {
            Expression::Int(*n)
        },
        PlanLang::Symbol(s) => Expression::Identifier(s.clone()),
        _ => Expression::Null,
    }
}

fn read_scan() -> (r: LogicalPlan)
    ensures
        r@ == default_scan(),
{
    LogicalPlan { op: LogicalOp::AllScan { alias: None }, cost: PlanCost::default(), cardinality: Quantity::Count(10000) }
}

/// Reads a node as a plan.
#[verifier::rlimit(40)]
pub fn node_to_plan(nodes: &Vec<PlanLang>, conditions: &Vec<Expression>, id: usize) -> (r: LogicalPlan)
    requires
        id < nodes@.len(),
        ordered(views(nodes@)),
        decodable(views(nodes@), id as nat),
    ensures
        r@ == plan_of(views(nodes@), views(conditions@), id as nat),
    decreases id,
{
    assert(inputs_before(views(nodes@)[id as int], id as nat));
    match &nodes[id] {
        PlanLang::LabelScan(label_id, alias_id) => {
            let label = LabelId::new(#[verifier::truncate] (node_as_u64(nodes, *label_id) as u32));
            let alias = node_as_symbol(nodes, *alias_id);
            LogicalPlan {
                op: LogicalOp::LabelScan { alias, label },
                cost: PlanCost::default(),
                cardinality: Quantity::Count(100),
            }
        },
        PlanLang::LabelPropScan(label_id, prop_id, _, alias_id) => {
            let label = LabelId::new(#[verifier::truncate] (node_as_u64(nodes, *label_id) as u32));
            let property = PropertyId::new(#[verifier::truncate] (node_as_u64(nodes, *prop_id) as u32));
            let alias = node_as_symbol(nodes, *alias_id);
            LogicalPlan {
                op: LogicalOp::LabelPropertyScan { alias, label, property, value: PropertyValue::Null },
                cost: PlanCost::default(),
                cardinality: Quantity::Count(10),
            }
        },
        PlanLang::Filter(cond_id, child_id) => {
            let child = node_to_plan(nodes, conditions, *child_id);
            let condition = node_to_expr(nodes, conditions, *cond_id);
            LogicalPlan {
                op: LogicalOp::Filter { condition },
                cost: child.cost,
                cardinality: child.cardinality.times(Quantity::from_decimal(3, 1)),
            }
        },
        PlanLang::Join(left_id, right_id, type_id) => {
            let left = node_to_plan(nodes, conditions, *left_id);
            let right = node_to_plan(nodes, conditions, *right_id);
            let cardinality = left.cardinality.clone().at_least(right.cardinality.clone());
            let join_type = node_to_join_type(nodes, *type_id);
            LogicalPlan {
                op: LogicalOp::Join { left: Box::new(left), right: Box::new(right), join_type },
                cost: PlanCost::default(),
                cardinality,
            }
        },
        PlanLang::Sort(_, child_id) => {
            let child = node_to_plan(nodes, conditions, *child_id);
            let key: Vec<OrderByItem> = Vec::new();
            assert(views(key@) =~= Seq::empty());
            LogicalPlan { op: LogicalOp::Sort { key }, cost: child.cost, cardinality: child.cardinality }
        },
        PlanLang::Limit(count_id, child_id) => {
            let child = node_to_plan(nodes, conditions, *child_id);
            let count: usize = #[verifier::truncate] (node_as_u64(nodes, *count_id) as usize);
            LogicalPlan {
                op: LogicalOp::Limit { count },
                cost: child.cost,
                cardinality: child.cardinality.at_most(Quantity::Count(count as u64)),
            }
        },
        PlanLang::SkipOp(count_id, child_id) => {
            let child = node_to_plan(nodes, conditions, *child_id);
            let count: usize = #[verifier::truncate] (node_as_u64(nodes, *count_id) as usize);
            LogicalPlan { op: LogicalOp::Skip { count }, cost: child.cost, cardinality: child.cardinality }
        },
        PlanLang::EdgeExpand(dir_id, et_id, child_id) => {
            let child = node_to_plan(nodes, conditions, *child_id);
            let direction = node_as_direction(nodes, *dir_id);
            let edge_type = if node_as_i64(nodes, *et_id) >= 0 {
                Some(EdgeTypeId::new(#[verifier::truncate] (node_as_u64(nodes, *et_id) as u32)))
            } else {
                None
            };
            LogicalPlan {
                op: LogicalOp::EdgeExpand {
                    from_alias: "anon".to_string(),
                    edge_alias: None,
                    to_alias: None,
                    direction,
                    edge_type,
                },
                cost: child.cost,
                cardinality: child.cardinality.times(Quantity::Count(5)),
            }
        },
        PlanLang::Project(_, child_id) => {
            let child = node_to_plan(nodes, conditions, *child_id);
            let expressions: Vec<Expression> = Vec::new();
            assert(views(expressions@) =~= Seq::empty());
            LogicalPlan { op: LogicalOp::Project { expressions }, cost: child.cost, cardinality: child.cardinality }
        },
        PlanLang::Aggregate(_, _, child_id) => {
            let child = node_to_plan(nodes, conditions, *child_id);
            let group_by: Vec<ReturnItem> = Vec::new();
            let aggregates: Vec<ReturnItem> = Vec::new();
            assert(views(group_by@) =~= Seq::empty());
            assert(views(aggregates@) =~= Seq::empty());
            LogicalPlan {
                op: LogicalOp::Aggregate { group_by, aggregates },
                cost: child.cost,
                cardinality: child.cardinality.times(Quantity::from_decimal(1, 1)),
            }
        },
        PlanLang::Distinct(child_id) => {
            let child = node_to_plan(nodes, conditions, *child_id);
            LogicalPlan {
                op: LogicalOp::Distinct,
                cost: child.cost,
                cardinality: child.cardinality.times(Quantity::from_decimal(5, 1)),
            }
        },
        PlanLang::Union(left_id, right_id, all_id) => {
            let left = node_to_plan(nodes, conditions, *left_id);
            let right = node_to_plan(nodes, conditions, *right_id);
            let cardinality = left.cardinality.clone().plus(right.cardinality.clone());
            let all = node_as_u64(nodes, *all_id) != 0;
            LogicalPlan {
                op: LogicalOp::Union { left: Box::new(left), right: Box::new(right), all },
                cost: PlanCost::default(),
                cardinality,
            }
        },
        _ => read_scan(),
    }
}

/// Reads a list of nodes as a plan: its last node is the root.
pub fn recexpr_to_plan(nodes: &Vec<PlanLang>, conditions: &Vec<Expression>) -> (r: LogicalPlan)
    requires
        nodes@.len() > 0,
        ordered(views(nodes@)),
        decodable(views(nodes@), (nodes@.len() - 1) as nat),
    ensures
        r@ == plan_of(views(nodes@), views(conditions@), (nodes@.len() - 1) as nat),
{
    node_to_plan(nodes, conditions, nodes.len() - 1)
}

fn inputs_stand_before(node: &PlanLang, id: usize) -> (r: bool)
    ensures
        r == inputs_before(node@, id as nat),
{
    match node {
        PlanLang::LabelPropScan(a, b, c, d) => *a < id && *b < id && *c < id && *d < id,
        PlanLang::Join(a, b, c) | PlanLang::EdgeExpand(a, b, c) => *a < id && *b < id && *c < id,
        PlanLang::Aggregate(a, b, c) | PlanLang::Union(a, b, c) => *a < id && *b < id && *c < id,
        PlanLang::LabelScan(a, b) | PlanLang::Filter(a, b) | PlanLang::Project(a, b) => *a < id && *b < id,
        PlanLang::Sort(a, b) | PlanLang::Limit(a, b) | PlanLang::SkipOp(a, b) => *a < id && *b < id,
        PlanLang::HashJoin(a, b) | PlanLang::And(a, b) => *a < id && *b < id,
        PlanLang::Distinct(a) => *a < id,
        _ => true,
    }
}

fn reads_as_condition(nodes: &Vec<PlanLang>, id: usize) -> (r: bool)
    requires
        id < nodes@.len(),
        ordered(views(nodes@)),
    ensures
        r == is_condition(views(nodes@), id as nat),
    decreases id,
{
    assert(inputs_before(views(nodes@)[id as int], id as nat));
    match &nodes[id] {
        PlanLang::And(l, r) => reads_as_condition(nodes, *l) && reads_as_condition(nodes, *r),
        PlanLang::True | PlanLang::Num(_) | PlanLang::Symbol(_) => true,
        _ => false,
    }
}

fn reads_as_plan(nodes: &Vec<PlanLang>, id: usize) -> (r: bool)
    requires
        id < nodes@.len(),
        ordered(views(nodes@)),
    ensures
        r == decodable(views(nodes@), id as nat),
    decreases id,
{
    assert(inputs_before(views(nodes@)[id as int], id as nat));
    match &nodes[id] {
        PlanLang::Filter(c, child) => reads_as_condition(nodes, *c) && reads_as_plan(nodes, *child),
        PlanLang::Join(l, r, _) | PlanLang::Union(l, r, _) => reads_as_plan(nodes, *l) && reads_as_plan(nodes, *r),
        PlanLang::Project(_, child) | PlanLang::Sort(_, child) => reads_as_plan(nodes, *child),
        PlanLang::Limit(_, child) | PlanLang::SkipOp(_, child) => reads_as_plan(nodes, *child),
        PlanLang::EdgeExpand(_, _, child) | PlanLang::Aggregate(_, _, child) => reads_as_plan(nodes, *child),
        PlanLang::Distinct(child) => reads_as_plan(nodes, *child),
        _ => true,
    }
}

/// Decides whether a list of nodes reads as a plan.
pub fn is_readable(nodes: &Vec<PlanLang>) -> (r: bool)
    ensures
        r == (nodes@.len() > 0 && ordered(views(nodes@)) && decodable(views(nodes@), (nodes@.len() - 1) as nat)),
{
    let mut i: usize = 0;
    while i < nodes.len()
        invariant
            i <= nodes@.len(),
            forall|j: int| 0 <= j < i ==> inputs_before(#[trigger] views(nodes@)[j], j as nat),
        decreases nodes@.len() - i,
    {
        if !inputs_stand_before(&nodes[i], i) {
            assert(!inputs_before(views(nodes@)[i as int], i as nat));
            return false;
        }
        i += 1;
    }
    nodes.len() > 0 && reads_as_plan(nodes, nodes.len() - 1)
}

/// The physical form of the plan that a list of nodes reads as: the last step of optimizing a query,
/// once equality saturation has picked the nodes.
pub fn physical_plan_from_nodes<F: Fn(&Quantity, &Quantity) -> Compared>(
    nodes: &Vec<PlanLang>,
    conditions: &Vec<Expression>,
    cm: &CostModel,
    catalog_stats: &CatalogStats,
    compare: &F,
) -> (r: PhysicalPlan)
    requires
        decides(*compare),
        nodes@.len() > 0,
        ordered(views(nodes@)),
        decodable(views(nodes@), (nodes@.len() - 1) as nat),
        convertible(plan_of(views(nodes@), views(conditions@), (nodes@.len() - 1) as nat)),
    ensures
        r@ == physical_form(plan_of(views(nodes@), views(conditions@), (nodes@.len() - 1) as nat), *cm, *catalog_stats, *compare),
{
    let plan = recexpr_to_plan(nodes, conditions);
    physical_plan_from_logical(&plan, cm, catalog_stats, compare)
}

/// Whether a list of nodes reads as a plan.
pub open spec fn readable(nodes: Seq<Node>) -> bool {
    nodes.len() > 0 && ordered(nodes) && decodable(nodes, (nodes.len() - 1) as nat)
}

/// Optimizes a plan by equality saturation. `saturate` rewrites the nodes of the plan by the rules
/// and picks the cheapest nodes that are equal to them; the plan is read from these, with the
/// conditions of the plan that they name. There is none where they do not read as a plan.
pub fn optimize_egraph<B: Fn(&Quantity) -> u64, S: Fn(&Vec<PlanLang>) -> Vec<PlanLang>>(
    plan: &LogicalPlan,
    _cm: &CostModel,
    bits: &B,
    saturate: &S,
) -> (r: Option<LogicalPlan>)
    requires
        reads(*bits),
        forall|nodes: Vec<PlanLang>|
            views(nodes@) == plan_nodes(plan@, 0, 0, *bits) ==> #[trigger] call_requires(*saturate, (&nodes,)),
    ensures
        exists|nodes: Vec<PlanLang>, best: Vec<PlanLang>|
            {
                &&& #[trigger] call_ensures(*saturate, (&nodes,), best)
                &&& views(nodes@) == plan_nodes(plan@, 0, 0, *bits)
                &&& r is Some <==> readable(views(best@))
                &&& (r matches Some(p) ==> p@ == plan_of(views(best@), plan_leaves(plan@), (best@.len() - 1) as nat))
            },
{
    let (nodes, conditions) = plan_to_recexpr(plan, bits);
    let best = saturate(&nodes);
    assert(call_ensures(*saturate, (&nodes,), best));
    if is_readable(&best) {
        Some(recexpr_to_plan(&best, &conditions))
    } else {
        None
    }
}

/// Optimizes a logical plan into a physical plan: equality saturation, then conversion. There is none
/// where the nodes that saturation picks do not read as a plan, or as one without a physical form.
pub fn optimize_query<B: Fn(&Quantity) -> u64, S: Fn(&Vec<PlanLang>) -> Vec<PlanLang>, F: Fn(&Quantity, &Quantity) -> Compared>(
    logical_plan: LogicalPlan,
    cm: &CostModel,
    catalog_stats: &CatalogStats,
    bits: &B,
    saturate: &S,
    compare: &F,
) -> (r: Option<PhysicalPlan>)
    requires
        reads(*bits),
        decides(*compare),
        forall|nodes: Vec<PlanLang>|
            views(nodes@) == plan_nodes(logical_plan@, 0, 0, *bits) ==> #[trigger] call_requires(*saturate, (&nodes,)),
    ensures
        exists|nodes: Vec<PlanLang>, best: Vec<PlanLang>|
            {
                let chosen = plan_of(views(best@), plan_leaves(logical_plan@), (best@.len() - 1) as nat);
                &&& #[trigger] call_ensures(*saturate, (&nodes,), best)
                &&& views(nodes@) == plan_nodes(logical_plan@, 0, 0, *bits)
                &&& r is Some <==> readable(views(best@)) && convertible(chosen)
                &&& (r matches Some(p) ==> p@ == physical_form(chosen, *cm, *catalog_stats, *compare))
            },
{
    match optimize_egraph(&logical_plan, cm, bits, saturate) {
        Some(plan) => if is_convertible(&plan) {
            Some(physical_plan_from_logical(&plan, cm, catalog_stats, compare))
        } else {
            None
        },
        None => None,
    }
}

/// What is known of a class of equal plans.
#[derive(Debug)]
pub struct PlanData {
    pub estimated_cost: Quantity,
    pub estimated_cardinality: Quantity,
    pub is_sorted: bool,
    pub has_index: bool,
}

/// Estimates that are kept for each class of equal plans.
#[derive(Debug)]
pub struct PlanAnalysis;

/// What is known of a node, given what is known of its inputs.
pub open spec fn node_data(node: Node, data: Seq<PlanData>) -> PlanData {
    match node {
        Node::AllScan => PlanData {
            estimated_cost: Quantity::Count(10000),
            estimated_cardinality: Quantity::Count(10000),
            is_sorted: false,
            has_index: false,
        },
        Node::LabelScan(_, _) => PlanData {
            estimated_cost: Quantity::Count(100),
            estimated_cardinality: Quantity::Count(100),
            is_sorted: false,
            has_index: true,
        },
        Node::LabelPropScan(_, _, _, _) => PlanData {
            estimated_cost: Quantity::Count(10),
            estimated_cardinality: Quantity::Count(10),
            is_sorted: false,
            has_index: true,
        },
        Node::Filter(_, _) => {
            let rows = Quantity::product(data[1].estimated_cardinality, Quantity::decimal(3, 1));
            PlanData {
                estimated_cost: Quantity::sum(data[1].estimated_cost, rows),
                estimated_cardinality: rows,
                is_sorted: data[1].is_sorted,
                has_index: data[1].has_index,
            }
        },
        Node::Join(_, _, _) => PlanData {
            estimated_cost: Quantity::sum(
                Quantity::sum(data[0].estimated_cost, data[1].estimated_cost),
                Quantity::Count(1000),
            ),
            estimated_cardinality: Quantity::larger(data[0].estimated_cardinality, data[1].estimated_cardinality),
            is_sorted: data[0].is_sorted || data[1].is_sorted,
            has_index: data[0].has_index || data[1].has_index,
        },
        Node::Sort(_, _) => PlanData {
            estimated_cost: Quantity::sum(
                data[1].estimated_cost,
                Quantity::product(
                    Quantity::product(data[1].estimated_cardinality, Quantity::Count(10)),
                    Quantity::log2_at_least_one(data[1].estimated_cardinality),
                ),
            ),
            estimated_cardinality: data[1].estimated_cardinality,
            is_sorted: true,
            has_index: false,
        },
        Node::Limit(_, _) | Node::SkipOp(_, _) | Node::Project(_, _) => PlanData {
            estimated_cost: data[1].estimated_cost,
            estimated_cardinality: data[1].estimated_cardinality,
            is_sorted: data[1].is_sorted,
            has_index: false,
        },
        Node::EdgeExpand(_, _, _) => PlanData {
            estimated_cost: Quantity::product(data[2].estimated_cost, Quantity::Count(5)),
            estimated_cardinality: Quantity::product(data[2].estimated_cardinality, Quantity::Count(5)),
            is_sorted: data[2].is_sorted,
            has_index: false,
        },
        Node::Aggregate(_, _, _) => PlanData {
            estimated_cost: Quantity::product(data[2].estimated_cost, Quantity::Count(3)),
            estimated_cardinality: Quantity::product(data[2].estimated_cardinality, Quantity::decimal(1, 1)),
            is_sorted: data[2].is_sorted,
            has_index: false,
        },
        Node::Distinct(_) => PlanData {
            estimated_cost: Quantity::product(data[0].estimated_cost, Quantity::Count(2)),
            estimated_cardinality: Quantity::product(data[0].estimated_cardinality, Quantity::decimal(5, 1)),
            is_sorted: data[0].is_sorted,
            has_index: false,
        },
        Node::Union(_, _, _) => PlanData {
            estimated_cost: Quantity::sum(
                Quantity::sum(data[0].estimated_cost, data[1].estimated_cost),
                Quantity::Count(1),
            ),
            estimated_cardinality: Quantity::sum(data[0].estimated_cardinality, data[1].estimated_cardinality),
            is_sorted: false,
            has_index: false,
        },
        Node::Num(n) => PlanData {
            estimated_cost: Quantity::Integer(n),
            estimated_cardinality: Quantity::Integer(n),
            is_sorted: false,
            has_index: false,
        },
        _ => PlanData {
            estimated_cost: Quantity::Count(0),
            estimated_cardinality: Quantity::Count(1),
            is_sorted: false,
            has_index: false,
        },
    }
}

/// Whether two estimates differ.
pub open spec fn differ<F: Fn(&Quantity, &Quantity) -> Compared>(a: Quantity, b: Quantity, compare: F) -> bool {
    compared(compare, a, b) != Compared::Equal
}

impl PlanAnalysis {
    /// What is known of a node; `data` tells what is known of its inputs, in their order.
    pub fn make(enode: &PlanLang, data: &Vec<PlanData>) -> (r: PlanData)
        requires
            data@.len() == inputs(enode@).len(),
        ensures
            r == node_data(enode@, data@),
    {
        let mut cost = Quantity::Count(0);
        let mut card = Quantity::Count(1);
        let mut is_sorted = false;
        let mut has_index = false;
        match enode {
            PlanLang::AllScan => {
                cost = Quantity::Count(10000);
                card = Quantity::Count(10000);
            },
            PlanLang::LabelScan(_, _) => {
                cost = Quantity::Count(100);
                card = Quantity::Count(100);
                has_index = true;
            },
            PlanLang::LabelPropScan(_, _, _, _) => {
                cost = Quantity::Count(10);
                card = Quantity::Count(10);
                has_index = true;
            },
            PlanLang::Filter(_, _) => {
                let child = &data[1];
                card = child.estimated_cardinality.clone().times(Quantity::from_decimal(3, 1));
                cost = child.estimated_cost.clone().plus(card.clone());
                is_sorted = child.is_sorted;
                has_index = child.has_index;
            },
            PlanLang::Join(_, _, _) => {
                let left = &data[0];
                let right = &data[1];
                cost = left.estimated_cost.clone().plus(right.estimated_cost.clone()).plus(Quantity::Count(1000));
                card = left.estimated_cardinality.clone().at_least(right.estimated_cardinality.clone());
                is_sorted = left.is_sorted || right.is_sorted;
                has_index = left.has_index || right.has_index;
            },
            PlanLang::Sort(_, _) => {
                let child = &data[1];
                card = child.estimated_cardinality.clone();
                let effort = card.clone().times(Quantity::Count(10)).times(card.clone().log2_floored());
                cost = child.estimated_cost.clone().plus(effort);
                is_sorted = true;
            },
            PlanLang::Limit(_, _) | PlanLang::SkipOp(_, _) | PlanLang::Project(_, _) => {
                let child = &data[1];
                cost = child.estimated_cost.clone();
                card = child.estimated_cardinality.clone();
                is_sorted = child.is_sorted;
            },
            PlanLang::EdgeExpand(_, _, _) => {
                let child = &data[2];
                cost = child.estimated_cost.clone().times(Quantity::Count(5));
                card = child.estimated_cardinality.clone().times(Quantity::Count(5));
                is_sorted = child.is_sorted;
            },
            PlanLang::Aggregate(_, _, _) => {
                let child = &data[2];
                cost = child.estimated_cost.clone().times(Quantity::Count(3));
                card = child.estimated_cardinality.clone().times(Quantity::from_decimal(1, 1));
                is_sorted = child.is_sorted;
            },
            PlanLang::Distinct(_) => {
                let child = &data[0];
                cost = child.estimated_cost.clone().times(Quantity::Count(2));
                card = child.estimated_cardinality.clone().times(Quantity::from_decimal(5, 1));
                is_sorted = child.is_sorted;
            },
            PlanLang::Union(_, _, _) => {
                let left = &data[0];
                let right = &data[1];
                cost = left.estimated_cost.clone().plus(right.estimated_cost.clone()).plus(Quantity::Count(1));
                card = left.estimated_cardinality.clone().plus(right.estimated_cardinality.clone());
            },
            PlanLang::Num(n) => {
                cost = Quantity::Integer(*n);
                card = Quantity::Integer(*n);
            },
            _ => {},
        }
        PlanData { estimated_cost: cost, estimated_cardinality: card, is_sorted, has_index }
    }

    /// Combines what is known of two classes that turn out equal: the smaller estimates, and every
    /// property that either has. Tells whether the two differed.
    pub fn merge<F: Fn(&Quantity, &Quantity) -> Compared>(to: &mut PlanData, from: PlanData, compare: &F) -> (changed: bool)
        requires
            decides(*compare),
        ensures
            changed == (differ(old(to).estimated_cost, from.estimated_cost, *compare) || differ(
                old(to).estimated_cardinality,
                from.estimated_cardinality,
                *compare,
            ) || old(to).is_sorted != from.is_sorted || old(to).has_index != from.has_index),
            *final(to) == (PlanData {
                estimated_cost: Quantity::smaller(old(to).estimated_cost, from.estimated_cost),
                estimated_cardinality: Quantity::smaller(old(to).estimated_cardinality, from.estimated_cardinality),
                is_sorted: old(to).is_sorted || from.is_sorted,
                has_index: old(to).has_index || from.has_index,
            }),
    {
        let costs = compare(&to.estimated_cost, &from.estimated_cost);
        let cards = compare(&to.estimated_cardinality, &from.estimated_cardinality);
        let changed = costs != Compared::Equal || cards != Compared::Equal || to.is_sorted != from.is_sorted || to.has_index
            != from.has_index;
        to.estimated_cost = to.estimated_cost.clone().at_most(from.estimated_cost);
        to.estimated_cardinality = to.estimated_cardinality.clone().at_most(from.estimated_cardinality);
        to.is_sorted = to.is_sorted || from.is_sorted;
        to.has_index = to.has_index || from.has_index;
        changed
    }
}

/// The cost by which the best of equal plans is picked.
#[derive(Debug)]
pub struct PlannerCostFunction;

/// The cost of a node, given the costs of its inputs.
pub open spec fn node_cost(node: Node, costs: Seq<Quantity>) -> Quantity {
    match node {
        Node::AllScan => Quantity::Count(10000),
        Node::LabelScan(_, _) => Quantity::Count(100),
        Node::LabelPropScan(_, _, _, _) => Quantity::Count(10),
        Node::Filter(_, _) => Quantity::sum(costs[1], Quantity::product(costs[1], Quantity::decimal(3, 1))),
        Node::Join(_, _, _) => Quantity::sum(Quantity::sum(costs[0], costs[1]), Quantity::Count(1000)),
        Node::Sort(_, _) => Quantity::product(
            Quantity::product(costs[1], Quantity::Count(10)),
            Quantity::log2_at_least_one(costs[1]),
        ),
        Node::Limit(_, _) | Node::SkipOp(_, _) | Node::Project(_, _) => costs[1],
        Node::EdgeExpand(_, _, _) => Quantity::product(costs[2], Quantity::Count(5)),
        Node::Aggregate(_, _, _) => Quantity::product(costs[2], Quantity::Count(3)),
        Node::Distinct(_) => Quantity::product(costs[0], Quantity::Count(2)),
        Node::Union(_, _, _) => Quantity::sum(Quantity::sum(costs[0], costs[1]), Quantity::Count(1)),
        Node::Num(n) => Quantity::Integer(n),
        _ => Quantity::Count(1),
    }
}

impl PlannerCostFunction {
    /// The cost of a node; `costs` gives the costs of its inputs, in their order.
    pub fn cost(&self, enode: &PlanLang, costs: &Vec<Quantity>) -> (r: Quantity)
        requires
            costs@.len() == inputs(enode@).len(),
        ensures
            r == node_cost(enode@, costs@),
    {
        match enode {
            PlanLang::AllScan => Quantity::Count(10000),
            PlanLang::LabelScan(_, _) => Quantity::Count(100),
            PlanLang::LabelPropScan(_, _, _, _) => Quantity::Count(10),
            PlanLang::Filter(_, _) => costs[1].clone().plus(costs[1].clone().times(Quantity::from_decimal(3, 1))),
            PlanLang::Join(_, _, _) => costs[0].clone().plus(costs[1].clone()).plus(Quantity::Count(1000)),
            PlanLang::Sort(_, _) => costs[1].clone().times(Quantity::Count(10)).times(costs[1].clone().log2_floored()),
            PlanLang::Limit(_, _) | PlanLang::SkipOp(_, _) | PlanLang::Project(_, _) => costs[1].clone(),
            PlanLang::EdgeExpand(_, _, _) => costs[2].clone().times(Quantity::Count(5)),
            PlanLang::Aggregate(_, _, _) => costs[2].clone().times(Quantity::Count(3)),
            PlanLang::Distinct(_) => costs[0].clone().times(Quantity::Count(2)),
            PlanLang::Union(_, _, _) => costs[0].clone().plus(costs[1].clone()).plus(Quantity::Count(1)),
            PlanLang::Num(n) => Quantity::Integer(*n),
            _ => Quantity::Count(1),
        }
    }
}

/// A rewrite: plans that match the first pattern equal what the second makes of them.
#[derive(Clone, Copy, Debug)]
pub struct Rewrite {
    pub name: &'static str,
    pub pattern: &'static str,
    pub replacement: &'static str,
}

/// The texts of a rewrite.
pub open spec fn rewrite_texts(r: Rewrite) -> (Seq<char>, Seq<char>, Seq<char>) {
    (r.name@, r.pattern@, r.replacement@)
}

/// The texts of all rewrites, in their order.
pub open spec fn all_rewrites() -> Seq<(Seq<char>, Seq<char>, Seq<char>)> {
    seq![
        ("push-filter-left"@, "(filter ?c (join ?a ?b ?t))"@, "(join (filter ?c ?a) ?b ?t)"@),
        ("push-filter-right"@, "(filter ?c (join ?a ?b ?t))"@, "(join ?a (filter ?c ?b) ?t)"@),
        ("join-commute"@, "(join ?a ?b nl)"@, "(join ?b ?a nl)"@),
        ("merge-filters"@, "(filter ?c (filter ?c2 ?a))"@, "(filter ?c ?a)"@),
        ("limit-pushdown-sort"@, "(limit ?n (sort ?k ?a))"@, "(sort ?k (limit ?n ?a))"@),
        ("limit-pushdown-filter"@, "(limit ?n (filter ?c ?a))"@, "(filter ?c (limit ?n ?a))"@),
        ("remove-true-filter"@, "(filter true ?a)"@, "?a"@),
        ("union-commute"@, "(union ?a ?b ?f)"@, "(union ?b ?a ?f)"@),
        ("distinct-idempotent"@, "(distinct (distinct ?a))"@, "(distinct ?a)"@),
        ("join-assoc-left"@, "(join ?a (join ?b ?c ?t2) ?t1)"@, "(join (join ?a ?b ?t1) ?c ?t2)"@),
        ("join-assoc-right"@, "(join (join ?a ?b ?t1) ?c ?t2)"@, "(join ?a (join ?b ?c ?t2) ?t1)"@),
        ("project-pushdown-filter"@, "(project ?e (filter ?c ?a))"@, "(filter ?c (project ?e ?a))"@),
        ("project-pushdown-join"@, "(project ?e (join ?a ?b ?t))"@, "(join (project ?e ?a) (project ?e ?b) ?t)"@),
        ("limit-pushdown-project"@, "(limit ?n (project ?e ?a))"@, "(project ?e (limit ?n ?a))"@),
        ("distinct-limit-swap"@, "(distinct (limit ?n ?a))"@, "(limit ?n (distinct ?a))"@),
        ("filter-pushdown-distinct"@, "(filter ?c (distinct ?a))"@, "(distinct (filter ?c ?a))"@),
    ]
}

fn rewrite(name: &'static str, pattern: &'static str, replacement: &'static str) -> (r: Rewrite)
    ensures
        rewrite_texts(r) == (name@, pattern@, replacement@),
{
    Rewrite { name, pattern, replacement }
}

/// The rewrites that equality saturation applies.
pub fn rules() -> (r: Vec<Rewrite>)
    ensures
        r@.len() == all_rewrites().len(),
        forall|i: int| 0 <= i < r@.len() ==> rewrite_texts(#[trigger] r@[i]) == all_rewrites()[i],
{
    vec![
        rewrite("push-filter-left", "(filter ?c (join ?a ?b ?t))", "(join (filter ?c ?a) ?b ?t)"),
        rewrite("push-filter-right", "(filter ?c (join ?a ?b ?t))", "(join ?a (filter ?c ?b) ?t)"),
        rewrite("join-commute", "(join ?a ?b nl)", "(join ?b ?a nl)"),
        rewrite("merge-filters", "(filter ?c (filter ?c2 ?a))", "(filter ?c ?a)"),
        rewrite("limit-pushdown-sort", "(limit ?n (sort ?k ?a))", "(sort ?k (limit ?n ?a))"),
        rewrite("limit-pushdown-filter", "(limit ?n (filter ?c ?a))", "(filter ?c (limit ?n ?a))"),
        rewrite("remove-true-filter", "(filter true ?a)", "?a"),
        rewrite("union-commute", "(union ?a ?b ?f)", "(union ?b ?a ?f)"),
        rewrite("distinct-idempotent", "(distinct (distinct ?a))", "(distinct ?a)"),
        rewrite("join-assoc-left", "(join ?a (join ?b ?c ?t2) ?t1)", "(join (join ?a ?b ?t1) ?c ?t2)"),
        rewrite("join-assoc-right", "(join (join ?a ?b ?t1) ?c ?t2)", "(join ?a (join ?b ?c ?t2) ?t1)"),
        rewrite("project-pushdown-filter", "(project ?e (filter ?c ?a))", "(filter ?c (project ?e ?a))"),
        rewrite("project-pushdown-join", "(project ?e (join ?a ?b ?t))", "(join (project ?e ?a) (project ?e ?b) ?t)"),
        rewrite("limit-pushdown-project", "(limit ?n (project ?e ?a))", "(project ?e (limit ?n ?a))"),
        rewrite("distinct-limit-swap", "(distinct (limit ?n ?a))", "(limit ?n (distinct ?a))"),
        rewrite("filter-pushdown-distinct", "(filter ?c (distinct ?a))", "(distinct (filter ?c ?a))"),
    ]
}

} // verus!
