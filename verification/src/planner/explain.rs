//! Plans as text, and the profiles that are attached to their nodes.
use vstd::prelude::*;
use vstd::string::*;

use crate::planner::expression::Expression;
use crate::planner::ids::EdgeTypeId;
use crate::planner::logical::{JoinType, LogicalOp, LogicalPlan};
use crate::planner::query::{opt_text, Direction};
use crate::planner::value::PropertyValue;
use crate::quantity::Quantity;
use crate::text::{decimal, push_number};

verus! {

/// What the text of a plan needs shown by others: expressions, values, and numbers with so many
/// digits behind the point.
pub enum Shown<'a> {
    Expression(&'a Expression),
    Value(&'a PropertyValue),
    Number(&'a Quantity, u32),
}

/// The text that is shown for something.
pub open spec fn shown<S: for<'a> Fn(Shown<'a>) -> String>(show: S, what: Shown) -> Seq<char> {
    (choose|s: String| call_ensures(show, (what,), s))@
}

/// A way of showing that may be asked for anything and gives one text for each.
pub open spec fn shows<S: for<'a> Fn(Shown<'a>) -> String>(show: S) -> bool {
    &&& forall|what: Shown| #[trigger] call_requires(show, (what,))
    &&& forall|what: Shown, s: String| #[trigger] call_ensures(show, (what,), s) ==> s@ == shown(show, what)
}

/// The text that Debug gives for a text: quoted, with special characters escaped.
pub uninterp spec fn debug_text(s: Seq<char>) -> Seq<char>;

/// The Debug form of `str`, as `format!("{:?}", ..)` gives it.
#[verifier::external_body]
fn quoted(s: &str) -> (r: String)
    ensures
        r@ == debug_text(s@),
{
    format!("{:?}", s)
}

/// The Debug form of an optional text.
pub open spec fn debug_option(o: Option<Seq<char>>) -> Seq<char> {
    match o {
        Some(s) => "Some("@ + debug_text(s) + ")"@,
        None => "None"@,
    }
}

fn push_option(out: &mut String, o: &Option<String>)
    ensures
        final(out)@ == old(out)@ + debug_option(opt_text(*o)),
{
    match o {
        Some(s) => {
            out.append("Some(");
            out.append(quoted(s.as_str()).as_str());
            out.append(")");
        },
        None => out.append("None"),
    }
    assert(out@ =~= old(out)@ + debug_option(opt_text(*o)));
}

/// The Debug form of a join type.
pub open spec fn debug_join(j: JoinType) -> Seq<char> {
    match j {
        JoinType::NestedLoop => "NestedLoop"@,
        JoinType::HashJoin { left_key, right_key } => "HashJoin { left_key: "@ + debug_text(left_key@) + ", right_key: "@
            + debug_text(right_key@) + " }"@,
    }
}

/// The name of a direction.
pub open spec fn debug_direction(d: Direction) -> Seq<char> {
    match d {
        Direction::Left => "Left"@,
        Direction::Right => "Right"@,
        Direction::Either => "Either"@,
    }
}

/// The Debug form of an optional edge type's number.
pub open spec fn debug_edge_type(t: Option<EdgeTypeId>) -> Seq<char> {
    match t {
        Some(t) => "Some("@ + decimal(t.id as nat) + ")"@,
        None => "None"@,
    }
}

/// A truth value as text.
pub open spec fn bool_text(b: bool) -> Seq<char> {
    if b {
        "true"@
    } else {
        "false"@
    }
}

/// The name of an operator with its most telling details.
pub open spec fn op_text<S: for<'a> Fn(Shown<'a>) -> String>(op: LogicalOp, show: S) -> Seq<char> {
    match op {
        LogicalOp::AllScan { .. } => "AllScan"@,
        LogicalOp::LabelScan { alias, label } => "LabelScan(alias="@ + debug_option(opt_text(alias)) + ", label="@ + decimal(
            label.id as nat,
        ) + ")"@,
        LogicalOp::LabelPropertyScan { alias, label, property, value } => "LabelPropertyScan(alias="@ + debug_option(
            opt_text(alias),
        ) + ", label="@ + decimal(label.id as nat) + ", prop="@ + decimal(property.id as nat) + ", value="@ + shown(
            show,
            Shown::Value(&value),
        ) + ")"@,
        LogicalOp::EdgeTypeScan { alias, edge_type } => "EdgeTypeScan(alias="@ + debug_option(opt_text(alias)) + ", type="@
            + decimal(edge_type.id as nat) + ")"@,
        LogicalOp::EdgeTypePropertyScan { alias, edge_type, property, value } => "EdgeTypePropertyScan(alias="@
            + debug_option(opt_text(alias)) + ", type="@ + decimal(edge_type.id as nat) + ", prop="@ + decimal(
            property.id as nat,
        ) + ", val="@ + shown(show, Shown::Value(&value)) + ")"@,
        LogicalOp::EdgeExpand { from_alias, edge_alias, to_alias, direction, edge_type } => "EdgeExpand(dir="@
            + debug_direction(direction) + ", type="@ + debug_edge_type(edge_type) + ")"@,
        LogicalOp::Filter { condition } => "Filter("@ + shown(show, Shown::Expression(&condition)) + ")"@,
        LogicalOp::Project { expressions } => "Project("@ + decimal(expressions@.len()) + " exprs)"@,
        LogicalOp::Join { left, right, join_type } => "Join("@ + debug_join(join_type) + ")"@,
        LogicalOp::Sort { key } => "Sort("@ + decimal(key@.len()) + " keys)"@,
        LogicalOp::Limit { count } => "Limit("@ + decimal(count as nat) + ")"@,
        LogicalOp::Skip { count } => "Skip("@ + decimal(count as nat) + ")"@,
        LogicalOp::Unwind { expr, alias } => "Unwind("@ + shown(show, Shown::Expression(&expr)) + " AS "@ + alias@ + ")"@,
        LogicalOp::Produce { items } => "Produce("@ + decimal(items@.len()) + " items)"@,
        LogicalOp::CreateVertex { labels, properties } => "CreateVertex(labels="@ + decimal(labels@.len()) + ", props="@
            + decimal(properties@.len()) + ")"@,
        LogicalOp::SetProperty { key, value } => "SetProperty("@ + decimal(key.id as nat) + ")"@,
        LogicalOp::Delete { expressions, detach } => "Delete("@ + decimal(expressions@.len()) + " exprs, detach="@
            + bool_text(detach) + ")"@,
        LogicalOp::Aggregate { group_by, aggregates } => "Aggregate(group_by="@ + decimal(group_by@.len()) + ", aggs="@
            + decimal(aggregates@.len()) + ")"@,
        LogicalOp::Distinct => "Distinct"@,
        LogicalOp::Union { left, right, all } => "Union(all="@ + bool_text(all) + ")"@,
        LogicalOp::TopN { key, count } => "TopN("@ + decimal(key@.len()) + " keys, limit="@ + decimal(count as nat) + ")"@,
        LogicalOp::EmptyResult => "EmptyResult"@,
    }
}

fn push_bool(out: &mut String, b: bool)
    ensures
        final(out)@ == old(out)@ + bool_text(b),
{
    if b {
        out.append("true");
    } else {
        out.append("false");
    }
}

fn push_join(out: &mut String, j: &JoinType)
    ensures
        final(out)@ == old(out)@ + debug_join(*j),
{
    match j {
        JoinType::NestedLoop => out.append("NestedLoop"),
        JoinType::HashJoin { left_key, right_key } => {
            out.append("HashJoin { left_key: ");
            out.append(quoted(left_key.as_str()).as_str());
            out.append(", right_key: ");
            out.append(quoted(right_key.as_str()).as_str());
            out.append(" }");
        },
    }
    assert(out@ =~= old(out)@ + debug_join(*j));
}

fn push_direction(out: &mut String, d: Direction)
    ensures
        final(out)@ == old(out)@ + debug_direction(d),
{
    match d {
        Direction::Left => out.append("Left"),
        Direction::Right => out.append("Right"),
        Direction::Either => out.append("Either"),
    }
}

fn push_edge_type(out: &mut String, t: Option<EdgeTypeId>)
    ensures
        final(out)@ == old(out)@ + debug_edge_type(t),
{
    match t {
        Some(t) => {
            out.append("Some(");
            push_number(out, t.id as u64);
            out.append(")");
        },
        None => out.append("None"),
    }
    assert(out@ =~= old(out)@ + debug_edge_type(t));
}

fn push_shown<S: for<'a> Fn(Shown<'a>) -> String>(out: &mut String, what: Shown, show: &S)
    requires
        shows(*show),
    ensures
        final(out)@ == old(out)@ + shown(*show, what),
{
    let text = show(what);
    out.append(text.as_str());
}

/// The name of an operator with its most telling details.
pub fn format_op<S: for<'a> Fn(Shown<'a>) -> String>(op: &LogicalOp, show: &S) -> (r: String)
    requires
        shows(*show),
    ensures
        r@ == op_text(*op, *show),
{
    let mut out = String::new();
    match op {
        LogicalOp::AllScan { .. } => out.append("AllScan"),
        LogicalOp::LabelScan { alias, label } => {
            out.append("LabelScan(alias=");
            push_option(&mut out, alias);
            out.append(", label=");
            push_number(&mut out, label.id as u64);
            out.append(")");
        },
        LogicalOp::LabelPropertyScan { alias, label, property, value } => {
            out.append("LabelPropertyScan(alias=");
            push_option(&mut out, alias);
            out.append(", label=");
            push_number(&mut out, label.id as u64);
            out.append(", prop=");
            push_number(&mut out, property.id as u64);
            out.append(", value=");
            push_shown(&mut out, Shown::Value(value), show);
            out.append(")");
        },
        LogicalOp::EdgeTypeScan { alias, edge_type } => {
            out.append("EdgeTypeScan(alias=");
            push_option(&mut out, alias);
            out.append(", type=");
            push_number(&mut out, edge_type.id as u64);
            out.append(")");
        },
        LogicalOp::EdgeTypePropertyScan { alias, edge_type, property, value } => {
            out.append("EdgeTypePropertyScan(alias=");
            push_option(&mut out, alias);
            out.append(", type=");
            push_number(&mut out, edge_type.id as u64);
            out.append(", prop=");
            push_number(&mut out, property.id as u64);
            out.append(", val=");
            push_shown(&mut out, Shown::Value(value), show);
            out.append(")");
        },
        LogicalOp::EdgeExpand { direction, edge_type, .. } => {
            out.append("EdgeExpand(dir=");
            push_direction(&mut out, *direction);
            out.append(", type=");
            push_edge_type(&mut out, *edge_type);
            out.append(")");
        },
        LogicalOp::Filter { condition } => {
            out.append("Filter(");
            push_shown(&mut out, Shown::Expression(condition), show);
            out.append(")");
        },
        LogicalOp::Project { expressions } => {
            out.append("Project(");
            push_number(&mut out, expressions.len() as u64);
            out.append(" exprs)");
        },
        LogicalOp::Join { join_type, .. } => {
            out.append("Join(");
            push_join(&mut out, join_type);
            out.append(")");
        },
        LogicalOp::Sort { key } => {
            out.append("Sort(");
            push_number(&mut out, key.len() as u64);
            out.append(" keys)");
        },
        LogicalOp::Limit { count } => {
            out.append("Limit(");
            push_number(&mut out, *count as u64);
            out.append(")");
        },
        LogicalOp::Skip { count } => {
            out.append("Skip(");
            push_number(&mut out, *count as u64);
            out.append(")");
        },
        LogicalOp::Unwind { expr, alias } => {
            out.append("Unwind(");
            push_shown(&mut out, Shown::Expression(expr), show);
            out.append(" AS ");
            out.append(alias.as_str());
            out.append(")");
        },
        LogicalOp::Produce { items } => {
            out.append("Produce(");
            push_number(&mut out, items.len() as u64);
            out.append(" items)");
        },
        LogicalOp::CreateVertex { labels, properties } => {
            out.append("CreateVertex(labels=");
            push_number(&mut out, labels.len() as u64);
            out.append(", props=");
            push_number(&mut out, properties.len() as u64);
            out.append(")");
        },
        LogicalOp::SetProperty { key, .. } => {
            out.append("SetProperty(");
            push_number(&mut out, key.id as u64);
            out.append(")");
        },
        LogicalOp::Delete { expressions, detach } => {
            out.append("Delete(");
            push_number(&mut out, expressions.len() as u64);
            out.append(" exprs, detach=");
            push_bool(&mut out, *detach);
            out.append(")");
        },
        LogicalOp::Aggregate { group_by, aggregates } => {
            out.append("Aggregate(group_by=");
            push_number(&mut out, group_by.len() as u64);
            out.append(", aggs=");
            push_number(&mut out, aggregates.len() as u64);
            out.append(")");
        },
        LogicalOp::Distinct => out.append("Distinct"),
        LogicalOp::Union { all, .. } => {
            out.append("Union(all=");
            push_bool(&mut out, *all);
            out.append(")");
        },
        LogicalOp::TopN { key, count } => {
            out.append("TopN(");
            push_number(&mut out, key.len() as u64);
            out.append(" keys, limit=");
            push_number(&mut out, *count as u64);
            out.append(")");
        },
        LogicalOp::EmptyResult => out.append("EmptyResult"),
    }
    assert(out@ =~= op_text(*op, *show));
    out
}

/// The inputs of a plan that it holds itself.
pub open spec fn children_of(p: LogicalPlan) -> Seq<LogicalPlan> {
    match p.op {
        LogicalOp::Join { left, right, .. } => seq![*left, *right],
        LogicalOp::Union { left, right, .. } => seq![*left, *right],
        _ => Seq::empty(),
    }
}

/// The inputs of a plan that it holds itself.
pub fn plan_children(plan: &LogicalPlan) -> (r: Vec<&LogicalPlan>)
    ensures
        r@.len() == children_of(*plan).len(),
        forall|i: int| 0 <= i < r@.len() ==> *(#[trigger] r@[i]) == children_of(*plan)[i],
{
    let mut r: Vec<&LogicalPlan> = Vec::new();
    match &plan.op {
        LogicalOp::Join { left, right, .. } => {
            r.push(left);
            r.push(right);
        },
        LogicalOp::Union { left, right, .. } => {
            r.push(left);
            r.push(right);
        },
        _ => {},
    }
    r
}

/// `n` vertical bars, each with the space to the next.
pub open spec fn bars(n: nat) -> Seq<char>
    decreases n,
{
    if n == 0 {
        Seq::empty()
    } else {
        bars((n - 1) as nat) + "│   "@
    }
}

/// What stands before a node of the tree.
pub open spec fn branch(depth: nat, is_last: bool) -> Seq<char> {
    if depth == 0 {
        Seq::empty()
    } else {
        bars((depth - 1) as nat) + if is_last {
            "└── "@
        } else {
            "├── "@
        }
    }
}

/// The line of a node of the tree: the operator, its cost and its rows.
#[verifier::opaque]
pub open spec fn node_line<S: for<'a> Fn(Shown<'a>) -> String>(p: LogicalPlan, depth: nat, is_last: bool, show: S) -> Seq<
    char,
> {
    let total = Quantity::sum(p.cost.cpu, p.cost.io);
    branch(depth, is_last) + op_text(p.op, show) + "  [cost="@ + shown(show, Shown::Number(&total, 1)) + ", card="@ + shown(
        show,
        Shown::Number(&p.cardinality, 1),
    ) + "]\n"@
}

/// The tree of a plan: the line of its root, then the trees of its inputs.
pub open spec fn tree<S: for<'a> Fn(Shown<'a>) -> String>(p: LogicalPlan, depth: nat, is_last: bool, show: S) -> Seq<char>
    decreases p,
{
    let line = node_line(p, depth, is_last, show);
    match p.op {
        LogicalOp::Join { left, right, .. } => line + tree(*left, depth + 1, false, show) + tree(
            *right,
            depth + 1,
            true,
            show,
        ),
        LogicalOp::Union { left, right, .. } => line + tree(*left, depth + 1, false, show) + tree(
            *right,
            depth + 1,
            true,
            show,
        ),
        _ => line,
    }
}

/// The number of levels of a plan.
pub open spec fn height(p: LogicalPlan) -> nat
    decreases p,
{
    match p.op {
        LogicalOp::Join { left, right, .. } => 1 + if height(*left) > height(*right) {
            height(*left)
        } else {
            height(*right)
        },
        LogicalOp::Union { left, right, .. } => 1 + if height(*left) > height(*right) {
            height(*left)
        } else {
            height(*right)
        },
        _ => 0,
    }
}

fn push_branch(buf: &mut String, depth: usize, is_last: bool)
    ensures
        final(buf)@ == old(buf)@ + branch(depth as nat, is_last),
{
    if depth == 0 {
        assert(buf@ =~= old(buf)@ + branch(0, is_last));
        return;
    }
    let mut i: usize = 0;
    assert(buf@ =~= old(buf)@ + bars(0));
    while i < depth - 1
        invariant
            i <= depth - 1,
            buf@ == old(buf)@ + bars(i as nat),
        decreases depth - i,
    {
        buf.append("│   ");
        i += 1;
        assert(buf@ =~= old(buf)@ + bars(i as nat));
    }
    if is_last {
        buf.append("└── ");
    } else {
        buf.append("├── ");
    }
    assert(buf@ =~= old(buf)@ + branch(depth as nat, is_last));
}

fn push_line<S: for<'a> Fn(Shown<'a>) -> String>(plan: &LogicalPlan, buf: &mut String, depth: usize, is_last: bool, show: &S)
    requires
        shows(*show),
    ensures
        final(buf)@ == old(buf)@ + node_line(*plan, depth as nat, is_last, *show),
{
    reveal(node_line);
    push_branch(buf, depth, is_last);
    buf.append(format_op(&plan.op, show).as_str());
    buf.append("  [cost=");
    let total = plan.cost.total();
    push_shown(buf, Shown::Number(&total, 1), show);
    buf.append(", card=");
    push_shown(buf, Shown::Number(&plan.cardinality, 1), show);
    buf.append("]\n");
    assert(buf@ =~= old(buf)@ + node_line(*plan, depth as nat, is_last, *show));
}

fn explain_plan_recursive<S: for<'a> Fn(Shown<'a>) -> String>(
    plan: &LogicalPlan,
    buf: &mut String,
    depth: usize,
    is_last: bool,
    show: &S,
)
    requires
        shows(*show),
        depth + height(*plan) <= usize::MAX,
    ensures
        final(buf)@ == old(buf)@ + tree(*plan, depth as nat, is_last, *show),
    decreases plan,
{
    let ghost start = buf@;
    let ghost line = node_line(*plan, depth as nat, is_last, *show);
    push_line(plan, buf, depth, is_last, show);
    match &plan.op {
        LogicalOp::Join { left, right, .. } => {
            explain_plan_recursive(left, buf, depth + 1, false, show);
            explain_plan_recursive(right, buf, depth + 1, true, show);
            proof {
                let a = tree(**left, (depth + 1) as nat, false, *show);
                let b = tree(**right, (depth + 1) as nat, true, *show);
                lemma_regroup(start, line, a, b);
            }
        },
        LogicalOp::Union { left, right, .. } => {
            explain_plan_recursive(left, buf, depth + 1, false, show);
            explain_plan_recursive(right, buf, depth + 1, true, show);
            proof {
                let a = tree(**left, (depth + 1) as nat, false, *show);
                let b = tree(**right, (depth + 1) as nat, true, *show);
                lemma_regroup(start, line, a, b);
            }
        },
        _ => {},
    }
}

proof fn lemma_regroup(a: Seq<char>, b: Seq<char>, c: Seq<char>, d: Seq<char>)
    ensures
        a + b + c + d == a + (b + c + d),
{
    assert(a + b + c + d =~= a + (b + c + d));
}

/// Produce a human-readable tree visualization of a logical plan.
pub fn explain_plan<S: for<'a> Fn(Shown<'a>) -> String>(plan: &LogicalPlan, show: &S) -> (r: String)
    requires
        shows(*show),
        height(*plan) <= usize::MAX,
    ensures
        r@ == tree(*plan, 0, true, *show),
{
    let mut buf = String::new();
    explain_plan_recursive(plan, &mut buf, 0, true, show);
    assert(buf@ =~= tree(*plan, 0, true, *show));
    buf
}

/// Runtime profiling information attached to a plan node.
#[derive(Debug)]
pub struct PlanProfile {
    pub estimated_rows: Quantity,
    pub actual_rows: Option<u64>,
    pub execution_time_ms: Option<Quantity>,
}

impl PlanProfile {
    pub fn new(estimated_rows: Quantity) -> (r: Self)
        ensures
            r == (PlanProfile { estimated_rows, actual_rows: None, execution_time_ms: None }),
    {
        PlanProfile { estimated_rows, actual_rows: None, execution_time_ms: None }
    }

    /// Attach actual row count after execution.
    pub fn with_actual_rows(self, rows: u64) -> (r: Self)
        ensures
            r == (PlanProfile { actual_rows: Some(rows), ..self }),
    {
        PlanProfile {
            estimated_rows: self.estimated_rows,
            actual_rows: Some(rows),
            execution_time_ms: self.execution_time_ms,
        }
    }

    /// Attach execution time after execution.
    pub fn with_execution_time(self, ms: Quantity) -> (r: Self)
        ensures
            r == (PlanProfile { execution_time_ms: Some(ms), ..self }),
    {
        PlanProfile {
            estimated_rows: self.estimated_rows,
            actual_rows: self.actual_rows,
            execution_time_ms: Some(ms),
        }
    }

    /// Compute the ratio of actual to estimated rows (selectivity error).
    pub fn cardinality_error(&self) -> (r: Option<Quantity>)
        ensures
            r == match self.actual_rows {
                Some(n) => Some(
                    Quantity::quotient(Quantity::Count(n), Quantity::larger(self.estimated_rows, Quantity::Count(1))),
                ),
                None => None,
            },
    {
        match self.actual_rows {
            Some(n) => Some(Quantity::Count(n).over(self.estimated_rows.clone().at_least(Quantity::Count(1)))),
            None => None,
        }
    }
}

/// A plan node by its name, with its profile.
#[derive(Debug)]
pub struct ProfiledNode {
    pub name: String,
    pub profile: PlanProfile,
}

/// The nodes of a plan, each before its inputs.
pub open spec fn nodes_of(p: LogicalPlan) -> Seq<LogicalPlan>
    decreases p,
{
    match p.op {
        LogicalOp::Join { left, right, .. } => seq![p] + nodes_of(*left) + nodes_of(*right),
        LogicalOp::Union { left, right, .. } => seq![p] + nodes_of(*left) + nodes_of(*right),
        _ => seq![p],
    }
}

/// Whether profiles are those of nodes that have not run yet, one for one.
pub open spec fn profiles_nodes<S: for<'a> Fn(Shown<'a>) -> String>(
    profiles: Seq<ProfiledNode>,
    nodes: Seq<LogicalPlan>,
    show: S,
) -> bool {
    &&& profiles.len() == nodes.len()
    &&& forall|i: int|
        0 <= i < nodes.len() ==> {
            &&& (#[trigger] profiles[i]).name@ == op_text(nodes[i].op, show)
            &&& profiles[i].profile == (PlanProfile {
                estimated_rows: nodes[i].cardinality,
                actual_rows: None,
                execution_time_ms: None,
            })
        }
}

fn profile_recursive<S: for<'a> Fn(Shown<'a>) -> String>(plan: &LogicalPlan, out: &mut Vec<ProfiledNode>, show: &S)
    requires
        shows(*show),
    ensures
        old(out)@.len() <= final(out)@.len(),
        final(out)@.take(old(out)@.len() as int) == old(out)@,
        profiles_nodes(final(out)@.skip(old(out)@.len() as int), nodes_of(*plan), *show),
    decreases plan,
{
    let ghost start = out@;
    let n = ProfiledNode { name: format_op(&plan.op, show), profile: PlanProfile::new(plan.cardinality.clone()) };
    out.push(n);
    let ghost mine = out@;
    assert(mine.take(start.len() as int) =~= start);
    match &plan.op {
        LogicalOp::Join { left, right, .. } => {
            profile_recursive(left, out, show);
            let ghost mid = out@;
            profile_recursive(right, out, show);
            proof {
                lemma_profiles_append(start, mine, mid, out@, *plan, **left, **right, *show);
            }
        },
        LogicalOp::Union { left, right, .. } => {
            profile_recursive(left, out, show);
            let ghost mid = out@;
            profile_recursive(right, out, show);
            proof {
                lemma_profiles_append(start, mine, mid, out@, *plan, **left, **right, *show);
            }
        },
        _ => {
            assert(out@.take(start.len() as int) =~= start);
        },
    }
}

proof fn lemma_profiles_append<S: for<'a> Fn(Shown<'a>) -> String>(
    start: Seq<ProfiledNode>,
    mine: Seq<ProfiledNode>,
    mid: Seq<ProfiledNode>,
    end: Seq<ProfiledNode>,
    p: LogicalPlan,
    left: LogicalPlan,
    right: LogicalPlan,
    show: S,
)
    requires
        mine.len() == start.len() + 1,
        mine.take(start.len() as int) == start,
        profiles_nodes(mine.skip(start.len() as int), seq![p], show),
        mine.len() <= mid.len(),
        mid.take(mine.len() as int) == mine,
        profiles_nodes(mid.skip(mine.len() as int), nodes_of(left), show),
        mid.len() <= end.len(),
        end.take(mid.len() as int) == mid,
        profiles_nodes(end.skip(mid.len() as int), nodes_of(right), show),
    ensures
        end.take(start.len() as int) == start,
        profiles_nodes(end.skip(start.len() as int), seq![p] + nodes_of(left) + nodes_of(right), show),
{
    assert(end.take(start.len() as int) =~= end.take(mid.len() as int).take(mine.len() as int).take(start.len() as int));
    let all = end.skip(start.len() as int);
    let nodes = seq![p] + nodes_of(left) + nodes_of(right);
    let a = mid.skip(mine.len() as int);
    let b = end.skip(mid.len() as int);
    assert(all.len() == nodes.len());
    assert forall|i: int| 0 <= i < nodes.len() implies {
        &&& (#[trigger] all[i]).name@ == op_text(nodes[i].op, show)
        &&& all[i].profile == (PlanProfile {
            estimated_rows: nodes[i].cardinality,
            actual_rows: None,
            execution_time_ms: None,
        })
    } by {
        if i == 0 {
            assert(all[0] == end.take(mid.len() as int).take(mine.len() as int)[start.len() as int]);
            assert(mine.skip(start.len() as int)[0] == all[0]);
        } else if i < 1 + a.len() {
            assert(all[i] == end.take(mid.len() as int)[start.len() + i]);
            assert(a[i - 1] == all[i]);
            assert(nodes[i] == nodes_of(left)[i - 1]);
        } else {
            assert(b[i - 1 - a.len()] == all[i]);
            assert(nodes[i] == nodes_of(right)[i - 1 - a.len()]);
        }
    }
}

/// Annotate a plan tree with estimated-row profiling nodes.
pub fn profile_plan<S: for<'a> Fn(Shown<'a>) -> String>(plan: &LogicalPlan, show: &S) -> (r: Vec<ProfiledNode>)
    requires
        shows(*show),
    ensures
        profiles_nodes(r@, nodes_of(*plan), *show),
{
    let mut out: Vec<ProfiledNode> = Vec::new();
    profile_recursive(plan, &mut out, show);
    assert(out@.skip(0) =~= out@);
    out
}

/// The first `k` of some texts, one behind the other.
pub open spec fn in_a_row(texts: Seq<Seq<char>>, k: nat) -> Seq<char>
    decreases k,
{
    if k == 0 {
        Seq::empty()
    } else {
        in_a_row(texts, (k - 1) as nat) + texts[k - 1]
    }
}

proof fn lemma_in_a_row(a: Seq<Seq<char>>, b: Seq<Seq<char>>, k: nat)
    requires
        k <= b.len(),
    ensures
        in_a_row(a + b, a.len() + k) == in_a_row(a, a.len()) + in_a_row(b, k),
    decreases k,
{
    if k == 0 {
        lemma_row_start(a, b, a.len());
        assert(in_a_row(a, a.len()) + in_a_row(b, 0) =~= in_a_row(a, a.len()));
    } else {
        lemma_in_a_row(a, b, (k - 1) as nat);
        assert((a + b)[a.len() + k - 1] == b[k - 1]);
        assert(in_a_row(a, a.len()) + in_a_row(b, (k - 1) as nat) + b[k - 1] =~= in_a_row(a, a.len()) + (in_a_row(b, (k - 1) as nat)
            + b[k - 1]));
    }
}

proof fn lemma_row_start(a: Seq<Seq<char>>, b: Seq<Seq<char>>, k: nat)
    requires
        k <= a.len(),
    ensures
        in_a_row(a + b, k) == in_a_row(a, k),
    decreases k,
{
    if k > 0 {
        lemma_row_start(a, b, (k - 1) as nat);
        assert((a + b)[k - 1] == a[k - 1]);
    }
}

/// Whether texts are the lines of nodes, one for one, each at some depth that is no less than a given one.
pub open spec fn are_lines<S: for<'a> Fn(Shown<'a>) -> String>(
    texts: Seq<Seq<char>>,
    nodes: Seq<LogicalPlan>,
    depths: Seq<nat>,
    lasts: Seq<bool>,
    least: nat,
    show: S,
) -> bool {
    &&& texts.len() == nodes.len()
    &&& depths.len() == nodes.len()
    &&& lasts.len() == nodes.len()
    &&& forall|i: int|
        0 <= i < nodes.len() ==> #[trigger] texts[i] == node_line(nodes[i], depths[i], lasts[i], show) && depths[i] >= least
}

proof fn lemma_lines_join<S: for<'a> Fn(Shown<'a>) -> String>(
    p: LogicalPlan,
    depth: nat,
    is_last: bool,
    show: S,
    l: LogicalPlan,
    r: LogicalPlan,
    a: (Seq<Seq<char>>, Seq<nat>, Seq<bool>),
    b: (Seq<Seq<char>>, Seq<nat>, Seq<bool>),
) -> (c: (Seq<Seq<char>>, Seq<nat>, Seq<bool>))
    requires
        are_lines(a.0, nodes_of(l), a.1, a.2, depth + 1, show),
        are_lines(b.0, nodes_of(r), b.1, b.2, depth + 1, show),
    ensures
        are_lines(c.0, seq![p] + nodes_of(l) + nodes_of(r), c.1, c.2, depth, show),
        c.0[0] == node_line(p, depth, is_last, show),
        forall|i: int| 0 < i < c.1.len() ==> #[trigger] c.1[i] > depth,
        in_a_row(c.0, c.0.len()) == node_line(p, depth, is_last, show) + in_a_row(a.0, a.0.len()) + in_a_row(b.0, b.0.len()),
{
    let own = seq![node_line(p, depth, is_last, show)];
    let t = own + a.0 + b.0;
    let d = seq![depth] + a.1 + b.1;
    let e = seq![is_last] + a.2 + b.2;
    let nodes = seq![p] + nodes_of(l) + nodes_of(r);
    let k = a.0.len();
    assert forall|i: int| 0 <= i < nodes.len() implies #[trigger] t[i] == node_line(nodes[i], d[i], e[i], show) && d[i] >= depth && (i > 0
        ==> d[i] > depth) by {
        if 0 < i <= k {
            assert(t[i] == a.0[i - 1] && nodes[i] == nodes_of(l)[i - 1] && d[i] == a.1[i - 1] && e[i] == a.2[i - 1]);
        } else if i > k {
            assert(t[i] == b.0[i - 1 - k] && nodes[i] == nodes_of(r)[i - 1 - k] && d[i] == b.1[i - 1 - k] && e[i] == b.2[i - 1 - k]);
        }
    }
    assert forall|i: int| 0 < i < d.len() implies #[trigger] d[i] > depth by {
        assert(t[i] == node_line(nodes[i], d[i], e[i], show));
    }
    lemma_in_a_row(own + a.0, b.0, b.0.len());
    lemma_in_a_row(own, a.0, a.0.len());
    assert(in_a_row(own, 1) =~= own[0]) by {
        reveal_with_fuel(in_a_row, 2);
    }
    (t, d, e)
}

/// The tree of a plan holds the line of each of its nodes once, each before those of its inputs, and those
/// of the inputs deeper than its own.
pub proof fn trees_hold_a_line_for_each_node<S: for<'a> Fn(Shown<'a>) -> String>(
    p: LogicalPlan,
    depth: nat,
    is_last: bool,
    show: S,
) -> (c: (Seq<Seq<char>>, Seq<nat>, Seq<bool>))
    ensures
        are_lines(c.0, nodes_of(p), c.1, c.2, depth, show),
        c.0[0] == node_line(p, depth, is_last, show),
        forall|i: int| 0 < i < c.1.len() ==> #[trigger] c.1[i] > depth,
        tree(p, depth, is_last, show) == in_a_row(c.0, c.0.len()),
    decreases p,
{
    match p.op {
        LogicalOp::Join { left, right, .. } | LogicalOp::Union { left, right, .. } => {
            let a = trees_hold_a_line_for_each_node(*left, depth + 1, false, show);
            let b = trees_hold_a_line_for_each_node(*right, depth + 1, true, show);
            lemma_lines_join(p, depth, is_last, show, *left, *right, a, b)
        },
        _ => {
            let own = seq![node_line(p, depth, is_last, show)];
            assert(in_a_row(own, 1) =~= own[0]) by {
                reveal_with_fuel(in_a_row, 2);
            }
            (own, seq![depth], seq![is_last])
        },
    }
}

} // verus!
