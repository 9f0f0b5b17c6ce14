//! What expressions and plans mean: the values of expressions on a row, and the rows of a plan over a
//! graph.
use vstd::prelude::*;

use crate::division::{truncated_quotient, truncated_remainder};
use crate::planner::expression::{BinaryOp, Expr, UnaryOp};
use crate::planner::ids::{EdgeTypeId, LabelId, PropertyId};
use crate::planner::logical::{JoinKind, Op, Plan};
use crate::planner::physical::{Physical, Step};
use crate::planner::query::{Direction, NamedExpr, OrderKey};
use crate::planner::value::Value;
use crate::quantity::{compared, Compared, Quantity};
use crate::text::text_precedes;

verus! {

/// A value that a name may be bound to.
pub enum Datum {
    Null,
    Bool(bool),
    Int(i64),
    Double(Quantity),
    Text(Seq<char>),
    Vertex(u64),
    Edge(u64),
    List(Seq<Datum>),
    Mapping(Seq<(Seq<char>, Datum)>),
    Other(u8, Seq<char>),
}

/// The names that are bound, and what to.
pub type Row = Map<Seq<char>, Datum>;

/// An edge of a graph.
pub struct EdgeRecord {
    pub id: u64,
    pub from: u64,
    pub to: u64,
    pub edge_type: EdgeTypeId,
}

/// A graph, and what the language leaves to whoever runs a plan: how doubles compare, what functions
/// and tests of texts and lists give, and how rows are sorted and grouped.
pub struct World {
    pub vertices: Seq<u64>,
    pub edges: Seq<EdgeRecord>,
    pub labelled: spec_fn(u64, LabelId) -> bool,
    pub vertex_property: spec_fn(u64, PropertyId) -> Datum,
    pub edge_property: spec_fn(u64, PropertyId) -> Datum,
    pub order: spec_fn(Quantity, Quantity) -> Compared,
    pub call: spec_fn(Seq<char>, Seq<Datum>, bool) -> Option<Datum>,
    pub test: spec_fn(BinaryOp, Datum, Datum) -> Option<Datum>,
    pub other: spec_fn(Seq<char>, Row) -> Option<Datum>,
    pub name_of: spec_fn(Expr) -> Seq<char>,
    pub sort: spec_fn(Seq<OrderKey>, Seq<Row>) -> Seq<Row>,
    pub aggregate: spec_fn(Seq<NamedExpr>, Seq<NamedExpr>, Seq<Row>) -> Seq<Row>,
}

/// Whether doubles compare in a world as a comparison tells.
pub open spec fn compares_by<F: Fn(&Quantity, &Quantity) -> Compared>(w: World, compare: F) -> bool {
    forall|a: Quantity, b: Quantity| #[trigger] (w.order)(a, b) == compared(compare, a, b)
}

/// Both, where what is not known stays so unless the other is false.
pub open spec fn both(a: Datum, b: Datum) -> Option<Datum> {
    match (a, b) {
        (Datum::Bool(x), Datum::Bool(y)) => Some(Datum::Bool(x && y)),
        (Datum::Bool(x), Datum::Null) => Some(if x { Datum::Null } else { Datum::Bool(false) }),
        (Datum::Null, Datum::Bool(y)) => Some(if y { Datum::Null } else { Datum::Bool(false) }),
        (Datum::Null, Datum::Null) => Some(Datum::Null),
        _ => None,
    }
}

/// At least one of two, where what is not known stays so unless the other is true.
pub open spec fn either(a: Datum, b: Datum) -> Option<Datum> {
    match (a, b) {
        (Datum::Bool(x), Datum::Bool(y)) => Some(Datum::Bool(x || y)),
        (Datum::Bool(x), Datum::Null) => Some(if x { Datum::Bool(true) } else { Datum::Null }),
        (Datum::Null, Datum::Bool(y)) => Some(if y { Datum::Bool(true) } else { Datum::Null }),
        (Datum::Null, Datum::Null) => Some(Datum::Null),
        _ => None,
    }
}

/// A comparison of two values. Two nulls are equal and have no order; one null makes it unknown.
pub open spec fn comparison(w: World, op: BinaryOp, a: Datum, b: Datum) -> Option<Datum> {
    match (a, b) {
        (Datum::Null, Datum::Null) => Some(
            match op {
                BinaryOp::Eq => Datum::Bool(true),
                BinaryOp::Neq => Datum::Bool(false),
                _ => Datum::Null,
            },
        ),
        (Datum::Null, _) => Some(Datum::Null),
        (_, Datum::Null) => Some(Datum::Null),
        (Datum::Int(x), Datum::Int(y)) => Some(
            Datum::Bool(
                match op {
                    BinaryOp::Eq => x == y,
                    BinaryOp::Neq => x != y,
                    BinaryOp::Lt => x < y,
                    BinaryOp::Gt => x > y,
                    BinaryOp::Lte => x <= y,
                    _ => x >= y,
                },
            ),
        ),
        (Datum::Bool(x), Datum::Bool(y)) => Some(
            Datum::Bool(
                match op {
                    BinaryOp::Eq => x == y,
                    BinaryOp::Neq => x != y,
                    BinaryOp::Lt => !x && y,
                    BinaryOp::Gt => x && !y,
                    BinaryOp::Lte => !x || y,
                    _ => x || !y,
                },
            ),
        ),
        (Datum::Text(x), Datum::Text(y)) => Some(
            Datum::Bool(
                match op {
                    BinaryOp::Eq => x == y,
                    BinaryOp::Neq => x != y,
                    BinaryOp::Lt => text_precedes(x, y),
                    BinaryOp::Gt => text_precedes(y, x),
                    BinaryOp::Lte => !text_precedes(y, x),
                    _ => !text_precedes(x, y),
                },
            ),
        ),
        (Datum::Double(x), Datum::Double(y)) => Some(
            Datum::Bool(
                match op {
                    BinaryOp::Eq => (w.order)(x, y) is Equal,
                    BinaryOp::Neq => !((w.order)(x, y) is Equal),
                    BinaryOp::Lt => (w.order)(x, y) is Less,
                    BinaryOp::Gt => (w.order)(x, y) is Greater,
                    BinaryOp::Lte => (w.order)(x, y) is Less || (w.order)(x, y) is Equal,
                    _ => (w.order)(x, y) is Greater || (w.order)(x, y) is Equal,
                },
            ),
        ),
        _ => (w.test)(op, a, b),
    }
}

/// An operation on two integers; there is no result where it is not one of the machine's integers, or
/// where the divisor is zero.
pub open spec fn on_integers(op: BinaryOp, x: int, y: int) -> Option<Datum> {
    let n = match op {
        BinaryOp::Add => x + y,
        BinaryOp::Sub => x - y,
        BinaryOp::Mul => x * y,
        BinaryOp::Div => truncated_quotient(x, y),
        _ => truncated_remainder(x, y),
    };
    if (op is Div || op is Mod) && y == 0 {
        None
    } else if i64::MIN <= n <= i64::MAX {
        Some(Datum::Int(n as i64))
    } else {
        None
    }
}

/// An operation on two quantities, of which the second is zero or not.
pub open spec fn on_quantities(op: BinaryOp, x: Quantity, y: Quantity, zero: bool) -> Option<Datum> {
    match op {
        BinaryOp::Add => Some(Datum::Double(Quantity::Sum(Box::new(x), Box::new(y)))),
        BinaryOp::Sub => Some(Datum::Double(Quantity::Difference(Box::new(x), Box::new(y)))),
        BinaryOp::Mul => Some(Datum::Double(Quantity::Product(Box::new(x), Box::new(y)))),
        _ => if zero {
            None
        } else {
            Some(Datum::Double(Quantity::Quotient(Box::new(x), Box::new(y))))
        },
    }
}

/// An arithmetic operation on two values.
pub open spec fn arithmetic(w: World, op: BinaryOp, a: Datum, b: Datum) -> Option<Datum> {
    match (a, b) {
        (Datum::Int(x), Datum::Int(y)) => on_integers(op, x as int, y as int),
        (Datum::Int(x), Datum::Double(y)) => if op is Mod {
            (w.test)(op, a, b)
        } else {
            on_quantities(op, Quantity::Integer(x), y, (w.order)(y, Quantity::Count(0)) is Equal)
        },
        (Datum::Double(x), Datum::Int(y)) => if op is Mod {
            (w.test)(op, a, b)
        } else {
            on_quantities(op, x, Quantity::Integer(y), y == 0)
        },
        (Datum::Double(x), Datum::Double(y)) => if op is Mod {
            (w.test)(op, a, b)
        } else {
            on_quantities(op, x, y, (w.order)(y, Quantity::Count(0)) is Equal)
        },
        _ => (w.test)(op, a, b),
    }
}

/// The value of an operator on two values.
pub open spec fn binary_value(w: World, op: BinaryOp, a: Datum, b: Datum) -> Option<Datum> {
    match op {
        BinaryOp::And => both(a, b),
        BinaryOp::Or => either(a, b),
        BinaryOp::Eq | BinaryOp::Neq | BinaryOp::Lt | BinaryOp::Gt | BinaryOp::Lte | BinaryOp::Gte => comparison(w, op, a, b),
        BinaryOp::Add | BinaryOp::Sub | BinaryOp::Mul | BinaryOp::Div | BinaryOp::Mod => arithmetic(w, op, a, b),
        _ => (w.test)(op, a, b),
    }
}

/// The value of an operator on one value.
pub open spec fn unary_value(op: UnaryOp, a: Datum) -> Option<Datum> {
    match op {
        UnaryOp::Not => match a {
            Datum::Bool(b) => Some(Datum::Bool(!b)),
            Datum::Null => Some(Datum::Null),
            _ => None,
        },
        UnaryOp::Neg => match a {
            Datum::Int(n) => if n == i64::MIN {
                None
            } else {
                Some(Datum::Int((0 - n) as i64))
            },
            Datum::Double(q) => Some(Datum::Double(Quantity::Negated(Box::new(q)))),
            Datum::Null => Some(Datum::Null),
            _ => None,
        },
        UnaryOp::IsNull => Some(Datum::Bool(a is Null)),
        UnaryOp::IsNotNull => Some(Datum::Bool(!(a is Null))),
    }
}

/// The property of a vertex or of an edge.
pub open spec fn property_value(w: World, a: Datum, key: PropertyId) -> Option<Datum> {
    match a {
        Datum::Vertex(v) => Some((w.vertex_property)(v, key)),
        Datum::Edge(e) => Some((w.edge_property)(e, key)),
        Datum::Null => Some(Datum::Null),
        _ => None,
    }
}

/// Whether a vertex has a label.
pub open spec fn label_value(w: World, a: Datum, label: LabelId) -> Option<Datum> {
    match a {
        Datum::Vertex(v) => Some(Datum::Bool((w.labelled)(v, label))),
        Datum::Null => Some(Datum::Null),
        _ => None,
    }
}

/// Values that are all there.
pub open spec fn all_there(s: Seq<Option<Datum>>) -> bool {
    forall|i: int| 0 <= i < s.len() ==> #[trigger] s[i] is Some
}

/// The first of some cases, from a position on, that is true or, where a value is looked for, equals it.
pub open spec fn first_case(w: World, head: Option<Datum>, whens: Seq<(Datum, Datum)>, otherwise: Datum, i: int) -> Datum
    decreases whens.len() - i,
{
    if i < 0 || i >= whens.len() {
        otherwise
    } else {
        let holds = match head {
            Some(h) => comparison(w, BinaryOp::Eq, h, whens[i].0) == Some(Datum::Bool(true)),
            None => whens[i].0 == Datum::Bool(true),
        };
        if holds {
            whens[i].1
        } else {
            first_case(w, head, whens, otherwise, i + 1)
        }
    }
}

/// The values of some expressions on a row.
pub open spec fn values_of(w: World, s: Seq<Expr>, row: Row) -> Seq<Option<Datum>>
    decreases s,
{
    Seq::new(s.len(), |i: int| if 0 <= i < s.len() { value_of(w, s[i], row) } else { None })
}

/// The values of the entries of a map on a row.
pub open spec fn entry_values(w: World, s: Seq<(Seq<char>, Expr)>, row: Row) -> Seq<Option<Datum>>
    decreases s,
{
    Seq::new(s.len(), |i: int| if 0 <= i < s.len() { value_of(w, s[i].1, row) } else { None })
}

/// The values that some cases ask for on a row.
pub open spec fn when_values(w: World, s: Seq<(Expr, Expr)>, row: Row) -> Seq<Option<Datum>>
    decreases s,
{
    Seq::new(s.len(), |i: int| if 0 <= i < s.len() { value_of(w, s[i].0, row) } else { None })
}

/// The values that some cases lead to on a row.
pub open spec fn branch_values(w: World, s: Seq<(Expr, Expr)>, row: Row) -> Seq<Option<Datum>>
    decreases s,
{
    Seq::new(s.len(), |i: int| if 0 <= i < s.len() { value_of(w, s[i].1, row) } else { None })
}

/// The value of an expression on a row; it has one where each of its parts has.
pub open spec fn value_of(w: World, e: Expr, row: Row) -> Option<Datum>
    decreases e,
{
    match e {
        Expr::Null => Some(Datum::Null),
        Expr::Bool(b) => Some(Datum::Bool(b)),
        Expr::Int(n) => Some(Datum::Int(n)),
        Expr::Double(q) => Some(Datum::Double(q)),
        Expr::Text(s) => Some(Datum::Text(s)),
        Expr::Identifier(name) => if row.contains_key(name) {
            Some(row[name])
        } else {
            None
        },
        Expr::Property(object, key) => match value_of(w, *object, row) {
            Some(a) => property_value(w, a, key),
            None => None,
        },
        Expr::Label(object, label) => match value_of(w, *object, row) {
            Some(a) => label_value(w, a, label),
            None => None,
        },
        Expr::Function(name, arguments, distinct) => {
            let s = values_of(w, arguments, row);
            if all_there(s) {
                (w.call)(name, s.map_values(|o: Option<Datum>| o->0), distinct)
            } else {
                None
            }
        },
        Expr::CountStar => None,
        Expr::List(items) => {
            let s = values_of(w, items, row);
            if all_there(s) {
                Some(Datum::List(s.map_values(|o: Option<Datum>| o->0)))
            } else {
                None
            }
        },
        Expr::MapLiteral(entries) => {
            let s = entry_values(w, entries, row);
            if all_there(s) {
                Some(Datum::Mapping(Seq::new(entries.len(), |i: int| (entries[i].0, s[i]->0))))
            } else {
                None
            }
        },
        Expr::Case(expression, whens, else_branch) => {
            let head = match expression {
                Some(x) => value_of(w, *x, row),
                None => None,
            };
            let tail = match else_branch {
                Some(x) => value_of(w, *x, row),
                None => Some(Datum::Null),
            };
            let a = when_values(w, whens, row);
            let b = branch_values(w, whens, row);
            if (expression is Some ==> head is Some) && tail is Some && all_there(a) && all_there(b) {
                Some(first_case(w, head, Seq::new(whens.len(), |i: int| (a[i]->0, b[i]->0)), tail->0, 0))
            } else {
                None
            }
        },
        Expr::Binary(op, l, r) => match (value_of(w, *l, row), value_of(w, *r, row)) {
            (Some(a), Some(b)) => binary_value(w, op, a, b),
            _ => None,
        },
        Expr::Unary(op, x) => match value_of(w, *x, row) {
            Some(a) => unary_value(op, a),
            None => None,
        },
        Expr::Other(text) => (w.other)(text, row),
    }
}

/// Whether a condition is true on a row.
pub open spec fn holds(w: World, condition: Expr, row: Row) -> bool {
    value_of(w, condition, row) == Some(Datum::Bool(true))
}

/// The value that a scan looks for.
pub open spec fn datum_of(v: Value) -> Datum {
    match v {
        Value::Null => Datum::Null,
        Value::Bool(b) => Datum::Bool(b),
        Value::Int(n) => Datum::Int(n),
        Value::Double(q) => Datum::Double(q),
        Value::Text(s) => Datum::Text(s),
        Value::Other(tag, text) => Datum::Other(tag, text),
    }
}

/// Whether two values are equal.
pub open spec fn equal(w: World, a: Datum, b: Datum) -> bool {
    comparison(w, BinaryOp::Eq, a, b) == Some(Datum::Bool(true))
}

/// The row that binds one name, if there is a name.
pub open spec fn row_with(alias: Option<Seq<char>>, d: Datum) -> Row {
    match alias {
        Some(name) => Map::<Seq<char>, Datum>::empty().insert(name, d),
        None => Map::empty(),
    }
}

/// Whether two rows agree on the names that both bind.
pub open spec fn agree(a: Row, b: Row) -> bool {
    forall|name: Seq<char>| #[trigger] a.contains_key(name) && b.contains_key(name) ==> a[name] == b[name]
}

/// A row for each of the vertices that are kept.
pub open spec fn vertex_rows(w: World, alias: Option<Seq<char>>, keep: spec_fn(u64) -> bool) -> Seq<Row> {
    w.vertices.filter(keep).map_values(|v: u64| row_with(alias, Datum::Vertex(v)))
}

/// A row for each of the edges that are kept.
pub open spec fn edge_rows(w: World, alias: Option<Seq<char>>, keep: spec_fn(EdgeRecord) -> bool) -> Seq<Row> {
    w.edges.filter(keep).map_values(|e: EdgeRecord| row_with(alias, Datum::Edge(e.id)))
}

/// A row for each vertex, with no name bound.
pub open spec fn bare_rows(w: World) -> Seq<Row> {
    vertex_rows(w, None, |v: u64| true)
}

/// Whether an edge leads from one vertex to another, followed in a direction.
pub open spec fn leads(e: EdgeRecord, direction: Direction, from: u64, to: u64) -> bool {
    match direction {
        Direction::Right => e.from == from && e.to == to,
        Direction::Left => e.to == from && e.from == to,
        Direction::Either => (e.from == from && e.to == to) || (e.to == from && e.from == to),
    }
}

/// Whether an edge is of a type, if one is asked for.
pub open spec fn typed(e: EdgeRecord, edge_type: Option<EdgeTypeId>) -> bool {
    match edge_type {
        Some(t) => e.edge_type == t,
        None => true,
    }
}

/// A row with an edge, and the vertex that it leads to, bound to the names that there are.
pub open spec fn row_along(row: Row, edge_alias: Option<Seq<char>>, to_alias: Option<Seq<char>>, edge: u64, to: u64) -> Row {
    row.union_prefer_right(row_with(edge_alias, Datum::Edge(edge))).union_prefer_right(row_with(to_alias, Datum::Vertex(to)))
}

/// Whether an edge and a vertex may be bound in a row: what is bound already is not bound otherwise.
pub open spec fn fits_row(row: Row, edge_alias: Option<Seq<char>>, to_alias: Option<Seq<char>>, edge: u64, to: u64) -> bool {
    let first = row.union_prefer_right(row_with(edge_alias, Datum::Edge(edge)));
    agree(row, row_with(edge_alias, Datum::Edge(edge))) && agree(first, row_with(to_alias, Datum::Vertex(to)))
}

/// What is asked of an expansion.
pub struct Expansion {
    pub from: Seq<char>,
    pub edge_alias: Option<Seq<char>>,
    pub to_alias: Option<Seq<char>>,
    pub direction: Direction,
    pub edge_type: Option<EdgeTypeId>,
}

/// Whether a row leads to another along an edge to a vertex.
pub open spec fn extends_row(x: Expansion, row: Row, e: EdgeRecord, to: u64) -> bool {
    &&& row.contains_key(x.from)
    &&& row[x.from] is Vertex
    &&& typed(e, x.edge_type)
    &&& leads(e, x.direction, row[x.from]->Vertex_0, to)
    &&& fits_row(row, x.edge_alias, x.to_alias, e.id, to)
}

/// The rows that a row leads to along one edge: to its end, and to its start if that is another vertex.
pub open spec fn along_edge(x: Expansion, row: Row, e: EdgeRecord) -> Seq<Row> {
    let there = if extends_row(x, row, e, e.to) {
        seq![row_along(row, x.edge_alias, x.to_alias, e.id, e.to)]
    } else {
        Seq::empty()
    };
    let back = if e.from != e.to && extends_row(x, row, e, e.from) {
        seq![row_along(row, x.edge_alias, x.to_alias, e.id, e.from)]
    } else {
        Seq::empty()
    };
    there + back
}

/// The rows that a row leads to along the first `n` edges.
pub open spec fn along_edges(w: World, x: Expansion, row: Row, n: nat) -> Seq<Row>
    decreases n,
{
    if n == 0 || n > w.edges.len() {
        Seq::empty()
    } else {
        along_edges(w, x, row, (n - 1) as nat) + along_edge(x, row, w.edges[n - 1])
    }
}

/// The rows that the first `n` of some rows lead to.
pub open spec fn expanded(w: World, x: Expansion, rows: Seq<Row>, n: nat) -> Seq<Row>
    decreases n,
{
    if n == 0 || n > rows.len() {
        Seq::empty()
    } else {
        expanded(w, x, rows, (n - 1) as nat) + along_edges(w, x, rows[n - 1], w.edges.len())
    }
}

/// The name that an item is given.
pub open spec fn item_name(w: World, item: NamedExpr) -> Seq<char> {
    match item.alias {
        Some(name) => name,
        None => match item.expression {
            Expr::Identifier(name) => name,
            _ => (w.name_of)(item.expression),
        },
    }
}

/// The row that binds the first `n` of some items to their values.
pub open spec fn produced(w: World, items: Seq<NamedExpr>, row: Row, n: nat) -> Row
    decreases n,
{
    if n == 0 || n > items.len() {
        Map::empty()
    } else {
        let value = match value_of(w, items[n - 1].expression, row) {
            Some(d) => d,
            None => Datum::Null,
        };
        produced(w, items, row, (n - 1) as nat).insert(item_name(w, items[n - 1]), value)
    }
}

/// Expressions without names of their own.
pub open spec fn unnamed(expressions: Seq<Expr>) -> Seq<NamedExpr> {
    expressions.map_values(|e: Expr| NamedExpr { expression: e, alias: None })
}

/// The first rows of some rows.
pub open spec fn first_rows(rows: Seq<Row>, count: usize) -> Seq<Row> {
    rows.take(if count <= rows.len() { count as int } else { rows.len() as int })
}

/// Some rows but for the first.
pub open spec fn later_rows(rows: Seq<Row>, count: usize) -> Seq<Row> {
    rows.skip(if count <= rows.len() { count as int } else { rows.len() as int })
}

/// Some rows, each once, where it first stands.
pub open spec fn without_repeats(rows: Seq<Row>) -> Seq<Row>
    decreases rows.len(),
{
    if rows.len() == 0 {
        rows
    } else {
        let before = without_repeats(rows.drop_last());
        if before.contains(rows.last()) {
            before
        } else {
            before.push(rows.last())
        }
    }
}

/// Some rows grouped. To group by nothing and to aggregate nothing is to drop repeated rows.
pub open spec fn grouped(w: World, group_by: Seq<NamedExpr>, aggregates: Seq<NamedExpr>, rows: Seq<Row>) -> Seq<Row> {
    if group_by.len() == 0 && aggregates.len() == 0 {
        without_repeats(rows)
    } else {
        (w.aggregate)(group_by, aggregates, rows)
    }
}

/// Whether the keys of a join agree on two rows. A key that both sides share is among the names on which
/// they agree anyway.
pub open spec fn keys_agree(kind: JoinKind, a: Row, b: Row) -> bool {
    match kind {
        JoinKind::NestedLoop => true,
        JoinKind::HashJoin(l, r) => l == r || (a.contains_key(l) && b.contains_key(r) && a[l] == b[r]),
    }
}

/// A row joined with those of the first `n` rows that go with it.
pub open spec fn row_joined(kind: JoinKind, a: Row, rows: Seq<Row>, n: nat) -> Seq<Row>
    decreases n,
{
    if n == 0 || n > rows.len() {
        Seq::empty()
    } else {
        let before = row_joined(kind, a, rows, (n - 1) as nat);
        if agree(a, rows[n - 1]) && keys_agree(kind, a, rows[n - 1]) {
            before.push(a.union_prefer_right(rows[n - 1]))
        } else {
            before
        }
    }
}

/// The first `n` rows of a plan, each joined with the rows of another that go with it.
pub open spec fn joined(kind: JoinKind, left: Seq<Row>, right: Seq<Row>, n: nat) -> Seq<Row>
    decreases n,
{
    if n == 0 || n > left.len() {
        Seq::empty()
    } else {
        joined(kind, left, right, (n - 1) as nat) + row_joined(kind, left[n - 1], right, right.len())
    }
}

/// Whether an operator works on the rows of a plan to its left.
pub open spec fn takes_input(op: Op) -> bool {
    match op {
        Op::Produce(_) | Op::Project(_) | Op::Sort(_) | Op::Limit(_) | Op::Skip(_) | Op::TopN(_, _) | Op::Filter(_) => true,
        Op::Distinct | Op::EdgeExpand { .. } | Op::Aggregate(_, _) => true,
        _ => false,
    }
}

/// What an operator makes of some rows.
pub open spec fn applied(w: World, op: Op, rows: Seq<Row>) -> Seq<Row> {
    match op {
        Op::Produce(items) => rows.map_values(|row: Row| produced(w, items, row, items.len())),
        Op::Project(expressions) => rows.map_values(
            |row: Row| produced(w, unnamed(expressions), row, unnamed(expressions).len()),
        ),
        Op::Sort(key) => (w.sort)(key, rows),
        Op::Limit(count) => first_rows(rows, count),
        Op::Skip(count) => later_rows(rows, count),
        Op::TopN(key, count) => first_rows((w.sort)(key, rows), count),
        Op::Filter(condition) => rows.filter(|row: Row| holds(w, condition, row)),
        Op::Distinct => without_repeats(rows),
        Op::EdgeExpand { from_alias, edge_alias, to_alias, direction, edge_type } => expanded(
            w,
            Expansion { from: from_alias, edge_alias, to_alias, direction, edge_type },
            rows,
            rows.len(),
        ),
        Op::Aggregate(group_by, aggregates) => grouped(w, group_by, aggregates, rows),
        _ => rows,
    }
}

/// The rows of an operator that finds them itself.
pub open spec fn found_rows(w: World, op: Op) -> Seq<Row> {
    match op {
        Op::AllScan(alias) => vertex_rows(w, alias, |v: u64| true),
        Op::LabelScan(alias, label) => vertex_rows(w, alias, |v: u64| (w.labelled)(v, label)),
        Op::LabelPropertyScan(alias, label, property, value) => vertex_rows(
            w,
            alias,
            |v: u64| (w.labelled)(v, label) && equal(w, (w.vertex_property)(v, property), datum_of(value)),
        ),
        Op::EdgeTypeScan(alias, edge_type) => edge_rows(w, alias, |e: EdgeRecord| e.edge_type == edge_type),
        Op::EdgeTypePropertyScan(alias, edge_type, property, value) => edge_rows(
            w,
            alias,
            |e: EdgeRecord| e.edge_type == edge_type && equal(w, (w.edge_property)(e.id, property), datum_of(value)),
        ),
        _ => Seq::empty(),
    }
}

/// The rows of a plan. The right side of a join works on the rows of the left side where it takes an
/// input, and is joined with them where it does not. An operator that takes an input and stands by itself
/// works on a row for each vertex.
pub open spec fn rows_of(w: World, p: Plan) -> Seq<Row>
    decreases p,
{
    match p.op {
        Op::Join(l, r, kind) => if takes_input(r.op) {
            applied(w, r.op, rows_of(w, *l))
        } else {
            joined(kind, rows_of(w, *l), rows_of(w, *r), rows_of(w, *l).len())
        },
        Op::Union(l, r, all) => if all {
            rows_of(w, *l) + rows_of(w, *r)
        } else {
            without_repeats(rows_of(w, *l) + rows_of(w, *r))
        },
        _ => if takes_input(p.op) {
            applied(w, p.op, bare_rows(w))
        } else {
            found_rows(w, p.op)
        },
    }
}

/// The rows of a physical plan.
pub open spec fn rows_of_step(w: World, p: Physical) -> Seq<Row>
    decreases p,
{
    match p.op {
        Step::SeqScan(alias, label) => vertex_rows(
            w,
            alias,
            |v: u64|
                match label {
                    Some(l) => (w.labelled)(v, l),
                    None => true,
                },
        ),
        Step::IndexScan(alias, label, property, value) => vertex_rows(
            w,
            alias,
            |v: u64| (w.labelled)(v, label) && equal(w, (w.vertex_property)(v, property), datum_of(value)),
        ),
        Step::IndexSeek(alias, label, property, value) => vertex_rows(
            w,
            alias,
            |v: u64| (w.labelled)(v, label) && equal(w, (w.vertex_property)(v, property), datum_of(value)),
        ),
        Step::EdgeTypeScan(alias, edge_type) => edge_rows(w, alias, |e: EdgeRecord| e.edge_type == edge_type),
        Step::EdgeTypePropertyScan(alias, edge_type, property, value) => edge_rows(
            w,
            alias,
            |e: EdgeRecord| e.edge_type == edge_type && equal(w, (w.edge_property)(e.id, property), datum_of(value)),
        ),
        Step::HashJoin(l, r, a, b) => joined(
            JoinKind::HashJoin(a, b),
            rows_of_step(w, *l),
            rows_of_step(w, *r),
            rows_of_step(w, *l).len(),
        ),
        Step::NestedLoopJoin(l, r) => joined(JoinKind::NestedLoop, rows_of_step(w, *l), rows_of_step(w, *r), rows_of_step(w, *l).len()),
        Step::IndexNestedLoopJoin(l, r, key) => joined(
            JoinKind::HashJoin(key, key),
            rows_of_step(w, *l),
            rows_of_step(w, *r),
            rows_of_step(w, *l).len(),
        ),
        Step::SortMergeJoin(l, r, a, b) => joined(
            JoinKind::HashJoin(a, b),
            rows_of_step(w, *l),
            rows_of_step(w, *r),
            rows_of_step(w, *l).len(),
        ),
        Step::Filter(condition, child) => rows_of_step(w, *child).filter(|row: Row| holds(w, condition, row)),
        Step::Project(expressions, child) => rows_of_step(w, *child).map_values(
            |row: Row| produced(w, unnamed(expressions), row, unnamed(expressions).len()),
        ),
        Step::Produce(items, child) => rows_of_step(w, *child).map_values(|row: Row| produced(w, items, row, items.len())),
        Step::Sort(key, child) => (w.sort)(key, rows_of_step(w, *child)),
        Step::Limit(count, child) => first_rows(rows_of_step(w, *child), count),
        Step::Skip(count, child) => later_rows(rows_of_step(w, *child), count),
        Step::Aggregate(group_by, aggregates, child) => grouped(w, group_by, aggregates, rows_of_step(w, *child)),
        Step::HashAggregate(group_by, aggregates, child) => grouped(w, group_by, aggregates, rows_of_step(w, *child)),
        Step::StreamingAggregate(group_by, aggregates, child) => grouped(w, group_by, aggregates, rows_of_step(w, *child)),
        Step::TopN(key, count, child) => first_rows((w.sort)(key, rows_of_step(w, *child)), count),
        Step::EdgeExpand { from_alias, edge_alias, to_alias, direction, edge_type, child } => expanded(
            w,
            Expansion { from: from_alias, edge_alias, to_alias, direction, edge_type },
            rows_of_step(w, *child),
            rows_of_step(w, *child).len(),
        ),
        Step::Distinct(child) => without_repeats(rows_of_step(w, *child)),
    }
}

} // verus!
