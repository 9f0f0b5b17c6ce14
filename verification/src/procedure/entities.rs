//! Vertices, edges and paths, and the iterations over them.
//!
//! What the storage holds of a vertex or an edge comes in as a snapshot; there is none of what was
//! deleted. Changes go out through a function that writes to the storage and tells whether it did.
use vstd::prelude::*;

use crate::procedure::codes::MgpError;
use crate::procedure::collections::{access_error, position_after};
use crate::procedure::memory::mgp_memory;
use crate::procedure::property::{
    as_stored, as_value, find_property, held_text, hold_text, mgp_value_to_property_value, named_views, property_at, property_value_to_mgp_value,
    NamedValue, PropertyValue, Stored,
};
use crate::procedure::value::{
    flag, mgp_edge, mgp_map, mgp_path, mgp_value, mgp_vertex, opt_view, to_flag, Trail, Val,
};

verus! {

/// A graph, by its address, which is not zero.
#[derive(Clone, Copy, Debug, PartialEq, Eq, Structural)]
pub struct mgp_graph {
    pub address: u64,
}

#[derive(Clone, Copy, Debug, PartialEq, Eq, Structural)]
pub struct mgp_vertex_id {
    pub as_int: i64,
}

#[derive(Clone, Copy, Debug, PartialEq, Eq, Structural)]
pub struct mgp_edge_id {
    pub as_int: i64,
}

/// The name of a label; there may be none.
#[derive(Debug)]
pub struct mgp_label {
    pub name: Option<String>,
}

/// The name of an edge type; there may be none.
#[derive(Debug)]
pub struct mgp_edge_type {
    pub name: Option<String>,
}

/// What the storage holds of a vertex.
#[derive(Debug)]
pub struct VertexSnapshot {
    pub labels: Vec<String>,
    pub properties: Vec<NamedValue>,
}

/// What the storage holds of an edge.
#[derive(Debug)]
pub struct EdgeSnapshot {
    pub edge_type: String,
    pub from_vertex: u64,
    pub to_vertex: u64,
    pub properties: Vec<NamedValue>,
}

/// The labels of a vertex, by name.
pub open spec fn label_names(s: VertexSnapshot) -> Seq<Seq<char>> {
    Seq::new(s.labels@.len(), |i: int| s.labels@[i]@)
}

/// The signed number with the same bits.
pub open spec fn signed(n: u64) -> i64 {
    if n <= i64::MAX {
        n as i64
    } else {
        (n - 0x1_0000_0000_0000_0000) as i64
    }
}

/// The unsigned number with the same bits.
pub open spec fn unsigned(n: i64) -> u64 {
    if n >= 0 {
        n as u64
    } else {
        (n + 0x1_0000_0000_0000_0000) as u64
    }
}

/// The number of a vertex or an edge survives the way out and back.
pub proof fn ids_survive(n: u64, m: i64)
    ensures
        unsigned(signed(n)) == n,
        signed(unsigned(m)) == m,
{
}

fn to_signed(n: u64) -> (r: i64)
    ensures
        r == signed(n),
{
    if n <= 0x7fff_ffff_ffff_ffff {
        n as i64
    } else {
        let m: i64 = (0xffff_ffff_ffff_ffff - n) as i64;
        -m - 1
    }
}

fn to_unsigned(n: i64) -> (r: u64)
    ensures
        r == unsigned(n),
{
    if n >= 0 {
        n as u64
    } else {
        let m: u64 = (-(n + 1)) as u64;
        0xffff_ffff_ffff_ffff - m
    }
}

/// What a call answers that only lacks arguments.
pub open spec fn given(missing: bool) -> MgpError {
    if missing {
        MgpError::InvalidArgument
    } else {
        MgpError::NoError
    }
}

/// What a call answers that needs what the storage holds.
pub open spec fn held(missing: bool, there: bool) -> MgpError {
    if missing {
        MgpError::InvalidArgument
    } else if there {
        MgpError::NoError
    } else {
        MgpError::DeletedObject
    }
}

/// What a change answers, once the storage has told whether it made it.
pub open spec fn changed(done: bool) -> MgpError {
    if done {
        MgpError::NoError
    } else {
        MgpError::LogicError
    }
}

/// Tells whether a graph can be changed: it can.
pub fn mgp_graph_is_mutable(_g: Option<&mgp_graph>, result: Option<&mut i32>) -> (e: MgpError)
    ensures
        e == given(result is None),
        result matches Some(r) ==> *final(r) == 1,
{
    match result {
        Some(r) => {
            *r = 1;
            MgpError::NoError
        },
        None => MgpError::InvalidArgument,
    }
}

/// Tells whether changes to a graph are transactional: they are.
pub fn mgp_graph_is_transactional(_g: Option<&mgp_graph>, result: Option<&mut i32>) -> (e: MgpError)
    ensures
        e == given(result is None),
        result matches Some(r) ==> *final(r) == 1,
{
    match result {
        Some(r) => {
            *r = 1;
            MgpError::NoError
        },
        None => MgpError::InvalidArgument,
    }
}

/// Tells whether a graph has a text index of a name: none is known here.
pub fn mgp_graph_has_text_index(_g: Option<&mgp_graph>, _name: Option<&str>, result: Option<&mut i32>) -> (e: MgpError)
    ensures
        e == given(result is None),
        result matches Some(r) ==> *final(r) == 0,
{
    match result {
        Some(r) => {
            *r = 0;
            MgpError::NoError
        },
        None => MgpError::InvalidArgument,
    }
}

/// Tells whether a procedure should stop: it need not.
pub fn mgp_must_abort(_g: Option<&mgp_graph>, result: Option<&mut i32>) -> (e: MgpError)
    ensures
        e == given(result is None),
        result matches Some(r) ==> *final(r) == 0,
{
    match result {
        Some(r) => {
            *r = 0;
            MgpError::NoError
        },
        None => MgpError::InvalidArgument,
    }
}

/// Tells whether the graph of a vertex can be changed: it can.
pub fn mgp_vertex_underlying_graph_is_mutable(_v: Option<&mgp_vertex>, result: Option<&mut i32>) -> (e: MgpError)
    ensures
        e == given(result is None),
        result matches Some(r) ==> *final(r) == 1,
{
    match result {
        Some(r) => {
            *r = 1;
            MgpError::NoError
        },
        None => MgpError::InvalidArgument,
    }
}

/// Tells whether the graph of an edge can be changed: it can.
pub fn mgp_edge_underlying_graph_is_mutable(_e: Option<&mgp_edge>, result: Option<&mut i32>) -> (e: MgpError)
    ensures
        e == given(result is None),
        result matches Some(r) ==> *final(r) == 1,
{
    match result {
        Some(r) => {
            *r = 1;
            MgpError::NoError
        },
        None => MgpError::InvalidArgument,
    }
}

/// Tells whether the graph of an iteration can be changed: it can.
pub fn mgp_vertices_iterator_underlying_graph_is_mutable(_it: Option<&mgp_vertices_iterator>, result: Option<&mut i32>) -> (e: MgpError)
    ensures
        e == given(result is None),
        result matches Some(r) ==> *final(r) == 1,
{
    match result {
        Some(r) => {
            *r = 1;
            MgpError::NoError
        },
        None => MgpError::InvalidArgument,
    }
}

/// Tells whether the graph of an iteration can be changed: it can.
pub fn mgp_edges_iterator_underlying_graph_is_mutable(_it: Option<&mgp_edges_iterator>, result: Option<&mut i32>) -> (e: MgpError)
    ensures
        e == given(result is None),
        result matches Some(r) ==> *final(r) == 1,
{
    match result {
        Some(r) => {
            *r = 1;
            MgpError::NoError
        },
        None => MgpError::InvalidArgument,
    }
}

/// Tells the number of vertices, as the storage counts them.
pub fn mgp_graph_approximate_vertex_count(g: Option<&mgp_graph>, counted: u64, result: Option<&mut u64>) -> (e: MgpError)
    ensures
        e == given(g is None || result is None),
        result matches Some(r) ==> *final(r) == if g is Some {
            counted
        } else {
            *r
        },
{
    match (g, result) {
        (Some(_), Some(r)) => {
            *r = counted;
            MgpError::NoError
        },
        _ => MgpError::InvalidArgument,
    }
}

/// Tells the number of edges, as the storage counts them.
pub fn mgp_graph_approximate_edge_count(g: Option<&mgp_graph>, counted: u64, result: Option<&mut u64>) -> (e: MgpError)
    ensures
        e == given(g is None || result is None),
        result matches Some(r) ==> *final(r) == if g is Some {
            counted
        } else {
            *r
        },
{
    match (g, result) {
        (Some(_), Some(r)) => {
            *r = counted;
            MgpError::NoError
        },
        _ => MgpError::InvalidArgument,
    }
}

/// Finds a vertex by its number, once the storage has told whether it is there.
pub fn mgp_graph_get_vertex_by_id(
    g: Option<&mgp_graph>,
    id: mgp_vertex_id,
    there: bool,
    _memory: Option<&mgp_memory>,
    result: Option<&mut Option<mgp_vertex>>,
) -> (e: MgpError)
    ensures
        e == given(g is None || result is None),
        result matches Some(r) ==> *final(r) == match g {
            Some(graph) => if there {
                Some(mgp_vertex { gid: unsigned(id.as_int), graph: graph.address })
            } else {
                None
            },
            None => *r,
        },
{
    match (g, result) {
        (Some(graph), Some(r)) => {
            *r = if there {
                Some(mgp_vertex { gid: to_unsigned(id.as_int), graph: graph.address })
            } else {
                None
            };
            MgpError::NoError
        },
        _ => MgpError::InvalidArgument,
    }
}

/// Hands out a vertex that the storage has made, or not.
pub fn mgp_graph_create_vertex(
    g: Option<&mgp_graph>,
    made: Option<u64>,
    _memory: Option<&mgp_memory>,
    result: Option<&mut Option<mgp_vertex>>,
) -> (e: MgpError)
    ensures
        e == if g is None || result is None {
            MgpError::InvalidArgument
        } else {
            changed(made is Some)
        },
        result matches Some(r) ==> *final(r) == match (g, made) {
            (Some(graph), Some(gid)) => Some(mgp_vertex { gid, graph: graph.address }),
            (Some(graph), None) => None,
            _ => *r,
        },
{
    match (g, result) {
        (Some(graph), Some(r)) => match made {
            Some(gid) => {
                *r = Some(mgp_vertex { gid, graph: graph.address });
                MgpError::NoError
            },
            None => {
                *r = None;
                MgpError::LogicError
            },
        },
        _ => MgpError::InvalidArgument,
    }
}

/// Hands out an edge that the storage has made between two vertices, or not.
pub fn mgp_graph_create_edge(
    g: Option<&mgp_graph>,
    from: Option<&mgp_vertex>,
    to: Option<&mgp_vertex>,
    ty: &mgp_edge_type,
    made: Option<u64>,
    _memory: Option<&mgp_memory>,
    result: Option<&mut Option<mgp_edge>>,
) -> (e: MgpError)
    ensures
        e == if g is None || from is None || to is None || ty.name is None || result is None {
            MgpError::InvalidArgument
        } else {
            changed(made is Some)
        },
        result matches Some(r) ==> *final(r) == if e is InvalidArgument {
            *r
        } else {
            match made {
                Some(gid) => Some(mgp_edge { gid, graph: g->0.address }),
                None => None,
            }
        },
{
    match (g, result) {
        (Some(graph), Some(r)) => {
            if from.is_none() || to.is_none() || ty.name.is_none() {
                return MgpError::InvalidArgument;
            }
            match made {
                Some(gid) => {
                    *r = Some(mgp_edge { gid, graph: graph.address });
                    MgpError::NoError
                },
                None => {
                    *r = None;
                    MgpError::LogicError
                },
            }
        },
        _ => MgpError::InvalidArgument,
    }
}

/// Tells the number of a vertex.
pub fn mgp_vertex_get_id(v: Option<&mgp_vertex>, result: Option<&mut mgp_vertex_id>) -> (e: MgpError)
    ensures
        e == given(v is None || result is None),
        result matches Some(r) ==> *final(r) == match v {
            Some(x) => (mgp_vertex_id { as_int: signed(x.gid) }),
            None => *r,
        },
{
    match (v, result) {
        (Some(x), Some(r)) => {
            *r = mgp_vertex_id { as_int: to_signed(x.gid) };
            MgpError::NoError
        },
        _ => MgpError::InvalidArgument,
    }
}

/// Copies a vertex.
pub fn mgp_vertex_copy(v: Option<&mgp_vertex>, _memory: Option<&mgp_memory>, result: Option<&mut Option<mgp_vertex>>) -> (e: MgpError)
    ensures
        e == given(v is None || result is None),
        result matches Some(r) ==> *final(r) == match v {
            Some(x) => Some(*x),
            None => *r,
        },
{
    match (v, result) {
        (Some(x), Some(r)) => {
            *r = Some(*x);
            MgpError::NoError
        },
        _ => MgpError::InvalidArgument,
    }
}

/// Tells whether a vertex was deleted, once the storage has told whether it is there.
pub fn mgp_vertex_is_deleted(v: Option<&mgp_vertex>, there: bool, result: Option<&mut i32>) -> (e: MgpError)
    ensures
        e == given(v is None || result is None || v->0.graph == 0),
        result matches Some(r) ==> *final(r) == if e is NoError {
            flag(!there)
        } else {
            *r
        },
{
    match (v, result) {
        (Some(x), Some(r)) => {
            if x.graph == 0 {
                return MgpError::InvalidArgument;
            }
            *r = to_flag(!there);
            MgpError::NoError
        },
        _ => MgpError::InvalidArgument,
    }
}

/// Tells whether two vertices are the same: they have the same number.
pub fn mgp_vertex_equal(a: Option<&mgp_vertex>, b: Option<&mgp_vertex>, result: Option<&mut i32>) -> (e: MgpError)
    ensures
        e == given(a is None || b is None || result is None),
        result matches Some(r) ==> *final(r) == if e is NoError {
            flag(a->0.gid == b->0.gid)
        } else {
            *r
        },
{
    match (a, b, result) {
        (Some(x), Some(y), Some(r)) => {
            *r = to_flag(x.gid == y.gid);
            MgpError::NoError
        },
        _ => MgpError::InvalidArgument,
    }
}

/// Hands out the value of a property of a vertex; null where it has none.
pub fn mgp_vertex_get_property(
    v: Option<&mgp_vertex>,
    name: Option<&str>,
    snapshot: Option<&VertexSnapshot>,
    _memory: Option<&mgp_memory>,
    result: Option<&mut Option<mgp_value>>,
) -> (e: MgpError)
    ensures
        e == held(v is None || name is None || result is None || v->0.graph == 0, snapshot is Some),
        result matches Some(r) ==> opt_view(*final(r)) == if e is InvalidArgument {
            opt_view(*r)
        } else {
            match snapshot {
                Some(s) => Some(
                    as_value(property_at(named_views(s.properties@), name->0@, s.properties@.len())),
                ),
                None => None,
            }
        },
{
    match (v, name, result) {
        (Some(x), Some(key), Some(r)) => {
            if x.graph == 0 {
                return MgpError::InvalidArgument;
            }
            match snapshot {
                Some(s) => {
                    *r = Some(find_property(&s.properties, key));
                    MgpError::NoError
                },
                None => {
                    *r = None;
                    MgpError::DeletedObject
                },
            }
        },
        _ => MgpError::InvalidArgument,
    }
}

/// Starts an iteration over the properties of a vertex; there is none where it was deleted.
pub fn mgp_vertex_iter_properties(
    v: Option<&mgp_vertex>,
    snapshot: Option<&VertexSnapshot>,
    _memory: Option<&mgp_memory>,
    result: Option<&mut Option<mgp_properties_iterator>>,
) -> (e: MgpError)
    ensures
        e == given(v is None || result is None || v->0.graph == 0),
        result matches Some(r) ==> if e is NoError {
            match snapshot {
                Some(s) => *final(r) is Some && (*final(r))->0.pos == 0 && property_views((*final(r))->0.items@) == as_properties(
                    named_views(s.properties@),
                ),
                None => *final(r) is None,
            }
        } else {
            *final(r) == *r
        },
{
    match (v, result) {
        (Some(x), Some(r)) => {
            if x.graph == 0 {
                return MgpError::InvalidArgument;
            }
            *r = match snapshot {
                Some(s) => Some(mgp_properties_iterator { items: list_properties(&s.properties), pos: 0 }),
                None => None,
            };
            MgpError::NoError
        },
        _ => MgpError::InvalidArgument,
    }
}

/// Sets a property of a vertex.
pub fn mgp_vertex_set_property<F: FnOnce(u64, &str, &PropertyValue) -> bool>(
    v: Option<&mgp_vertex>,
    name: Option<&str>,
    val: Option<&mgp_value>,
    write: F,
) -> (e: MgpError)
    requires
        v is Some && name is Some && val is Some && v->0.graph != 0 ==> forall|p: PropertyValue|
            as_stored(val->0@) == Some(p@) ==> #[trigger] call_requires(write, (v->0.gid, name->0, &p)),
    ensures
        v is None || name is None || val is None || v->0.graph == 0 ==> e is InvalidArgument,
        v is Some && name is Some && val is Some && v->0.graph != 0 ==> match as_stored(val->0@) {
            None => e is ValueConversion,
            Some(p) => exists|done: bool| #[trigger] was_written(write, v->0.gid, name->0, p, done) && e == changed(done),
        },
{
    match (v, name, val) {
        (Some(x), Some(key), Some(value)) => {
            if x.graph == 0 {
                return MgpError::InvalidArgument;
            }
            match mgp_value_to_property_value(Some(value)) {
                None => MgpError::ValueConversion,
                Some(p) => {
                    let done = write(x.gid, key, &p);
                    assert(was_written(write, x.gid, key, p@, done));
                    if done {
                        MgpError::NoError
                    } else {
                        MgpError::LogicError
                    }
                },
            }
        },
        _ => MgpError::InvalidArgument,
    }
}

/// Sets the properties of a vertex to the entries of a map, one after the other; values that cannot be
/// stored are left out, and a write that fails ends it.
pub fn mgp_vertex_set_properties<F: Fn(u64, &str, &PropertyValue) -> bool>(
    v: Option<&mgp_vertex>,
    properties: Option<&mgp_map>,
    write: &F,
) -> (e: MgpError)
    requires
        v is Some && properties is Some && v->0.graph != 0 ==> takes_entries(*write, v->0.gid, *properties->0),
    ensures
        v is None || properties is None || v->0.graph == 0 ==> e is InvalidArgument,
        v is Some && properties is Some && v->0.graph != 0 ==> all_written(*write, v->0.gid, *properties->0, e),
{
    match (v, properties) {
        (Some(x), Some(map)) => {
            if x.graph == 0 {
                return MgpError::InvalidArgument;
            }
            write_all(x.gid, map, write)
        },
        _ => MgpError::InvalidArgument,
    }
}

/// Tells the number of an edge.
pub fn mgp_edge_get_id(edge: Option<&mgp_edge>, result: Option<&mut mgp_edge_id>) -> (e: MgpError)
    ensures
        e == given(edge is None || result is None),
        result matches Some(r) ==> *final(r) == match edge {
            Some(x) => (mgp_edge_id { as_int: signed(x.gid) }),
            None => *r,
        },
{
    match (edge, result) {
        (Some(x), Some(r)) => {
            *r = mgp_edge_id { as_int: to_signed(x.gid) };
            MgpError::NoError
        },
        _ => MgpError::InvalidArgument,
    }
}

/// Copies an edge.
pub fn mgp_edge_copy(edge: Option<&mgp_edge>, _memory: Option<&mgp_memory>, result: Option<&mut Option<mgp_edge>>) -> (e: MgpError)
    ensures
        e == given(edge is None || result is None),
        result matches Some(r) ==> *final(r) == match edge {
            Some(x) => Some(*x),
            None => *r,
        },
{
    match (edge, result) {
        (Some(x), Some(r)) => {
            *r = Some(*x);
            MgpError::NoError
        },
        _ => MgpError::InvalidArgument,
    }
}

/// Tells whether an edge was deleted, once the storage has told whether it is there.
pub fn mgp_edge_is_deleted(edge: Option<&mgp_edge>, there: bool, result: Option<&mut i32>) -> (e: MgpError)
    ensures
        e == given(edge is None || result is None || edge->0.graph == 0),
        result matches Some(r) ==> *final(r) == if e is NoError {
            flag(!there)
        } else {
            *r
        },
{
    match (edge, result) {
        (Some(x), Some(r)) => {
            if x.graph == 0 {
                return MgpError::InvalidArgument;
            }
            *r = to_flag(!there);
            MgpError::NoError
        },
        _ => MgpError::InvalidArgument,
    }
}

/// Tells whether two edges are the same: they have the same number.
pub fn mgp_edge_equal(a: Option<&mgp_edge>, b: Option<&mgp_edge>, result: Option<&mut i32>) -> (e: MgpError)
    ensures
        e == given(a is None || b is None || result is None),
        result matches Some(r) ==> *final(r) == if e is NoError {
            flag(a->0.gid == b->0.gid)
        } else {
            *r
        },
{
    match (a, b, result) {
        (Some(x), Some(y), Some(r)) => {
            *r = to_flag(x.gid == y.gid);
            MgpError::NoError
        },
        _ => MgpError::InvalidArgument,
    }
}

/// Hands out the value of a property of an edge; null where it has none.
pub fn mgp_edge_get_property(
    edge: Option<&mgp_edge>,
    name: Option<&str>,
    snapshot: Option<&EdgeSnapshot>,
    _memory: Option<&mgp_memory>,
    result: Option<&mut Option<mgp_value>>,
) -> (e: MgpError)
    ensures
        e == held(edge is None || name is None || result is None || edge->0.graph == 0, snapshot is Some),
        result matches Some(r) ==> opt_view(*final(r)) == if e is InvalidArgument {
            opt_view(*r)
        } else {
            match snapshot {
                Some(s) => Some(
                    as_value(property_at(named_views(s.properties@), name->0@, s.properties@.len())),
                ),
                None => None,
            }
        },
{
    match (edge, name, result) {
        (Some(x), Some(key), Some(r)) => {
            if x.graph == 0 {
                return MgpError::InvalidArgument;
            }
            match snapshot {
                Some(s) => {
                    *r = Some(find_property(&s.properties, key));
                    MgpError::NoError
                },
                None => {
                    *r = None;
                    MgpError::DeletedObject
                },
            }
        },
        _ => MgpError::InvalidArgument,
    }
}

/// Starts an iteration over the properties of an edge; there is none where it was deleted.
pub fn mgp_edge_iter_properties(
    edge: Option<&mgp_edge>,
    snapshot: Option<&EdgeSnapshot>,
    _memory: Option<&mgp_memory>,
    result: Option<&mut Option<mgp_properties_iterator>>,
) -> (e: MgpError)
    ensures
        e == given(edge is None || result is None || edge->0.graph == 0),
        result matches Some(r) ==> if e is NoError {
            match snapshot {
                Some(s) => *final(r) is Some && (*final(r))->0.pos == 0 && property_views((*final(r))->0.items@) == as_properties(
                    named_views(s.properties@),
                ),
                None => *final(r) is None,
            }
        } else {
            *final(r) == *r
        },
{
    match (edge, result) {
        (Some(x), Some(r)) => {
            if x.graph == 0 {
                return MgpError::InvalidArgument;
            }
            *r = match snapshot {
                Some(s) => Some(mgp_properties_iterator { items: list_properties(&s.properties), pos: 0 }),
                None => None,
            };
            MgpError::NoError
        },
        _ => MgpError::InvalidArgument,
    }
}

/// Sets a property of an edge.
pub fn mgp_edge_set_property<F: FnOnce(u64, &str, &PropertyValue) -> bool>(
    edge: Option<&mgp_edge>,
    name: Option<&str>,
    val: Option<&mgp_value>,
    write: F,
) -> (e: MgpError)
    requires
        edge is Some && name is Some && val is Some && edge->0.graph != 0 ==> forall|p: PropertyValue|
            as_stored(val->0@) == Some(p@) ==> #[trigger] call_requires(write, (edge->0.gid, name->0, &p)),
    ensures
        edge is None || name is None || val is None || edge->0.graph == 0 ==> e is InvalidArgument,
        edge is Some && name is Some && val is Some && edge->0.graph != 0 ==> match as_stored(val->0@) {
            None => e is ValueConversion,
            Some(p) => exists|done: bool| #[trigger] was_written(write, edge->0.gid, name->0, p, done) && e == changed(done),
        },
{
    match (edge, name, val) {
        (Some(x), Some(key), Some(value)) => {
            if x.graph == 0 {
                return MgpError::InvalidArgument;
            }
            match mgp_value_to_property_value(Some(value)) {
                None => MgpError::ValueConversion,
                Some(p) => {
                    let done = write(x.gid, key, &p);
                    assert(was_written(write, x.gid, key, p@, done));
                    if done {
                        MgpError::NoError
                    } else {
                        MgpError::LogicError
                    }
                },
            }
        },
        _ => MgpError::InvalidArgument,
    }
}

/// Sets the properties of an edge to the entries of a map, one after the other; values that cannot be
/// stored are left out, and a write that fails ends it.
pub fn mgp_edge_set_properties<F: Fn(u64, &str, &PropertyValue) -> bool>(
    edge: Option<&mgp_edge>,
    properties: Option<&mgp_map>,
    write: &F,
) -> (e: MgpError)
    requires
        edge is Some && properties is Some && edge->0.graph != 0 ==> takes_entries(*write, edge->0.gid, *properties->0),
    ensures
        edge is None || properties is None || edge->0.graph == 0 ==> e is InvalidArgument,
        edge is Some && properties is Some && edge->0.graph != 0 ==> all_written(*write, edge->0.gid, *properties->0, e),
{
    match (edge, properties) {
        (Some(x), Some(map)) => {
            if x.graph == 0 {
                return MgpError::InvalidArgument;
            }
            write_all(x.gid, map, write)
        },
        _ => MgpError::InvalidArgument,
    }
}

/// Whether the storage was told to set a property, and what it answered.
pub open spec fn was_written<F: FnOnce(u64, &str, &PropertyValue) -> bool>(write: F, gid: u64, name: &str, p: Stored, done: bool) -> bool {
    exists|x: PropertyValue| x@ == p && #[trigger] call_ensures(write, (gid, name, &x), done)
}

/// Whether the storage was told to set the property of an entry, and what it answered; nothing is
/// asked for a value that cannot be stored.
pub open spec fn entry_written<F: Fn(u64, &str, &PropertyValue) -> bool>(write: F, gid: u64, map: mgp_map, i: int, done: bool) -> bool {
    match as_stored(map@[i].1) {
        Some(p) => exists|name: &str| name@ == map@[i].0 && #[trigger] was_written(write, gid, name, p, done),
        None => done,
    }
}

/// Whether the entries of a map were written in turn: all of them, or up to one that failed.
pub open spec fn all_written<F: Fn(u64, &str, &PropertyValue) -> bool>(write: F, gid: u64, map: mgp_map, e: MgpError) -> bool {
    ||| e is NoError && forall|i: int| 0 <= i < map@.len() ==> #[trigger] entry_written(write, gid, map, i, true)
    ||| e is LogicError && exists|k: int|
        0 <= k < map@.len() && #[trigger] entry_written(write, gid, map, k, false) && forall|i: int|
            0 <= i < k ==> #[trigger] entry_written(write, gid, map, i, true)
}

/// Whether an entry of a map is the next to be written: it can be stored, and every entry before it was
/// written.
pub open spec fn is_next_entry<F: Fn(u64, &str, &PropertyValue) -> bool>(
    write: F,
    gid: u64,
    map: mgp_map,
    k: int,
    name: &str,
    p: PropertyValue,
) -> bool {
    &&& 0 <= k < map@.len()
    &&& name@ == map@[k].0
    &&& as_stored(map@[k].1) == Some(p@)
    &&& forall|i: int| 0 <= i < k ==> #[trigger] entry_written(write, gid, map, i, true)
}

/// Whether the storage may be told to set the property of each entry of a map in turn.
pub open spec fn takes_entries<F: Fn(u64, &str, &PropertyValue) -> bool>(write: F, gid: u64, map: mgp_map) -> bool {
    forall|k: int, name: &str, p: PropertyValue| #[trigger]
        is_next_entry(write, gid, map, k, name, p) ==> call_requires(write, (gid, name, &p))
}

fn write_all<F: Fn(u64, &str, &PropertyValue) -> bool>(gid: u64, map: &mgp_map, write: &F) -> (e: MgpError)
    requires
        takes_entries(*write, gid, *map),
    ensures
        all_written(*write, gid, *map, e),
{
    let mut i: usize = 0;
    while i < map.items.len()
        invariant
            takes_entries(*write, gid, *map),
            i <= map.items@.len(),
            forall|j: int| 0 <= j < i ==> #[trigger] entry_written(*write, gid, *map, j, true),
        decreases map.items@.len() - i,
    {
        let entry = &map.items[i];
        assert(map@[i as int] == (entry.key@, entry.value@));
        match mgp_value_to_property_value(Some(&entry.value)) {
            Some(p) => {
                let name = entry.key.as_str();
                assert(is_next_entry(*write, gid, *map, i as int, name, p));
                let done = write(gid, name, &p);
                assert(was_written(*write, gid, name, p@, done));
                assert(entry_written(*write, gid, *map, i as int, done));
                if !done {
                    return MgpError::LogicError;
                }
            },
            None => {
                assert(entry_written(*write, gid, *map, i as int, true));
            },
        }
        i += 1;
    }
    MgpError::NoError
}

/// A property, as an iteration hands it out.
#[derive(Debug)]
pub struct mgp_property {
    pub name: String,
    pub value: mgp_value,
}

impl View for mgp_property {
    type V = (Seq<char>, Val);

    open spec fn view(&self) -> (Seq<char>, Val) {
        (self.name@, self.value@)
    }
}

/// An iteration over properties.
#[derive(Debug)]
pub struct mgp_properties_iterator {
    pub items: Vec<mgp_property>,
    pub pos: usize,
}

/// The models of a sequence of properties.
pub open spec fn property_views(items: Seq<mgp_property>) -> Seq<(Seq<char>, Val)> {
    Seq::new(items.len(), |i: int| items[i]@)
}

/// The properties that named property values are handed out as.
pub open spec fn as_properties(items: Seq<(Seq<char>, Stored)>) -> Seq<(Seq<char>, Val)> {
    Seq::new(items.len(), |i: int| (held_text(items[i].0), as_value(items[i].1)))
}

fn list_properties(items: &Vec<NamedValue>) -> (r: Vec<mgp_property>)
    ensures
        property_views(r@) == as_properties(named_views(items@)),
{
    let mut r: Vec<mgp_property> = Vec::new();
    let mut i: usize = 0;
    while i < items.len()
        invariant
            i <= items@.len(),
            r@.len() == i,
            forall|j: int| 0 <= j < i ==> (#[trigger] r@[j])@ == as_properties(named_views(items@))[j],
        decreases items@.len() - i,
    {
        let name = hold_text(items[i].name.as_str());
        let value = property_value_to_mgp_value(&items[i].value);
        r.push(mgp_property { name, value });
        assert(named_views(items@)[i as int] == (items@[i as int].name@, items@[i as int].value@));
        i += 1;
    }
    assert(property_views(r@) =~= as_properties(named_views(items@)));
    r
}

/// Tells the number of labels of a vertex.
pub fn mgp_vertex_labels_count(v: Option<&mgp_vertex>, snapshot: Option<&VertexSnapshot>, result: Option<&mut usize>) -> (e: MgpError)
    ensures
        e == held(v is None || result is None || v->0.graph == 0, snapshot is Some),
        result matches Some(r) ==> *final(r) == if e is InvalidArgument {
            *r
        } else {
            match snapshot {
                Some(s) => s.labels.len(),
                None => 0,
            }
        },
{
    match (v, result) {
        (Some(x), Some(r)) => {
            if x.graph == 0 {
                return MgpError::InvalidArgument;
            }
            match snapshot {
                Some(s) => {
                    *r = s.labels.len();
                    MgpError::NoError
                },
                None => {
                    *r = 0;
                    MgpError::DeletedObject
                },
            }
        },
        _ => MgpError::InvalidArgument,
    }
}

fn has_name(names: &Vec<String>, name: &str) -> (r: bool)
    ensures
        r == exists|i: int| 0 <= i < names@.len() && (#[trigger] names@[i])@ == name@,
{
    let wanted = name.to_string();
    let mut i: usize = 0;
    while i < names.len()
        invariant
            wanted@ == name@,
            i <= names@.len(),
            forall|j: int| 0 <= j < i ==> (#[trigger] names@[j])@ != name@,
        decreases names@.len() - i,
    {
        if names[i] == wanted {
            return true;
        }
        i += 1;
    }
    false
}

/// Whether a vertex has a label.
pub open spec fn is_labelled(s: VertexSnapshot, name: Seq<char>) -> bool {
    exists|i: int| 0 <= i < s.labels@.len() && (#[trigger] s.labels@[i])@ == name
}

/// Tells whether a vertex has a label; it has none without a name.
pub fn mgp_vertex_has_label(
    v: Option<&mgp_vertex>,
    label: &mgp_label,
    snapshot: Option<&VertexSnapshot>,
    result: Option<&mut i32>,
) -> (e: MgpError)
    ensures
        e == if v is None || result is None {
            MgpError::InvalidArgument
        } else if label.name is None {
            MgpError::NoError
        } else {
            held(v->0.graph == 0, snapshot is Some)
        },
        result matches Some(r) ==> *final(r) == if e is InvalidArgument {
            *r
        } else {
            flag(label.name is Some && snapshot is Some && is_labelled(*snapshot->0, label.name->0@))
        },
{
    match (v, result) {
        (Some(x), Some(r)) => match &label.name {
            None => {
                *r = 0;
                MgpError::NoError
            },
            Some(name) => mgp_vertex_has_label_named(Some(x), name.as_str(), snapshot, Some(r)),
        },
        _ => MgpError::InvalidArgument,
    }
}

/// Tells whether a vertex has a label with a name.
pub fn mgp_vertex_has_label_named(
    v: Option<&mgp_vertex>,
    label_name: &str,
    snapshot: Option<&VertexSnapshot>,
    result: Option<&mut i32>,
) -> (e: MgpError)
    ensures
        e == held(v is None || result is None || v->0.graph == 0, snapshot is Some),
        result matches Some(r) ==> *final(r) == if e is InvalidArgument {
            *r
        } else {
            flag(snapshot is Some && is_labelled(*snapshot->0, label_name@))
        },
{
    match (v, result) {
        (Some(x), Some(r)) => {
            if x.graph == 0 {
                return MgpError::InvalidArgument;
            }
            match snapshot {
                Some(s) => {
                    *r = to_flag(has_name(&s.labels, label_name));
                    MgpError::NoError
                },
                None => {
                    *r = 0;
                    MgpError::DeletedObject
                },
            }
        },
        _ => MgpError::InvalidArgument,
    }
}

/// Hands out the label at a position.
pub fn mgp_vertex_label_at(
    v: Option<&mgp_vertex>,
    idx: usize,
    snapshot: Option<&VertexSnapshot>,
    result: Option<&mut mgp_label>,
) -> (e: MgpError)
    ensures
        e == if v is None || result is None || v->0.graph == 0 {
            MgpError::InvalidArgument
        } else {
            match snapshot {
                Some(s) => access_error(false, idx as nat, s.labels@.len()),
                None => MgpError::DeletedObject,
            }
        },
        result matches Some(r) ==> opt_view(final(r).name) == if e is InvalidArgument {
            opt_view(r.name)
        } else if e is NoError {
            Some(held_text(snapshot->0.labels@[idx as int]@))
        } else {
            None
        },
{
    match (v, result) {
        (Some(x), Some(r)) => {
            if x.graph == 0 {
                return MgpError::InvalidArgument;
            }
            match snapshot {
                Some(s) => {
                    if idx >= s.labels.len() {
                        r.name = None;
                        return MgpError::OutOfRange;
                    }
                    r.name = Some(hold_text(s.labels[idx].as_str()));
                    MgpError::NoError
                },
                None => {
                    r.name = None;
                    MgpError::DeletedObject
                },
            }
        },
        _ => MgpError::InvalidArgument,
    }
}

/// Tells the number of edges that reach a vertex.
pub fn mgp_vertex_get_in_degree(v: Option<&mgp_vertex>, edges: &Vec<u64>, result: Option<&mut usize>) -> (e: MgpError)
    ensures
        e == given(v is None || result is None || v->0.graph == 0),
        result matches Some(r) ==> *final(r) == if e is NoError {
            edges.len()
        } else {
            *r
        },
{
    match (v, result) {
        (Some(x), Some(r)) => {
            if x.graph == 0 {
                return MgpError::InvalidArgument;
            }
            *r = edges.len();
            MgpError::NoError
        },
        _ => MgpError::InvalidArgument,
    }
}

/// Starts an iteration over the edges that reach a vertex.
pub fn mgp_vertex_iter_in_edges(
    v: Option<&mgp_vertex>,
    edges: Vec<u64>,
    _memory: Option<&mgp_memory>,
    result: Option<&mut Option<mgp_edges_iterator>>,
) -> (e: MgpError)
    ensures
        e == given(v is None || result is None || v->0.graph == 0),
        result matches Some(r) ==> *final(r) == if e is NoError {
            Some(mgp_edges_iterator { graph: v->0.graph, keys: edges, pos: 0 })
        } else {
            *r
        },
{
    match (v, result) {
        (Some(x), Some(r)) => {
            if x.graph == 0 {
                return MgpError::InvalidArgument;
            }
            *r = Some(mgp_edges_iterator { graph: x.graph, keys: edges, pos: 0 });
            MgpError::NoError
        },
        _ => MgpError::InvalidArgument,
    }
}

/// Tells the number of edges that leave a vertex.
pub fn mgp_vertex_get_out_degree(v: Option<&mgp_vertex>, edges: &Vec<u64>, result: Option<&mut usize>) -> (e: MgpError)
    ensures
        e == given(v is None || result is None || v->0.graph == 0),
        result matches Some(r) ==> *final(r) == if e is NoError {
            edges.len()
        } else {
            *r
        },
{
    match (v, result) {
        (Some(x), Some(r)) => {
            if x.graph == 0 {
                return MgpError::InvalidArgument;
            }
            *r = edges.len();
            MgpError::NoError
        },
        _ => MgpError::InvalidArgument,
    }
}

/// Starts an iteration over the edges that leave a vertex.
pub fn mgp_vertex_iter_out_edges(
    v: Option<&mgp_vertex>,
    edges: Vec<u64>,
    _memory: Option<&mgp_memory>,
    result: Option<&mut Option<mgp_edges_iterator>>,
) -> (e: MgpError)
    ensures
        e == given(v is None || result is None || v->0.graph == 0),
        result matches Some(r) ==> *final(r) == if e is NoError {
            Some(mgp_edges_iterator { graph: v->0.graph, keys: edges, pos: 0 })
        } else {
            *r
        },
{
    match (v, result) {
        (Some(x), Some(r)) => {
            if x.graph == 0 {
                return MgpError::InvalidArgument;
            }
            *r = Some(mgp_edges_iterator { graph: x.graph, keys: edges, pos: 0 });
            MgpError::NoError
        },
        _ => MgpError::InvalidArgument,
    }
}

/// Tells the type of an edge.
pub fn mgp_edge_get_type(edge: Option<&mgp_edge>, snapshot: Option<&EdgeSnapshot>, result: Option<&mut mgp_edge_type>) -> (e: MgpError)
    ensures
        e == held(edge is None || result is None || edge->0.graph == 0, snapshot is Some),
        result matches Some(r) ==> opt_view(final(r).name) == if e is InvalidArgument {
            opt_view(r.name)
        } else {
            match snapshot {
                Some(s) => Some(held_text(s.edge_type@)),
                None => None,
            }
        },
{
    match (edge, result) {
        (Some(x), Some(r)) => {
            if x.graph == 0 {
                return MgpError::InvalidArgument;
            }
            match snapshot {
                Some(s) => {
                    r.name = Some(hold_text(s.edge_type.as_str()));
                    MgpError::NoError
                },
                None => {
                    r.name = None;
                    MgpError::DeletedObject
                },
            }
        },
        _ => MgpError::InvalidArgument,
    }
}

/// Hands out the vertex that an edge leaves.
pub fn mgp_edge_get_from(edge: Option<&mgp_edge>, snapshot: Option<&EdgeSnapshot>, result: Option<&mut Option<mgp_vertex>>) -> (e: MgpError)
    ensures
        e == held(edge is None || result is None || edge->0.graph == 0, snapshot is Some),
        result matches Some(r) ==> *final(r) == if e is InvalidArgument {
            *r
        } else {
            match snapshot {
                Some(s) => Some(mgp_vertex { gid: s.from_vertex, graph: edge->0.graph }),
                None => None,
            }
        },
{
    match (edge, result) {
        (Some(x), Some(r)) => {
            if x.graph == 0 {
                return MgpError::InvalidArgument;
            }
            match snapshot {
                Some(s) => {
                    *r = Some(mgp_vertex { gid: s.from_vertex, graph: x.graph });
                    MgpError::NoError
                },
                None => {
                    *r = None;
                    MgpError::DeletedObject
                },
            }
        },
        _ => MgpError::InvalidArgument,
    }
}

/// Hands out the vertex that an edge reaches.
pub fn mgp_edge_get_to(edge: Option<&mgp_edge>, snapshot: Option<&EdgeSnapshot>, result: Option<&mut Option<mgp_vertex>>) -> (e: MgpError)
    ensures
        e == held(edge is None || result is None || edge->0.graph == 0, snapshot is Some),
        result matches Some(r) ==> *final(r) == if e is InvalidArgument {
            *r
        } else {
            match snapshot {
                Some(s) => Some(mgp_vertex { gid: s.to_vertex, graph: edge->0.graph }),
                None => None,
            }
        },
{
    match (edge, result) {
        (Some(x), Some(r)) => {
            if x.graph == 0 {
                return MgpError::InvalidArgument;
            }
            match snapshot {
                Some(s) => {
                    *r = Some(mgp_vertex { gid: s.to_vertex, graph: x.graph });
                    MgpError::NoError
                },
                None => {
                    *r = None;
                    MgpError::DeletedObject
                },
            }
        },
        _ => MgpError::InvalidArgument,
    }
}

/// Gives a vertex a label.
pub fn mgp_vertex_add_label<F: FnOnce(u64, &str) -> bool>(v: Option<&mgp_vertex>, label: &mgp_label, write: F) -> (e: MgpError)
    requires
        v is Some && label.name is Some && v->0.graph != 0 ==> forall|n: &str|
            n@ == label.name->0@ ==> #[trigger] call_requires(write, (v->0.gid, n)),
    ensures
        v is None || label.name is None || v->0.graph == 0 ==> e is InvalidArgument,
        v is Some && label.name is Some && v->0.graph != 0 ==> exists|n: &str, done: bool|
            n@ == label.name->0@ && #[trigger] call_ensures(write, (v->0.gid, n), done) && e == changed(done),
{
    match (v, &label.name) {
        (Some(x), Some(name)) => {
            if x.graph == 0 {
                return MgpError::InvalidArgument;
            }
            let n = name.as_str();
            let done = write(x.gid, n);
            assert(call_ensures(write, (x.gid, n), done));
            if done {
                MgpError::NoError
            } else {
                MgpError::LogicError
            }
        },
        _ => MgpError::InvalidArgument,
    }
}

/// Takes a label from a vertex.
pub fn mgp_vertex_remove_label<F: FnOnce(u64, &str) -> bool>(v: Option<&mgp_vertex>, label: &mgp_label, write: F) -> (e: MgpError)
    requires
        v is Some && label.name is Some && v->0.graph != 0 ==> forall|n: &str|
            n@ == label.name->0@ ==> #[trigger] call_requires(write, (v->0.gid, n)),
    ensures
        v is None || label.name is None || v->0.graph == 0 ==> e is InvalidArgument,
        v is Some && label.name is Some && v->0.graph != 0 ==> exists|n: &str, done: bool|
            n@ == label.name->0@ && #[trigger] call_ensures(write, (v->0.gid, n), done) && e == changed(done),
{
    match (v, &label.name) {
        (Some(x), Some(name)) => {
            if x.graph == 0 {
                return MgpError::InvalidArgument;
            }
            let n = name.as_str();
            let done = write(x.gid, n);
            assert(call_ensures(write, (x.gid, n), done));
            if done {
                MgpError::NoError
            } else {
                MgpError::LogicError
            }
        },
        _ => MgpError::InvalidArgument,
    }
}

/// Deletes a vertex.
pub fn mgp_graph_delete_vertex<F: FnOnce(u64) -> bool>(g: Option<&mgp_graph>, v: Option<&mgp_vertex>, delete: F) -> (e: MgpError)
    requires
        g is Some && v is Some ==> call_requires(delete, (v->0.gid,)),
    ensures
        g is None || v is None ==> e is InvalidArgument,
        g is Some && v is Some ==> exists|done: bool| #[trigger] call_ensures(delete, (v->0.gid,), done) && e == changed(done),
{
    match (g, v) {
        (Some(_), Some(x)) => {
            let done = delete(x.gid);
            assert(call_ensures(delete, (x.gid,), done));
            if done {
                MgpError::NoError
            } else {
                MgpError::LogicError
            }
        },
        _ => MgpError::InvalidArgument,
    }
}

/// Deletes an edge.
pub fn mgp_graph_delete_edge<F: FnOnce(u64) -> bool>(g: Option<&mgp_graph>, edge: Option<&mgp_edge>, delete: F) -> (e: MgpError)
    requires
        g is Some && edge is Some ==> call_requires(delete, (edge->0.gid,)),
    ensures
        g is None || edge is None ==> e is InvalidArgument,
        g is Some && edge is Some ==> exists|done: bool| #[trigger] call_ensures(delete, (edge->0.gid,), done) && e == changed(done),
{
    match (g, edge) {
        (Some(_), Some(x)) => {
            let done = delete(x.gid);
            assert(call_ensures(delete, (x.gid,), done));
            if done {
                MgpError::NoError
            } else {
                MgpError::LogicError
            }
        },
        _ => MgpError::InvalidArgument,
    }
}

/// Whether the storage was told to delete an edge, whatever it answered.
pub open spec fn was_deleted<F: Fn(u64) -> bool>(delete: F, gid: u64) -> bool {
    exists|done: bool| #[trigger] call_ensures(delete, (gid,), done)
}

/// Whether the storage was told to delete the first `k` edges of a list.
pub open spec fn deleted_up_to<F: Fn(u64) -> bool>(delete: F, edges: Seq<u64>, k: int) -> bool {
    forall|i: int| 0 <= i < k && i < edges.len() ==> was_deleted(delete, #[trigger] edges[i])
}

/// Whether the storage may be told to delete each edge of a list once it was told of those before.
pub open spec fn takes_in_turn<F: Fn(u64) -> bool>(delete: F, edges: Seq<u64>) -> bool {
    forall|k: int| 0 <= k < edges.len() && deleted_up_to(delete, edges, k) ==> #[trigger] call_requires(
        delete,
        (edges[k],),
    )
}

/// Deletes a vertex with its edges: first those that reach it, then those that leave it, whether or
/// not that works, and then the vertex itself.
pub fn mgp_graph_detach_delete_vertex<F: Fn(u64) -> bool, G: FnOnce(u64) -> bool>(
    g: Option<&mgp_graph>,
    v: Option<&mgp_vertex>,
    in_edges: &Vec<u64>,
    out_edges: &Vec<u64>,
    delete_edge: &F,
    delete_vertex: G,
) -> (e: MgpError)
    requires
        g is Some && v is Some ==> takes_in_turn(*delete_edge, in_edges@ + out_edges@),
        g is Some && v is Some && deleted_up_to(*delete_edge, in_edges@ + out_edges@, (in_edges@ + out_edges@).len() as int)
            ==> call_requires(delete_vertex, (v->0.gid,)),
    ensures
        g is None || v is None ==> e is InvalidArgument,
        g is Some && v is Some ==> {
            &&& deleted_up_to(*delete_edge, in_edges@ + out_edges@, (in_edges@ + out_edges@).len() as int)
            &&& exists|done: bool| #[trigger] call_ensures(delete_vertex, (v->0.gid,), done) && e == changed(done)
        },
{
    match (g, v) {
        (Some(_), Some(x)) => {
            let ghost edges = in_edges@ + out_edges@;
            delete_all(in_edges, delete_edge, Ghost(edges), Ghost(0));
            delete_all(out_edges, delete_edge, Ghost(edges), Ghost(in_edges@.len() as int));
            let done = delete_vertex(x.gid);
            assert(call_ensures(delete_vertex, (x.gid,), done));
            if done {
                MgpError::NoError
            } else {
                MgpError::LogicError
            }
        },
        _ => MgpError::InvalidArgument,
    }
}

/// Deletes the edges of a list, which stand among others from a position on.
fn delete_all<F: Fn(u64) -> bool>(edges: &Vec<u64>, delete: &F, Ghost(all): Ghost<Seq<u64>>, Ghost(start): Ghost<int>)
    requires
        0 <= start <= start + edges@.len() <= all.len(),
        forall|i: int| 0 <= i < edges@.len() ==> #[trigger] edges@[i] == all[start + i],
        takes_in_turn(*delete, all),
        deleted_up_to(*delete, all, start),
    ensures
        deleted_up_to(*delete, all, start + edges@.len()),
{
    let mut i: usize = 0;
    while i < edges.len()
        invariant
            0 <= start <= start + edges@.len() <= all.len(),
            forall|i: int| 0 <= i < edges@.len() ==> #[trigger] edges@[i] == all[start + i],
            takes_in_turn(*delete, all),
            i <= edges@.len(),
            deleted_up_to(*delete, all, start + i),
        decreases edges@.len() - i,
    {
        assert(edges@[i as int] == all[start + i]);
        let done = delete(edges[i]);
        assert(call_ensures(*delete, (all[start + i],), done));
        assert(was_deleted(*delete, all[start + i]));
        i += 1;
    }
}

/// An iteration over vertices.
#[derive(Debug)]
pub struct mgp_vertices_iterator {
    pub graph: u64,
    pub keys: Vec<u64>,
    pub pos: usize,
}

/// An iteration over edges.
#[derive(Debug)]
pub struct mgp_edges_iterator {
    pub graph: u64,
    pub keys: Vec<u64>,
    pub pos: usize,
}

/// Starts an iteration over the vertices of a graph.
pub fn mgp_graph_iter_vertices(
    g: Option<&mgp_graph>,
    vertices: Vec<u64>,
    _memory: Option<&mgp_memory>,
    result: Option<&mut Option<mgp_vertices_iterator>>,
) -> (e: MgpError)
    ensures
        e == given(g is None || result is None),
        result matches Some(r) ==> *final(r) == match g {
            Some(graph) => Some(mgp_vertices_iterator { graph: graph.address, keys: vertices, pos: 0 }),
            None => *r,
        },
{
    match (g, result) {
        (Some(graph), Some(r)) => {
            *r = Some(mgp_vertices_iterator { graph: graph.address, keys: vertices, pos: 0 });
            MgpError::NoError
        },
        _ => MgpError::InvalidArgument,
    }
}

/// Hands out the next vertex, and moves on; there is none at the end.
pub fn mgp_vertices_iterator_get(it: Option<&mut mgp_vertices_iterator>, result: Option<&mut Option<mgp_vertex>>) -> (e: MgpError)
    ensures
        e == given(it is None || result is None),
        it matches Some(i) ==> final(i).keys == i.keys && final(i).graph == i.graph && final(i).pos == if result is Some {
            position_after(i.keys@.len(), i.pos)
        } else {
            i.pos
        },
        result matches Some(r) ==> *final(r) == match it {
            Some(i) => if i.pos < i.keys@.len() {
                Some(mgp_vertex { gid: i.keys@[i.pos as int], graph: i.graph })
            } else {
                None
            },
            None => *r,
        },
{
    match (it, result) {
        (Some(i), Some(r)) => {
            if i.pos >= i.keys.len() {
                *r = None;
                return MgpError::NoError;
            }
            let gid: u64 = i.keys[i.pos];
            i.pos = i.pos + 1;
            *r = Some(mgp_vertex { gid, graph: i.graph });
            MgpError::NoError
        },
        _ => MgpError::InvalidArgument,
    }
}

/// Hands out the next vertex, and moves on; there is none at the end.
pub fn mgp_vertices_iterator_next(it: Option<&mut mgp_vertices_iterator>, result: Option<&mut Option<mgp_vertex>>) -> (e: MgpError)
    ensures
        e == given(it is None || result is None),
        it matches Some(i) ==> final(i).keys == i.keys && final(i).graph == i.graph && final(i).pos == if result is Some {
            position_after(i.keys@.len(), i.pos)
        } else {
            i.pos
        },
        result matches Some(r) ==> *final(r) == match it {
            Some(i) => if i.pos < i.keys@.len() {
                Some(mgp_vertex { gid: i.keys@[i.pos as int], graph: i.graph })
            } else {
                None
            },
            None => *r,
        },
{
    mgp_vertices_iterator_get(it, result)
}

/// Hands out the next edge, and moves on; there is none at the end.
pub fn mgp_edges_iterator_get(it: Option<&mut mgp_edges_iterator>, result: Option<&mut Option<mgp_edge>>) -> (e: MgpError)
    ensures
        e == given(it is None || result is None),
        it matches Some(i) ==> final(i).keys == i.keys && final(i).graph == i.graph && final(i).pos == if result is Some {
            position_after(i.keys@.len(), i.pos)
        } else {
            i.pos
        },
        result matches Some(r) ==> *final(r) == match it {
            Some(i) => if i.pos < i.keys@.len() {
                Some(mgp_edge { gid: i.keys@[i.pos as int], graph: i.graph })
            } else {
                None
            },
            None => *r,
        },
{
    match (it, result) {
        (Some(i), Some(r)) => {
            if i.pos >= i.keys.len() {
                *r = None;
                return MgpError::NoError;
            }
            let gid: u64 = i.keys[i.pos];
            i.pos = i.pos + 1;
            *r = Some(mgp_edge { gid, graph: i.graph });
            MgpError::NoError
        },
        _ => MgpError::InvalidArgument,
    }
}

/// Hands out the next edge, and moves on; there is none at the end.
pub fn mgp_edges_iterator_next(it: Option<&mut mgp_edges_iterator>, result: Option<&mut Option<mgp_edge>>) -> (e: MgpError)
    ensures
        e == given(it is None || result is None),
        it matches Some(i) ==> final(i).keys == i.keys && final(i).graph == i.graph && final(i).pos == if result is Some {
            position_after(i.keys@.len(), i.pos)
        } else {
            i.pos
        },
        result matches Some(r) ==> *final(r) == match it {
            Some(i) => if i.pos < i.keys@.len() {
                Some(mgp_edge { gid: i.keys@[i.pos as int], graph: i.graph })
            } else {
                None
            },
            None => *r,
        },
{
    mgp_edges_iterator_get(it, result)
}

/// Hands out the next property, and moves on; there is none at the end.
pub fn mgp_properties_iterator_get(it: Option<&mut mgp_properties_iterator>, result: Option<&mut Option<mgp_property>>) -> (e: MgpError)
    ensures
        e == given(it is None || result is None),
        it matches Some(i) ==> final(i).items == i.items && final(i).pos == if result is Some {
            position_after(i.items@.len(), i.pos)
        } else {
            i.pos
        },
        result matches Some(r) ==> opt_view(*final(r)) == match it {
            Some(i) => if i.pos < i.items@.len() {
                Some(i.items@[i.pos as int]@)
            } else {
                None
            },
            None => opt_view(*r),
        },
{
    match (it, result) {
        (Some(i), Some(r)) => {
            if i.pos >= i.items.len() {
                *r = None;
                return MgpError::NoError;
            }
            let p = &i.items[i.pos];
            let property = mgp_property { name: p.name.clone(), value: p.value.clone() };
            i.pos = i.pos + 1;
            *r = Some(property);
            MgpError::NoError
        },
        _ => MgpError::InvalidArgument,
    }
}

/// Hands out the next property, and moves on; there is none at the end.
pub fn mgp_properties_iterator_next(it: Option<&mut mgp_properties_iterator>, result: Option<&mut Option<mgp_property>>) -> (e: MgpError)
    ensures
        e == given(it is None || result is None),
        it matches Some(i) ==> final(i).items == i.items && final(i).pos == if result is Some {
            position_after(i.items@.len(), i.pos)
        } else {
            i.pos
        },
        result matches Some(r) ==> opt_view(*final(r)) == match it {
            Some(i) => if i.pos < i.items@.len() {
                Some(i.items@[i.pos as int]@)
            } else {
                None
            },
            None => opt_view(*r),
        },
{
    mgp_properties_iterator_get(it, result)
}

/// Tells the length of a path: the number of its edges.
pub fn mgp_path_size(p: Option<&mgp_path>, result: Option<&mut usize>) -> (e: MgpError)
    ensures
        e == given(p is None || result is None),
        result matches Some(r) ==> *final(r) == match p {
            Some(x) => x.edges.len(),
            None => *r,
        },
{
    match (p, result) {
        (Some(x), Some(r)) => {
            *r = x.edges.len();
            MgpError::NoError
        },
        _ => MgpError::InvalidArgument,
    }
}

/// Hands out the vertex at a position of a path.
pub fn mgp_path_vertex_at(p: Option<&mgp_path>, index: usize, result: Option<&mut Option<mgp_vertex>>) -> (e: MgpError)
    ensures
        e == access_error(p is None || result is None, index as nat, p->0@.vertices.len()),
        result matches Some(r) ==> *final(r) == if e is InvalidArgument {
            *r
        } else if e is NoError {
            Some(p->0@.vertices[index as int])
        } else {
            None
        },
{
    match (p, result) {
        (Some(x), Some(r)) => {
            if index >= x.vertices.len() {
                *r = None;
                return MgpError::OutOfRange;
            }
            *r = Some(x.vertices[index]);
            MgpError::NoError
        },
        _ => MgpError::InvalidArgument,
    }
}

/// Hands out the edge at a position of a path.
pub fn mgp_path_edge_at(p: Option<&mgp_path>, index: usize, result: Option<&mut Option<mgp_edge>>) -> (e: MgpError)
    ensures
        e == access_error(p is None || result is None, index as nat, p->0@.edges.len()),
        result matches Some(r) ==> *final(r) == if e is InvalidArgument {
            *r
        } else if e is NoError {
            Some(p->0@.edges[index as int])
        } else {
            None
        },
{
    match (p, result) {
        (Some(x), Some(r)) => {
            if index >= x.edges.len() {
                *r = None;
                return MgpError::OutOfRange;
            }
            *r = Some(x.edges[index]);
            MgpError::NoError
        },
        _ => MgpError::InvalidArgument,
    }
}

/// Whether two paths pass the same vertices and edges, by their numbers.
pub open spec fn same_trail(a: Trail, b: Trail) -> bool {
    &&& a.vertices.len() == b.vertices.len()
    &&& a.edges.len() == b.edges.len()
    &&& forall|i: int| 0 <= i < a.vertices.len() ==> (#[trigger] a.vertices[i]).gid == b.vertices[i].gid
    &&& forall|i: int| 0 <= i < a.edges.len() ==> (#[trigger] a.edges[i]).gid == b.edges[i].gid
}

fn paths_equal(a: &mgp_path, b: &mgp_path) -> (r: bool)
    ensures
        r == same_trail(a@, b@),
{
    if a.vertices.len() != b.vertices.len() || a.edges.len() != b.edges.len() {
        return false;
    }
    let mut i: usize = 0;
    while i < a.vertices.len()
        invariant
            i <= a.vertices@.len(),
            a.vertices@.len() == b.vertices@.len(),
            forall|j: int| 0 <= j < i ==> (#[trigger] a@.vertices[j]).gid == b@.vertices[j].gid,
        decreases a.vertices@.len() - i,
    {
        if a.vertices[i].gid != b.vertices[i].gid {
            assert(a@.vertices[i as int].gid != b@.vertices[i as int].gid);
            return false;
        }
        i += 1;
    }
    let mut i: usize = 0;
    while i < a.edges.len()
        invariant
            i <= a.edges@.len(),
            a.edges@.len() == b.edges@.len(),
            forall|j: int| 0 <= j < i ==> (#[trigger] a@.edges[j]).gid == b@.edges[j].gid,
        decreases a.edges@.len() - i,
    {
        if a.edges[i].gid != b.edges[i].gid {
            assert(a@.edges[i as int].gid != b@.edges[i as int].gid);
            return false;
        }
        i += 1;
    }
    true
}

/// Tells whether two paths are the same.
pub fn mgp_path_equal(p1: Option<&mgp_path>, p2: Option<&mgp_path>, result: Option<&mut i32>) -> (e: MgpError)
    ensures
        e == given(p1 is None || p2 is None || result is None),
        result matches Some(r) ==> *final(r) == if e is NoError {
            flag(same_trail(p1->0@, p2->0@))
        } else {
            *r
        },
{
    match (p1, p2, result) {
        (Some(a), Some(b), Some(r)) => {
            *r = to_flag(paths_equal(a, b));
            MgpError::NoError
        },
        _ => MgpError::InvalidArgument,
    }
}

/// The answer that the storage gives for a number.
pub open spec fn answer<F: Fn(u64) -> bool>(f: F, gid: u64) -> bool {
    choose|b: bool| call_ensures(f, (gid,), b)
}

/// A function that may be asked about any number and gives one answer for each.
pub open spec fn answers<F: Fn(u64) -> bool>(f: F) -> bool {
    &&& forall|gid: u64| #[trigger] call_requires(f, (gid,))
    &&& forall|gid: u64, b: bool| #[trigger] call_ensures(f, (gid,), b) ==> b == answer(f, gid)
}

/// Whether a path passes a vertex or an edge that is not there, or that belongs to no graph.
pub open spec fn passes_deleted<F: Fn(u64) -> bool, G: Fn(u64) -> bool>(vertex_there: F, edge_there: G, p: Trail) -> bool {
    ||| exists|i: int| 0 <= i < p.vertices.len() && ((#[trigger] p.vertices[i]).graph == 0 || !answer(vertex_there, p.vertices[i].gid))
    ||| exists|i: int| 0 <= i < p.edges.len() && ((#[trigger] p.edges[i]).graph == 0 || !answer(edge_there, p.edges[i].gid))
}

/// Tells whether a path passes a vertex or an edge that was deleted.
pub fn mgp_path_contains_deleted<F: Fn(u64) -> bool, G: Fn(u64) -> bool>(
    p: Option<&mgp_path>,
    vertex_there: &F,
    edge_there: &G,
    result: Option<&mut i32>,
) -> (e: MgpError)
    requires
        answers(*vertex_there),
        answers(*edge_there),
    ensures
        e == given(p is None || result is None),
        result matches Some(r) ==> *final(r) == match p {
            Some(x) => flag(passes_deleted(*vertex_there, *edge_there, x@)),
            None => *r,
        },
{
    match (p, result) {
        (Some(x), Some(r)) => {
            *r = to_flag(has_deleted(x, vertex_there, edge_there));
            MgpError::NoError
        },
        _ => MgpError::InvalidArgument,
    }
}

fn has_deleted<F: Fn(u64) -> bool, G: Fn(u64) -> bool>(p: &mgp_path, vertex_there: &F, edge_there: &G) -> (r: bool)
    requires
        answers(*vertex_there),
        answers(*edge_there),
    ensures
        r == passes_deleted(*vertex_there, *edge_there, p@),
{
    let mut i: usize = 0;
    while i < p.vertices.len()
        invariant
            answers(*vertex_there),
            i <= p.vertices@.len(),
            forall|j: int| 0 <= j < i ==> (#[trigger] p@.vertices[j]).graph != 0 && answer(*vertex_there, p@.vertices[j].gid),
        decreases p.vertices@.len() - i,
    {
        let v = p.vertices[i];
        if v.graph == 0 || !vertex_there(v.gid) {
            assert(p@.vertices[i as int] == v);
            return true;
        }
        i += 1;
    }
    let mut i: usize = 0;
    while i < p.edges.len()
        invariant
            answers(*edge_there),
            i <= p.edges@.len(),
            forall|j: int| 0 <= j < i ==> (#[trigger] p@.edges[j]).graph != 0 && answer(*edge_there, p@.edges[j].gid),
        decreases p.edges@.len() - i,
    {
        let edge = p.edges[i];
        if edge.graph == 0 || !edge_there(edge.gid) {
            assert(p@.edges[i as int] == edge);
            return true;
        }
        i += 1;
    }
    false
}

/// Copies a path.
pub fn mgp_path_copy(p: Option<&mgp_path>, _memory: Option<&mgp_memory>, result: Option<&mut Option<mgp_path>>) -> (e: MgpError)
    ensures
        e == given(p is None || result is None),
        result matches Some(r) ==> opt_view(*final(r)) == match p {
            Some(x) => Some(x@),
            None => opt_view(*r),
        },
{
    match (p, result) {
        (Some(x), Some(r)) => {
            *r = Some(x.clone());
            MgpError::NoError
        },
        _ => MgpError::InvalidArgument,
    }
}

/// A path is the same as its copy.
pub proof fn copies_are_the_same(p: Trail)
    ensures
        same_trail(p, p),
{
}

/// Makes a path of one vertex.
pub fn mgp_path_make_with_start(v: Option<&mgp_vertex>, _memory: Option<&mgp_memory>, result: Option<&mut Option<mgp_path>>) -> (e: MgpError)
    ensures
        e == given(v is None || result is None),
        result matches Some(r) ==> opt_view(*final(r)) == match v {
            Some(x) => Some(Trail { vertices: seq![*x], edges: Seq::empty() }),
            None => opt_view(*r),
        },
{
    match (v, result) {
        (Some(x), Some(r)) => {
            let mut vertices: Vec<mgp_vertex> = Vec::new();
            vertices.push(*x);
            let path = mgp_path { vertices, edges: Vec::new() };
            assert(path@.vertices =~= seq![*x]);
            assert(path@.edges =~= Seq::empty());
            *r = Some(path);
            MgpError::NoError
        },
        _ => MgpError::InvalidArgument,
    }
}

/// Puts an edge behind the edges of a path; a path without a vertex cannot grow.
pub fn mgp_path_expand(p: Option<&mut mgp_path>, edge: Option<&mgp_edge>) -> (e: MgpError)
    ensures
        e == if p is None || edge is None {
            MgpError::InvalidArgument
        } else if p->0@.vertices.len() == 0 {
            MgpError::LogicError
        } else {
            MgpError::NoError
        },
        p matches Some(x) ==> final(x)@.vertices == x@.vertices && final(x)@.edges == if e is NoError {
            x@.edges.push(*edge->0)
        } else {
            x@.edges
        },
{
    match (p, edge) {
        (Some(x), Some(y)) => {
            if x.vertices.len() == 0 {
                return MgpError::LogicError;
            }
            x.edges.push(*y);
            MgpError::NoError
        },
        _ => MgpError::InvalidArgument,
    }
}

/// Takes the last edge off a path.
pub fn mgp_path_pop(p: Option<&mut mgp_path>) -> (e: MgpError)
    ensures
        e == if p is None {
            MgpError::InvalidArgument
        } else if p->0@.edges.len() == 0 {
            MgpError::OutOfRange
        } else {
            MgpError::NoError
        },
        p matches Some(x) ==> final(x)@.vertices == x@.vertices && final(x)@.edges == if e is NoError {
            x@.edges.drop_last()
        } else {
            x@.edges
        },
{
    match p {
        Some(x) => {
            if x.edges.len() == 0 {
                return MgpError::OutOfRange;
            }
            let last = x.edges.pop();
            MgpError::NoError
        },
        None => MgpError::InvalidArgument,
    }
}

/// A path that grew by an edge and lost it again is as it was.
pub proof fn popping_undoes_expanding(p: Trail, edge: mgp_edge)
    ensures
        (Trail { vertices: p.vertices, edges: p.edges.push(edge).drop_last() }) == p,
{
    assert(p.edges.push(edge).drop_last() =~= p.edges);
}

} // verus!
