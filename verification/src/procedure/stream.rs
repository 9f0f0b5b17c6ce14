//! Streams of records, what a transformation is given, and what a trigger is told.
use vstd::prelude::*;

use crate::procedure::codes::{MgpError, MgpTriggerEventType};
use crate::procedure::collections::{access_error, Entries};
use crate::procedure::entities::{given, mgp_edges_iterator, mgp_graph, mgp_vertices_iterator};
use crate::procedure::registration::{mgp_result_record, record_views};
use crate::procedure::value::{mgp_edge, mgp_value, mgp_vertex, opt_view, Val};

verus! {

/// Records that are pulled from a stream at once.
#[derive(Debug)]
pub struct mgp_stream_batch {
    pub records: Vec<mgp_result_record>,
}

/// The batches of a stream, one after the other.
#[derive(Debug)]
pub struct mgp_stream {
    pub batches: Vec<mgp_stream_batch>,
    pub pos: usize,
}

impl View for mgp_stream_batch {
    type V = Seq<Entries>;

    open spec fn view(&self) -> Seq<Entries> {
        record_views(self.records@)
    }
}

/// The batches of a stream, and how many of them were pulled.
pub struct Batches {
    pub batches: Seq<Seq<Entries>>,
    pub pos: usize,
}

impl View for mgp_stream {
    type V = Batches;

    open spec fn view(&self) -> Batches {
        Batches { batches: Seq::new(self.batches@.len(), |i: int| self.batches@[i]@), pos: self.pos }
    }
}

/// Makes a stream without batches.
pub fn mgp_stream_make_empty(result: Option<&mut Option<mgp_stream>>) -> (e: MgpError)
    ensures
        e == given(result is None),
        result matches Some(r) ==> opt_view(*final(r)) == Some((Batches { batches: Seq::empty(), pos: 0 })),
{
    match result {
        Some(r) => {
            let s = mgp_stream { batches: Vec::new(), pos: 0 };
            assert(s@.batches =~= Seq::empty());
            *r = Some(s);
            MgpError::NoError
        },
        None => MgpError::InvalidArgument,
    }
}

/// Makes a batch without records.
pub fn mgp_stream_batch_make_empty(result: Option<&mut Option<mgp_stream_batch>>) -> (e: MgpError)
    ensures
        e == given(result is None),
        result matches Some(r) ==> opt_view(*final(r)) == Some(Seq::<Entries>::empty()),
{
    match result {
        Some(r) => {
            let b = mgp_stream_batch { records: Vec::new() };
            assert(b@ =~= Seq::empty());
            *r = Some(b);
            MgpError::NoError
        },
        None => MgpError::InvalidArgument,
    }
}

/// Tells how many records a batch holds.
pub fn mgp_stream_batch_size(batch: Option<&mgp_stream_batch>, result: Option<&mut usize>) -> (e: MgpError)
    ensures
        e == given(batch is None || result is None),
        result matches Some(r) ==> *final(r) == match batch {
            Some(b) => b@.len(),
            None => *r as nat,
        },
{
    match (batch, result) {
        (Some(b), Some(r)) => {
            *r = b.records.len();
            MgpError::NoError
        },
        _ => MgpError::InvalidArgument,
    }
}

/// Hands out a copy of a record of a batch.
pub fn mgp_stream_batch_at(batch: Option<&mgp_stream_batch>, index: usize, result: Option<&mut Option<mgp_result_record>>) -> (e: MgpError)
    ensures
        e == access_error(batch is None || result is None, index as nat, batch->0@.len()),
        result matches Some(r) ==> opt_view(*final(r)) == if e is NoError {
            Some(batch->0@[index as int])
        } else {
            opt_view(*r)
        },
{
    match (batch, result) {
        (Some(b), Some(r)) => {
            if index >= b.records.len() {
                return MgpError::OutOfRange;
            }
            *r = Some(b.records[index].clone());
            MgpError::NoError
        },
        _ => MgpError::InvalidArgument,
    }
}

/// What a transformation is given: the graph, and the records that it makes.
#[derive(Debug)]
pub struct mgp_transformation_ctx {
    pub graph: Option<mgp_graph>,
    pub records: Vec<mgp_result_record>,
}

/// Hands out the graph of a transformation.
pub fn mgp_transformation_ctx_graph(ctx: Option<&mgp_transformation_ctx>, result: Option<&mut Option<mgp_graph>>) -> (e: MgpError)
    ensures
        e == given(ctx is None || result is None),
        result matches Some(r) ==> *final(r) == match ctx {
            Some(c) => c.graph,
            None => *r,
        },
{
    match (ctx, result) {
        (Some(c), Some(r)) => {
            *r = c.graph;
            MgpError::NoError
        },
        _ => MgpError::InvalidArgument,
    }
}

/// Adds a copy of a record to those that a transformation makes.
pub fn mgp_transformation_ctx_add_record(ctx: Option<&mut mgp_transformation_ctx>, record: Option<&mgp_result_record>) -> (e: MgpError)
    ensures
        e == given(ctx is None || record is None),
        ctx matches Some(c) ==> final(c).graph == c.graph && record_views(final(c).records@) == match record {
            Some(rec) => record_views(c.records@).push(rec@),
            None => record_views(c.records@),
        },
{
    match (ctx, record) {
        (Some(c), Some(rec)) => {
            let ghost before = record_views(c.records@);
            c.records.push(rec.clone());
            assert(record_views(c.records@) =~= before.push(rec@));
            MgpError::NoError
        },
        _ => MgpError::InvalidArgument,
    }
}

/// A property that was set on a vertex. The values may be missing.
#[derive(Debug)]
pub struct SetProperty {
    pub gid: u64,
    pub name: String,
    pub old: Option<mgp_value>,
    pub new: Option<mgp_value>,
}

/// A property that was removed from a vertex. The value may be missing.
#[derive(Debug)]
pub struct RemovedProperty {
    pub gid: u64,
    pub name: String,
    pub old: Option<mgp_value>,
}

/// A property that was set on a vertex.
pub struct Setting {
    pub gid: u64,
    pub name: Seq<char>,
    pub old: Option<Val>,
    pub new: Option<Val>,
}

/// A property that was removed from a vertex.
pub struct Removal {
    pub gid: u64,
    pub name: Seq<char>,
    pub old: Option<Val>,
}

impl View for SetProperty {
    type V = Setting;

    open spec fn view(&self) -> Setting {
        Setting { gid: self.gid, name: self.name@, old: opt_view(self.old), new: opt_view(self.new) }
    }
}

impl View for RemovedProperty {
    type V = Removal;

    open spec fn view(&self) -> Removal {
        Removal { gid: self.gid, name: self.name@, old: opt_view(self.old) }
    }
}

fn copy_value(v: &Option<mgp_value>) -> (r: Option<mgp_value>)
    ensures
        opt_view(r) == opt_view(*v),
{
    match v {
        Some(x) => Some(x.clone()),
        None => None,
    }
}

impl Clone for SetProperty {
    fn clone(&self) -> (r: Self)
        ensures
            r@ == self@,
    {
        SetProperty { gid: self.gid, name: self.name.clone(), old: copy_value(&self.old), new: copy_value(&self.new) }
    }
}

impl Clone for RemovedProperty {
    fn clone(&self) -> (r: Self)
        ensures
            r@ == self@,
    {
        RemovedProperty { gid: self.gid, name: self.name.clone(), old: copy_value(&self.old) }
    }
}

/// The models of properties that were set.
pub open spec fn settings(v: Seq<SetProperty>) -> Seq<Setting> {
    Seq::new(v.len(), |i: int| v[i]@)
}

/// The models of properties that were removed.
pub open spec fn removals(v: Seq<RemovedProperty>) -> Seq<Removal> {
    Seq::new(v.len(), |i: int| v[i]@)
}

/// What a trigger is told. Vertices and edges are known by their numbers, the graph by its address,
/// which is zero where there is none.
#[derive(Debug)]
pub struct mgp_trigger_context {
    pub event: MgpTriggerEventType,
    pub created_vertices: Vec<u64>,
    pub created_edges: Vec<u64>,
    pub deleted_vertices: Vec<u64>,
    pub deleted_edges: Vec<u64>,
    pub set_property_vertices: Vec<SetProperty>,
    pub removed_property_vertices: Vec<RemovedProperty>,
    pub graph: u64,
    pub vertex_before: Option<mgp_vertex>,
    pub vertex_after: Option<mgp_vertex>,
    pub edge_before: Option<mgp_edge>,
    pub edge_after: Option<mgp_edge>,
}

/// Tells the event that caused a trigger to fire.
pub fn mgp_trigger_context_event_type(ctx: Option<&mgp_trigger_context>, result: Option<&mut MgpTriggerEventType>) -> (e: MgpError)
    ensures
        e == given(ctx is None || result is None),
        result matches Some(r) ==> *final(r) == match ctx {
            Some(c) => c.event,
            None => *r,
        },
{
    match (ctx, result) {
        (Some(c), Some(r)) => {
            *r = c.event;
            MgpError::NoError
        },
        _ => MgpError::InvalidArgument,
    }
}

fn copy_keys(v: &Vec<u64>) -> (r: Vec<u64>)
    ensures
        r@ == v@,
{
    let r = v.clone();
    assert(r@ =~= v@);
    r
}

/// Starts an iteration over the vertices that were created.
pub fn mgp_trigger_context_created_vertices(ctx: Option<&mgp_trigger_context>, result: Option<&mut Option<mgp_vertices_iterator>>) -> (e: MgpError)
    ensures
        e == given(ctx is None || result is None),
        result matches Some(r) ==> match ctx {
            Some(c) => *final(r) matches Some(it) && it.graph == c.graph && it.keys@ == c.created_vertices@ && it.pos == 0,
            None => *final(r) == *r,
        },
{
    match (ctx, result) {
        (Some(c), Some(r)) => {
            *r = Some(mgp_vertices_iterator { graph: c.graph, keys: copy_keys(&c.created_vertices), pos: 0 });
            MgpError::NoError
        },
        _ => MgpError::InvalidArgument,
    }
}

/// Starts an iteration over the edges that were created.
pub fn mgp_trigger_context_created_edges(ctx: Option<&mgp_trigger_context>, result: Option<&mut Option<mgp_edges_iterator>>) -> (e: MgpError)
    ensures
        e == given(ctx is None || result is None),
        result matches Some(r) ==> match ctx {
            Some(c) => *final(r) matches Some(it) && it.graph == c.graph && it.keys@ == c.created_edges@ && it.pos == 0,
            None => *final(r) == *r,
        },
{
    match (ctx, result) {
        (Some(c), Some(r)) => {
            *r = Some(mgp_edges_iterator { graph: c.graph, keys: copy_keys(&c.created_edges), pos: 0 });
            MgpError::NoError
        },
        _ => MgpError::InvalidArgument,
    }
}

/// Starts an iteration over the vertices that were deleted.
pub fn mgp_trigger_context_deleted_vertices(ctx: Option<&mgp_trigger_context>, result: Option<&mut Option<mgp_vertices_iterator>>) -> (e: MgpError)
    ensures
        e == given(ctx is None || result is None),
        result matches Some(r) ==> match ctx {
            Some(c) => *final(r) matches Some(it) && it.graph == c.graph && it.keys@ == c.deleted_vertices@ && it.pos == 0,
            None => *final(r) == *r,
        },
{
    match (ctx, result) {
        (Some(c), Some(r)) => {
            *r = Some(mgp_vertices_iterator { graph: c.graph, keys: copy_keys(&c.deleted_vertices), pos: 0 });
            MgpError::NoError
        },
        _ => MgpError::InvalidArgument,
    }
}

/// Starts an iteration over the edges that were deleted.
pub fn mgp_trigger_context_deleted_edges(ctx: Option<&mgp_trigger_context>, result: Option<&mut Option<mgp_edges_iterator>>) -> (e: MgpError)
    ensures
        e == given(ctx is None || result is None),
        result matches Some(r) ==> match ctx {
            Some(c) => *final(r) matches Some(it) && it.graph == c.graph && it.keys@ == c.deleted_edges@ && it.pos == 0,
            None => *final(r) == *r,
        },
{
    match (ctx, result) {
        (Some(c), Some(r)) => {
            *r = Some(mgp_edges_iterator { graph: c.graph, keys: copy_keys(&c.deleted_edges), pos: 0 });
            MgpError::NoError
        },
        _ => MgpError::InvalidArgument,
    }
}

/// An iteration over properties that were set.
#[derive(Debug)]
pub struct mgp_set_property_vertices_iterator {
    pub items: Vec<SetProperty>,
    pub pos: usize,
    pub graph: u64,
}

/// Starts an iteration over properties that were set.
pub fn mgp_trigger_context_set_property_vertices(
    ctx: Option<&mgp_trigger_context>,
    result: Option<&mut Option<mgp_set_property_vertices_iterator>>,
) -> (e: MgpError)
    ensures
        e == given(ctx is None || result is None),
        result matches Some(r) ==> match ctx {
            Some(c) => *final(r) matches Some(it) && it.graph == c.graph && settings(it.items@) == settings(
                c.set_property_vertices@,
            ) && it.pos == 0,
            None => *final(r) == *r,
        },
{
    match (ctx, result) {
        (Some(c), Some(r)) => {
            let items = copy_settings(&c.set_property_vertices);
            *r = Some(mgp_set_property_vertices_iterator { items, pos: 0, graph: c.graph });
            MgpError::NoError
        },
        _ => MgpError::InvalidArgument,
    }
}

fn copy_settings(v: &Vec<SetProperty>) -> (r: Vec<SetProperty>)
    ensures
        settings(r@) == settings(v@),
{
    let mut r: Vec<SetProperty> = Vec::new();
    let mut i: usize = 0;
    while i < v.len()
        invariant
            i <= v@.len(),
            r@.len() == i,
            forall|j: int| 0 <= j < i ==> (#[trigger] r@[j])@ == v@[j]@,
        decreases v@.len() - i,
    {
        r.push(v[i].clone());
        i += 1;
    }
    assert(settings(r@) =~= settings(v@));
    r
}

/// Hands out the next property that was set: the vertex, and where they are wanted, the name and
/// the values. There is no vertex where there is no more.
pub fn mgp_set_property_vertices_iterator_get(
    it: Option<&mut mgp_set_property_vertices_iterator>,
    result: Option<&mut Option<mgp_vertex>>,
    property_name: Option<&mut Option<String>>,
    old_value: Option<&mut Option<mgp_value>>,
    new_value: Option<&mut Option<mgp_value>>,
) -> (e: MgpError)
    ensures
        e == given(it is None || result is None),
        it matches Some(i) ==> final(i).items == i.items && final(i).graph == i.graph && final(i).pos == if it is Some && result is Some && it->0.pos < it->0.items@.len() {
            i.pos + 1
        } else {
            i.pos as int
        },
        result matches Some(r) ==> *final(r) == match it {
            Some(i) => if i.pos < i.items@.len() {
                Some(mgp_vertex { gid: i.items@[i.pos as int].gid, graph: i.graph })
            } else {
                None
            },
            None => *r,
        },
        property_name matches Some(n) ==> opt_view(*final(n)) == if it is Some && result is Some && it->0.pos < it->0.items@.len() {
            Some(it->0.items@[it->0.pos as int].name@)
        } else {
            opt_view(*n)
        },
        old_value matches Some(o) ==> opt_view(*final(o)) == if it is Some && result is Some && it->0.pos < it->0.items@.len() {
            opt_view(it->0.items@[it->0.pos as int].old)
        } else {
            opt_view(*o)
        },
        new_value matches Some(o) ==> opt_view(*final(o)) == if it is Some && result is Some && it->0.pos < it->0.items@.len() {
            opt_view(it->0.items@[it->0.pos as int].new)
        } else {
            opt_view(*o)
        },
{
    match (it, result) {
        (Some(i), Some(r)) => {
            if i.pos >= i.items.len() {
                *r = None;
                return MgpError::NoError;
            }
            let pos: usize = i.pos;
            *r = Some(mgp_vertex { gid: i.items[pos].gid, graph: i.graph });
            match property_name {
                Some(n) => {
                    *n = Some(i.items[pos].name.clone());
                },
                None => {},
            }
            match old_value {
                Some(o) => {
                    *o = copy_value(&i.items[pos].old);
                },
                None => {},
            }
            match new_value {
                Some(o) => {
                    *o = copy_value(&i.items[pos].new);
                },
                None => {},
            }
            i.pos = pos + 1;
            MgpError::NoError
        },
        _ => MgpError::InvalidArgument,
    }
}

/// An iteration over properties that were removed.
#[derive(Debug)]
pub struct mgp_removed_property_vertices_iterator {
    pub items: Vec<RemovedProperty>,
    pub pos: usize,
    pub graph: u64,
}

/// Starts an iteration over properties that were removed.
pub fn mgp_trigger_context_removed_property_vertices(
    ctx: Option<&mgp_trigger_context>,
    result: Option<&mut Option<mgp_removed_property_vertices_iterator>>,
) -> (e: MgpError)
    ensures
        e == given(ctx is None || result is None),
        result matches Some(r) ==> match ctx {
            Some(c) => *final(r) matches Some(it) && it.graph == c.graph && removals(it.items@) == removals(
                c.removed_property_vertices@,
            ) && it.pos == 0,
            None => *final(r) == *r,
        },
{
    match (ctx, result) {
        (Some(c), Some(r)) => {
            let items = copy_removals(&c.removed_property_vertices);
            *r = Some(mgp_removed_property_vertices_iterator { items, pos: 0, graph: c.graph });
            MgpError::NoError
        },
        _ => MgpError::InvalidArgument,
    }
}

fn copy_removals(v: &Vec<RemovedProperty>) -> (r: Vec<RemovedProperty>)
    ensures
        removals(r@) == removals(v@),
{
    let mut r: Vec<RemovedProperty> = Vec::new();
    let mut i: usize = 0;
    while i < v.len()
        invariant
            i <= v@.len(),
            r@.len() == i,
            forall|j: int| 0 <= j < i ==> (#[trigger] r@[j])@ == v@[j]@,
        decreases v@.len() - i,
    {
        r.push(v[i].clone());
        i += 1;
    }
    assert(removals(r@) =~= removals(v@));
    r
}

/// Hands out the next property that was removed: the vertex, and where they are wanted, the name and
/// the value. There is no vertex where there is no more.
pub fn mgp_removed_property_vertices_iterator_get(
    it: Option<&mut mgp_removed_property_vertices_iterator>,
    result: Option<&mut Option<mgp_vertex>>,
    property_name: Option<&mut Option<String>>,
    old_value: Option<&mut Option<mgp_value>>,
) -> (e: MgpError)
    ensures
        e == given(it is None || result is None),
        it matches Some(i) ==> final(i).items == i.items && final(i).graph == i.graph && final(i).pos == if it is Some && result is Some && it->0.pos < it->0.items@.len() {
            i.pos + 1
        } else {
            i.pos as int
        },
        result matches Some(r) ==> *final(r) == match it {
            Some(i) => if i.pos < i.items@.len() {
                Some(mgp_vertex { gid: i.items@[i.pos as int].gid, graph: i.graph })
            } else {
                None
            },
            None => *r,
        },
        property_name matches Some(n) ==> opt_view(*final(n)) == if it is Some && result is Some && it->0.pos < it->0.items@.len() {
            Some(it->0.items@[it->0.pos as int].name@)
        } else {
            opt_view(*n)
        },
        old_value matches Some(o) ==> opt_view(*final(o)) == if it is Some && result is Some && it->0.pos < it->0.items@.len() {
            opt_view(it->0.items@[it->0.pos as int].old)
        } else {
            opt_view(*o)
        },
{
    match (it, result) {
        (Some(i), Some(r)) => {
            if i.pos >= i.items.len() {
                *r = None;
                return MgpError::NoError;
            }
            let pos: usize = i.pos;
            *r = Some(mgp_vertex { gid: i.items[pos].gid, graph: i.graph });
            match property_name {
                Some(n) => {
                    *n = Some(i.items[pos].name.clone());
                },
                None => {},
            }
            match old_value {
                Some(o) => {
                    *o = copy_value(&i.items[pos].old);
                },
                None => {},
            }
            i.pos = pos + 1;
            MgpError::NoError
        },
        _ => MgpError::InvalidArgument,
    }
}

/// Hands out the vertex before a change; there may be none.
pub fn mgp_trigger_context_vertex_before(ctx: Option<&mgp_trigger_context>, result: Option<&mut Option<mgp_vertex>>) -> (e: MgpError)
    ensures
        e == given(ctx is None || result is None),
        result matches Some(r) ==> *final(r) == match ctx {
            Some(c) => c.vertex_before,
            None => *r,
        },
{
    match (ctx, result) {
        (Some(c), Some(r)) => {
            *r = c.vertex_before;
            MgpError::NoError
        },
        _ => MgpError::InvalidArgument,
    }
}

/// Hands out the vertex after a change; there may be none.
pub fn mgp_trigger_context_vertex_after(ctx: Option<&mgp_trigger_context>, result: Option<&mut Option<mgp_vertex>>) -> (e: MgpError)
    ensures
        e == given(ctx is None || result is None),
        result matches Some(r) ==> *final(r) == match ctx {
            Some(c) => c.vertex_after,
            None => *r,
        },
{
    match (ctx, result) {
        (Some(c), Some(r)) => {
            *r = c.vertex_after;
            MgpError::NoError
        },
        _ => MgpError::InvalidArgument,
    }
}

/// Hands out the edge before a change; there may be none.
pub fn mgp_trigger_context_edge_before(ctx: Option<&mgp_trigger_context>, result: Option<&mut Option<mgp_edge>>) -> (e: MgpError)
    ensures
        e == given(ctx is None || result is None),
        result matches Some(r) ==> *final(r) == match ctx {
            Some(c) => c.edge_before,
            None => *r,
        },
{
    match (ctx, result) {
        (Some(c), Some(r)) => {
            *r = c.edge_before;
            MgpError::NoError
        },
        _ => MgpError::InvalidArgument,
    }
}

/// Hands out the edge after a change; there may be none.
pub fn mgp_trigger_context_edge_after(ctx: Option<&mgp_trigger_context>, result: Option<&mut Option<mgp_edge>>) -> (e: MgpError)
    ensures
        e == given(ctx is None || result is None),
        result matches Some(r) ==> *final(r) == match ctx {
            Some(c) => c.edge_after,
            None => *r,
        },
{
    match (ctx, result) {
        (Some(c), Some(r)) => {
            *r = c.edge_after;
            MgpError::NoError
        },
        _ => MgpError::InvalidArgument,
    }
}

} // verus!
