//! Streams, transformations, triggers, queries that procedures run, and loaded modules.
use std::cell::{Cell, RefCell};

use graphkit::procedure::codes::{mgp_log, mgp_source_type, MgpError, MgpTriggerEventType};
use graphkit::procedure::entities::{
    mgp_edges_iterator, mgp_edges_iterator_get, mgp_graph, mgp_vertices_iterator, mgp_vertices_iterator_get,
};
use graphkit::procedure::execution::{
    hand_out_rows, mgp_execute_query, mgp_execution_headers, mgp_execution_headers_at, mgp_execution_headers_size, mgp_execution_result,
    mgp_fetch_execution_headers, mgp_message, mgp_message_key, mgp_message_key_size, mgp_message_offset, mgp_message_payload, mgp_message_payload_size,
    mgp_message_source_type, mgp_message_timestamp, mgp_message_topic_name, mgp_messages_at, mgp_messages_size, mgp_pull_one, QueryResult,
};
use graphkit::procedure::modules::{
    find_file_name, find_module_name, find_proc, leads_to_library, load_module, loaded_module_names, scan_and_load_directory, unload_module, ModuleRegistry,
    Started,
};
use graphkit::procedure::property::{mgp_value_to_property_value, property_value_to_mgp_value, Crs, NamedValue, PropertyValue};
use graphkit::procedure::registration::{mgp_module, mgp_module_add_read_procedure, mgp_module_add_write_procedure, mgp_result_record};
use graphkit::procedure::stream::{
    mgp_removed_property_vertices_iterator, mgp_removed_property_vertices_iterator_get, mgp_set_property_vertices_iterator,
    mgp_set_property_vertices_iterator_get, mgp_stream, mgp_stream_batch, mgp_stream_batch_at, mgp_stream_batch_make_empty, mgp_stream_batch_size,
    mgp_stream_make_empty, mgp_transformation_ctx, mgp_transformation_ctx_add_record, mgp_transformation_ctx_graph, mgp_trigger_context,
    mgp_trigger_context_created_edges, mgp_trigger_context_created_vertices, mgp_trigger_context_deleted_edges, mgp_trigger_context_deleted_vertices,
    mgp_trigger_context_edge_after, mgp_trigger_context_edge_before, mgp_trigger_context_event_type, mgp_trigger_context_removed_property_vertices,
    mgp_trigger_context_set_property_vertices, mgp_trigger_context_vertex_after, mgp_trigger_context_vertex_before, RemovedProperty, SetProperty,
};
use graphkit::procedure::value::{mgp_edge, mgp_map, mgp_value, mgp_value_get_int, mgp_vertex, ValueInner};

fn integer(n: i64) -> mgp_value {
    mgp_value { inner: ValueInner::Int(n) }
}

fn empty_record() -> mgp_result_record {
    mgp_result_record { fields: mgp_map { items: Vec::new() } }
}

fn context(event: MgpTriggerEventType) -> mgp_trigger_context {
    mgp_trigger_context {
        event,
        created_vertices: vec![],
        created_edges: vec![],
        deleted_vertices: vec![],
        deleted_edges: vec![],
        set_property_vertices: vec![],
        removed_property_vertices: vec![],
        graph: 0,
        vertex_before: None,
        vertex_after: None,
        edge_before: None,
        edge_after: None,
    }
}

#[test]
fn stream_batch_make_size_at() {
    let mut batch: Option<mgp_stream_batch> = None;
    assert_eq!(mgp_stream_batch_make_empty(Some(&mut batch)), MgpError::NoError);
    assert!(batch.is_some());

    let mut size = 99usize;
    assert_eq!(mgp_stream_batch_size(batch.as_ref(), Some(&mut size)), MgpError::NoError);
    assert_eq!(size, 0);

    let mut at: Option<mgp_result_record> = None;
    assert_eq!(mgp_stream_batch_at(batch.as_ref(), 0, Some(&mut at)), MgpError::OutOfRange);

    let mut batch = batch.unwrap();
    batch.records.push(empty_record());
    assert_eq!(mgp_stream_batch_at(Some(&batch), 0, Some(&mut at)), MgpError::NoError);
    assert!(at.is_some());
}

#[test]
fn stream_make_and_destroy() {
    let mut stream: Option<mgp_stream> = None;
    assert_eq!(mgp_stream_make_empty(Some(&mut stream)), MgpError::NoError);
    assert!(stream.is_some());
}

#[test]
fn transformation_ctx_graph_and_add_record() {
    let mut ctx = mgp_transformation_ctx { graph: None, records: Vec::new() };

    let mut g: Option<mgp_graph> = None;
    assert_eq!(mgp_transformation_ctx_graph(Some(&ctx), Some(&mut g)), MgpError::NoError);
    assert!(g.is_none());

    let record = empty_record();
    assert_eq!(mgp_transformation_ctx_add_record(Some(&mut ctx), Some(&record)), MgpError::NoError);
    assert_eq!(ctx.records.len(), 1);
}

#[test]
fn trigger_context_event_type_and_iterators() {
    let ctx = mgp_trigger_context {
        created_vertices: vec![1, 2],
        created_edges: vec![10],
        ..context(MgpTriggerEventType::CreateVertex)
    };

    let mut event = MgpTriggerEventType::DeleteEdge;
    assert_eq!(mgp_trigger_context_event_type(Some(&ctx), Some(&mut event)), MgpError::NoError);
    assert_eq!(event, MgpTriggerEventType::CreateVertex);

    let mut it: Option<mgp_vertices_iterator> = None;
    assert_eq!(mgp_trigger_context_created_vertices(Some(&ctx), Some(&mut it)), MgpError::NoError);
    assert!(it.is_some());

    let mut v: Option<mgp_vertex> = None;
    assert_eq!(mgp_vertices_iterator_get(it.as_mut(), Some(&mut v)), MgpError::NoError);
    assert!(v.is_some());
    assert_eq!(v.unwrap().gid, 1);

    let mut eit: Option<mgp_edges_iterator> = None;
    assert_eq!(mgp_trigger_context_created_edges(Some(&ctx), Some(&mut eit)), MgpError::NoError);
    let mut e: Option<mgp_edge> = None;
    assert_eq!(mgp_edges_iterator_get(eit.as_mut(), Some(&mut e)), MgpError::NoError);
    assert!(e.is_some());
    assert_eq!(e.unwrap().gid, 10);

    mgp_trigger_context_deleted_vertices(Some(&ctx), Some(&mut it));
    assert!(it.unwrap().keys.is_empty());
    mgp_trigger_context_deleted_edges(Some(&ctx), Some(&mut eit));
    assert!(eit.unwrap().keys.is_empty());
}

#[test]
fn trigger_context_set_and_removed_property_vertices() {
    let ctx = mgp_trigger_context {
        set_property_vertices: vec![SetProperty { gid: 5, name: "age".to_string(), old: Some(integer(10)), new: Some(integer(20)) }],
        removed_property_vertices: vec![RemovedProperty { gid: 6, name: "name".to_string(), old: Some(integer(30)) }],
        ..context(MgpTriggerEventType::SetPropertyVertex)
    };

    let mut it: Option<mgp_set_property_vertices_iterator> = None;
    assert_eq!(mgp_trigger_context_set_property_vertices(Some(&ctx), Some(&mut it)), MgpError::NoError);
    let mut v: Option<mgp_vertex> = None;
    let mut pname: Option<String> = None;
    let mut ov: Option<mgp_value> = None;
    let mut nv: Option<mgp_value> = None;
    assert_eq!(
        mgp_set_property_vertices_iterator_get(it.as_mut(), Some(&mut v), Some(&mut pname), Some(&mut ov), Some(&mut nv)),
        MgpError::NoError
    );
    assert!(v.is_some());
    assert_eq!(v.unwrap().gid, 5);
    assert_eq!(pname.as_deref(), Some("age"));
    let mut n = 0i64;
    mgp_value_get_int(ov.as_ref(), Some(&mut n));
    assert_eq!(n, 10);
    mgp_value_get_int(nv.as_ref(), Some(&mut n));
    assert_eq!(n, 20);
    // No more: there is no vertex, and the rest is left as it was
    assert_eq!(mgp_set_property_vertices_iterator_get(it.as_mut(), Some(&mut v), Some(&mut pname), None, None), MgpError::NoError);
    assert!(v.is_none());
    assert_eq!(pname.as_deref(), Some("age"));

    let mut rit: Option<mgp_removed_property_vertices_iterator> = None;
    assert_eq!(mgp_trigger_context_removed_property_vertices(Some(&ctx), Some(&mut rit)), MgpError::NoError);
    let mut rv: Option<mgp_vertex> = None;
    let mut rpname: Option<String> = None;
    let mut rov: Option<mgp_value> = None;
    assert_eq!(
        mgp_removed_property_vertices_iterator_get(rit.as_mut(), Some(&mut rv), Some(&mut rpname), Some(&mut rov)),
        MgpError::NoError
    );
    assert!(rv.is_some());
    assert_eq!(rv.unwrap().gid, 6);
    mgp_value_get_int(rov.as_ref(), Some(&mut n));
    assert_eq!((rpname.as_deref(), n), (Some("name"), 30));
}

#[test]
fn trigger_context_vertex_before_after() {
    let ctx = mgp_trigger_context {
        vertex_before: Some(mgp_vertex { gid: 7, graph: 0 }),
        vertex_after: Some(mgp_vertex { gid: 8, graph: 0 }),
        edge_before: Some(mgp_edge { gid: 70, graph: 0 }),
        edge_after: Some(mgp_edge { gid: 80, graph: 0 }),
        ..context(MgpTriggerEventType::UpdateVertex)
    };

    let mut got_vb: Option<mgp_vertex> = None;
    let mut got_va: Option<mgp_vertex> = None;
    let mut got_eb: Option<mgp_edge> = None;
    let mut got_ea: Option<mgp_edge> = None;
    assert_eq!(mgp_trigger_context_vertex_before(Some(&ctx), Some(&mut got_vb)), MgpError::NoError);
    assert_eq!(mgp_trigger_context_vertex_after(Some(&ctx), Some(&mut got_va)), MgpError::NoError);
    assert_eq!(mgp_trigger_context_edge_before(Some(&ctx), Some(&mut got_eb)), MgpError::NoError);
    assert_eq!(mgp_trigger_context_edge_after(Some(&ctx), Some(&mut got_ea)), MgpError::NoError);
    assert_eq!(got_vb.unwrap().gid, 7);
    assert_eq!(got_va.unwrap().gid, 8);
    assert_eq!(got_eb.unwrap().gid, 70);
    assert_eq!(got_ea.unwrap().gid, 80);
}

fn two_rows() -> QueryResult {
    let row = |n: i64| vec![NamedValue { name: "n".to_string(), value: PropertyValue::Int(n) }];
    QueryResult { columns: vec!["n".to_string(), "m\0".to_string()], rows: vec![row(1), row(2)] }
}

#[test]
fn rows_are_pulled_in_order() {
    let asked: RefCell<Vec<(u64, String)>> = RefCell::new(Vec::new());
    let execute = |g: &mgp_graph, q: &str| {
        asked.borrow_mut().push((g.address, q.to_string()));
        Some(two_rows())
    };
    let g = mgp_graph { address: 5 };
    let mut result: Option<mgp_execution_result> = None;
    assert_eq!(mgp_execute_query(&g, "RETURN 1", None, None, &execute, Some(&mut result)), MgpError::NoError);
    assert_eq!(*asked.borrow(), vec![(5, "RETURN 1".to_string())]);
    let mut result = result.unwrap();
    for wanted in [1i64, 2] {
        let mut row: Option<mgp_map> = None;
        assert_eq!(mgp_pull_one(&mut result, None, Some(&mut row)), MgpError::NoError);
        let mut n = 0i64;
        mgp_value_get_int(Some(&row.unwrap().items[0].value), Some(&mut n));
        assert_eq!(n, wanted);
    }
    let mut row: Option<mgp_map> = None;
    assert_eq!(mgp_pull_one(&mut result, None, Some(&mut row)), MgpError::NoError);
    assert!(row.is_none());

    let mut headers: Option<mgp_execution_headers> = None;
    assert_eq!(mgp_fetch_execution_headers(&result, Some(&mut headers)), MgpError::NoError);
    let headers = headers.unwrap();
    let mut size = 0usize;
    assert_eq!(mgp_execution_headers_size(&headers, Some(&mut size)), MgpError::NoError);
    assert_eq!(size, 2);
    let mut name: Option<String> = None;
    assert_eq!(mgp_execution_headers_at(&headers, 0, Some(&mut name)), MgpError::NoError);
    assert_eq!(name.as_deref(), Some("n"));
    assert_eq!(mgp_execution_headers_at(&headers, 1, Some(&mut name)), MgpError::NoError);
    assert_eq!(name.as_deref(), Some(""));
    assert_eq!(mgp_execution_headers_at(&headers, 2, Some(&mut name)), MgpError::OutOfRange);
    assert!(name.is_none());
}

#[test]
fn queries_that_fail_hand_out_nothing() {
    let g = mgp_graph { address: 5 };
    let mut result: Option<mgp_execution_result> = None;
    assert_eq!(mgp_execute_query(&g, "?", None, None, |_: &mgp_graph, _: &str| None, Some(&mut result)), MgpError::InvalidArgument);
    assert!(result.is_none());
    let ran: Cell<bool> = Cell::new(false);
    let execute = |_: &mgp_graph, _: &str| {
        ran.set(true);
        Some(two_rows())
    };
    assert_eq!(mgp_execute_query(&g, "?", None, None, &execute, None), MgpError::InvalidArgument);
    assert!(!ran.get());
    assert_eq!(hand_out_rows(Some(two_rows()), Some(&mut result)), MgpError::NoError);
    assert_eq!(result.unwrap().rows.len(), 2);
}

#[test]
fn there_are_no_messages() {
    let mut source = mgp_source_type::Pulsar;
    assert_eq!(mgp_message_source_type(None, Some(&mut source)), MgpError::NoError);
    assert_eq!(source, mgp_source_type::Kafka);
    let mut s = Some("x".to_string());
    mgp_message_payload(None, Some(&mut s));
    assert!(s.is_none());
    mgp_message_topic_name(None, Some(&mut s));
    mgp_message_key(None, Some(&mut s));
    assert!(s.is_none());
    let mut n = 5usize;
    mgp_message_payload_size(None, Some(&mut n));
    mgp_message_key_size(None, Some(&mut n));
    mgp_messages_size(None, Some(&mut n));
    assert_eq!(n, 0);
    let mut t = 5i64;
    mgp_message_timestamp(None, Some(&mut t));
    mgp_message_offset(None, Some(&mut t));
    assert_eq!(t, 0);
    let mut m: Option<mgp_message> = None;
    assert_eq!(mgp_messages_at(None, 0, Some(&mut m)), MgpError::OutOfRange);
    assert_eq!(mgp_messages_at(None, 0, None), MgpError::InvalidArgument);
}

#[test]
fn log_lines_tell_their_level() {
    assert_eq!(mgp_log(2, Some("ready")), Ok("[INFO] ready".to_string()));
    assert_eq!(mgp_log(9, Some("x")), Ok("[LOG] x".to_string()));
    assert_eq!(mgp_log(2, None), Err(MgpError::InvalidArgument));
}

#[test]
fn stored_values_read_back() {
    let v = mgp_value {
        inner: ValueInner::ZonedDateTime(graphkit::procedure::value::mgp_zoned_date_time { micros: 5, offset: 60, tz: "X".to_string() }),
    };
    let stored = mgp_value_to_property_value(Some(&v)).unwrap();
    match property_value_to_mgp_value(&stored).inner {
        ValueInner::ZonedDateTime(z) => assert_eq!((z.micros, z.offset, z.tz.as_str()), (5, 60, "X")),
        _ => panic!("a moment was expected"),
    }
    // What the storage cannot hold
    assert!(mgp_value_to_property_value(Some(&mgp_value { inner: ValueInner::Vertex(mgp_vertex { gid: 1, graph: 0 }) })).is_none());
    assert_eq!(Crs::from_code(7203, Crs::WGS84).code(), 7203);
}

/// A loader whose libraries are found under the names that begin with `/lib/`. Starting them
/// registers a procedure to read and one to write.
struct Loader {
    closed: RefCell<Vec<usize>>,
}

impl Loader {
    fn open(&self, path: &str) -> Result<usize, String> {
        if path.starts_with("/lib/") {
            Ok(path.len())
        } else {
            Err("not found".to_string())
        }
    }

    fn lookup(&self, handle: usize) -> Result<usize, String> {
        if handle == "/lib/empty.so".len() {
            Err("no symbol".to_string())
        } else {
            Ok(handle * 10)
        }
    }

    fn init(&self, entry: usize) -> Started {
        let mut module = mgp_module::new();
        let mut at: Option<usize> = None;
        mgp_module_add_read_procedure(Some(&mut module), Some("r"), entry + 1, Some(&mut at));
        mgp_module_add_write_procedure(Some(&mut module), Some("w"), entry + 2, Some(&mut at));
        let answer = if entry == "/lib/broken1.so".len() * 10 { MgpError::LogicError } else { MgpError::NoError };
        Started { module, answer }
    }

    fn close(&self, handle: usize) {
        self.closed.borrow_mut().push(handle);
    }

    fn load(&self, registry: &mut ModuleRegistry, path: &str) -> Result<String, String> {
        load_module(registry, path, |p: &str| self.open(p), |h| self.lookup(h), |e| self.init(e), |h| self.close(h))
    }
}

#[test]
fn modules_are_loaded_found_and_unloaded() {
    let loader = Loader { closed: RefCell::new(Vec::new()) };
    let mut registry = ModuleRegistry { modules: Vec::new() };
    assert_eq!(loader.load(&mut registry, "/lib/a.so"), Ok("a.so".to_string()));
    assert_eq!(loader.load(&mut registry, "/lib/bb.so"), Ok("bb.so".to_string()));
    assert_eq!(loaded_module_names(&registry), vec!["a.so".to_string(), "bb.so".to_string()]);
    assert_eq!(find_proc(&registry, "a.so.r"), Some(91));
    assert_eq!(find_proc(&registry, "a.so.w"), Some(92));
    assert_eq!(find_proc(&registry, "bb.so.w"), Some(102));
    assert_eq!(find_proc(&registry, "a.so.x"), None);
    assert_eq!(registry.modules[0].procs[1].is_write, true);
    assert_eq!(unload_module(&mut registry, "a.so", |h| loader.close(h)), Ok(()));
    assert_eq!(*loader.closed.borrow(), vec![9]);
    assert_eq!(find_proc(&registry, "a.so.r"), None);
    assert_eq!(unload_module(&mut registry, "a.so", |h| loader.close(h)), Err("module a.so not found".to_string()));
    assert_eq!(loaded_module_names(&registry), vec!["bb.so".to_string()]);
}

#[test]
fn modules_that_cannot_be_loaded_are_told() {
    let loader = Loader { closed: RefCell::new(Vec::new()) };
    let mut registry = ModuleRegistry { modules: Vec::new() };
    assert_eq!(
        loader.load(&mut registry, "ä\0b"),
        Err("invalid path: nul byte found in provided data at position: 2".to_string())
    );
    assert_eq!(loader.load(&mut registry, "/x/a.so"), Err("dlopen failed for /x/a.so: not found".to_string()));
    assert_eq!(loader.load(&mut registry, "/lib/empty.so"), Err("module has no mgp_module_init: no symbol".to_string()));
    assert_eq!(loader.load(&mut registry, "/lib/broken1.so"), Err("mgp_module_init returned error LogicError".to_string()));
    assert_eq!(*loader.closed.borrow(), vec![13, 15]);
    assert!(loaded_module_names(&registry).is_empty());
}

#[test]
fn directories_are_searched_for_libraries() {
    let loader = Loader { closed: RefCell::new(Vec::new()) };
    let mut registry = ModuleRegistry { modules: Vec::new() };
    let paths: Vec<String> = ["/lib/a.so", "/lib/readme.txt", "/lib/.so", "/x/b.dylib", "/lib/c.dylib"].iter().map(|s| s.to_string()).collect();
    let results =
        scan_and_load_directory(&mut registry, &paths, &|p: &str| loader.open(p), &|h| loader.lookup(h), &|e| loader.init(e), &|h| loader.close(h));
    assert_eq!(
        results,
        vec![Ok("a.so".to_string()), Err("dlopen failed for /x/b.dylib: not found".to_string()), Ok("c.dylib".to_string())]
    );
    assert_eq!(loaded_module_names(&registry), vec!["a.so".to_string(), "c.dylib".to_string()]);
}

#[test]
fn file_names_are_those_of_the_system() {
    for path in ["/a/b.so", "b", "a/", "a/.", "./a/./", "..", "a/..", "/", "", ".", "./.", "...", "a//b//", "/..x", "a/../b"] {
        let wanted = std::path::Path::new(path).file_name().and_then(|n| n.to_str());
        assert_eq!(find_file_name(path), wanted);
        assert_eq!(find_module_name(path), wanted.unwrap_or("unknown"));
        let ext = std::path::Path::new(path).extension().and_then(|e| e.to_str()).unwrap_or("");
        assert_eq!(leads_to_library(path), ext == "so" || ext == "dylib");
    }
    for path in [".so", "a.so", "so", "x.dylib", ".dylib", "a.so.1", "a.dylib/", ".a.so"] {
        let ext = std::path::Path::new(path).extension().and_then(|e| e.to_str()).unwrap_or("");
        assert_eq!(leads_to_library(path), ext == "so" || ext == "dylib");
    }
}
