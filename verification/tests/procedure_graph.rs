//! Graphs behind the interface: vertices, edges, indices, constraints and searches.
use std::cell::{Cell, RefCell};

use graphkit::procedure::codes::MgpError;
use graphkit::procedure::collections::{mgp_list_append, mgp_list_at, mgp_list_make_empty, mgp_list_size, mgp_map_insert};
use graphkit::procedure::entities::{
    mgp_edge_get_from, mgp_edge_get_property, mgp_edge_get_to, mgp_edge_get_type, mgp_edge_set_property, mgp_edge_type,
    mgp_graph, mgp_graph_approximate_vertex_count, mgp_graph_create_edge, mgp_graph_create_vertex, mgp_graph_delete_edge, mgp_graph_delete_vertex,
    mgp_graph_detach_delete_vertex, mgp_graph_iter_vertices, mgp_label, mgp_properties_iterator, mgp_properties_iterator_get, mgp_property, mgp_vertex_add_label, mgp_vertex_get_property,
    mgp_vertex_has_label, mgp_vertex_has_label_named, mgp_vertex_iter_properties, mgp_vertex_label_at, mgp_vertex_labels_count, mgp_vertex_set_properties, mgp_vertex_set_property,
    mgp_vertices_iterator, mgp_vertices_iterator_next, mgp_vertices_iterator_underlying_graph_is_mutable, EdgeSnapshot, VertexSnapshot,
};
use graphkit::procedure::indices::{
    find_distance, find_text_index_fields, mgp_create_existence_constraint, mgp_create_label_index, mgp_create_label_property_index, mgp_create_text_index,
    mgp_create_unique_constraint, mgp_create_vector_index, mgp_drop_existence_constraint, mgp_drop_label_index, mgp_drop_label_property_index,
    mgp_drop_text_index, mgp_drop_unique_constraint, mgp_drop_vector_index, mgp_graph_show_index_info, mgp_list_all_existence_constraints,
    mgp_list_all_label_indices, mgp_list_all_label_property_indices, mgp_list_all_unique_constraints, Constraint, ConstraintKind, Distance,
    LabelProperty, TextRecord, VectorIndexPlan, VertexRecord,
};
use graphkit::procedure::property::{NamedValue, PropertyValue};
use graphkit::procedure::search::{
    mgp_graph_aggregate_over_text_edge_index, mgp_graph_aggregate_over_text_index, mgp_graph_search_text_edge_index, mgp_graph_search_text_index,
    mgp_graph_search_vector_index, mgp_graph_search_vector_index_on_edges, mgp_search_text_index, mgp_search_vector_index, Coordinate, Hit, Match,
    TextFound,
};
use graphkit::procedure::value::{
    mgp_edge, mgp_list, mgp_map, mgp_value, mgp_value_get_double, mgp_value_get_int, mgp_value_get_list, mgp_value_get_string, mgp_value_get_vertex,
    mgp_value_make_double, mgp_value_make_int, mgp_value_make_string, mgp_value_make_vertex, mgp_vertex,
};
use graphkit::quantity::Quantity;

/// A storage of vertices and edges.
struct Storage {
    next: Cell<u64>,
    vertices: RefCell<Vec<(u64, Vec<String>, Vec<(String, PropertyValue)>)>>,
    edges: RefCell<Vec<(u64, String, u64, u64, Vec<(String, PropertyValue)>)>>,
}

fn copied(p: &PropertyValue) -> PropertyValue {
    match p {
        PropertyValue::Int(n) => PropertyValue::Int(*n),
        PropertyValue::String(s) => PropertyValue::String(s.clone()),
        PropertyValue::Double(d) => PropertyValue::Double(*d),
        PropertyValue::Bool(b) => PropertyValue::Bool(*b),
        _ => PropertyValue::Null,
    }
}

fn named(props: &[(String, PropertyValue)]) -> Vec<NamedValue> {
    props.iter().map(|(name, value)| NamedValue { name: name.clone(), value: copied(value) }).collect()
}

fn put(props: &mut Vec<(String, PropertyValue)>, name: &str, value: &PropertyValue) {
    props.retain(|(n, _)| n != name);
    props.push((name.to_string(), copied(value)));
}

impl Storage {
    fn new() -> Storage {
        Storage { next: Cell::new(1), vertices: RefCell::new(Vec::new()), edges: RefCell::new(Vec::new()) }
    }

    fn fresh(&self) -> u64 {
        let gid = self.next.get();
        self.next.set(gid + 1);
        gid
    }

    fn create_vertex(&self) -> Option<u64> {
        let gid = self.fresh();
        self.vertices.borrow_mut().push((gid, Vec::new(), Vec::new()));
        Some(gid)
    }

    fn create_edge(&self, from: u64, to: u64, ty: &str) -> Option<u64> {
        let gid = self.fresh();
        self.edges.borrow_mut().push((gid, ty.to_string(), from, to, Vec::new()));
        Some(gid)
    }

    fn vertex(&self, gid: u64) -> Option<VertexSnapshot> {
        self.vertices.borrow().iter().find(|v| v.0 == gid).map(|v| VertexSnapshot { labels: v.1.clone(), properties: named(&v.2) })
    }

    fn edge(&self, gid: u64) -> Option<EdgeSnapshot> {
        self.edges.borrow().iter().find(|e| e.0 == gid).map(|e| EdgeSnapshot {
            edge_type: e.1.clone(),
            from_vertex: e.2,
            to_vertex: e.3,
            properties: named(&e.4),
        })
    }

    fn set_vertex_property(&self, gid: u64, name: &str, value: &PropertyValue) -> bool {
        match self.vertices.borrow_mut().iter_mut().find(|v| v.0 == gid) {
            Some(v) => {
                put(&mut v.2, name, value);
                true
            }
            None => false,
        }
    }

    fn set_edge_property(&self, gid: u64, name: &str, value: &PropertyValue) -> bool {
        match self.edges.borrow_mut().iter_mut().find(|e| e.0 == gid) {
            Some(e) => {
                put(&mut e.4, name, value);
                true
            }
            None => false,
        }
    }

    fn add_label(&self, gid: u64, label: &str) -> bool {
        match self.vertices.borrow_mut().iter_mut().find(|v| v.0 == gid) {
            Some(v) => {
                v.1.push(label.to_string());
                true
            }
            None => false,
        }
    }

    fn delete_vertex(&self, gid: u64) -> bool {
        let mut vertices = self.vertices.borrow_mut();
        let before = vertices.len();
        vertices.retain(|v| v.0 != gid);
        vertices.len() < before
    }

    fn delete_edge(&self, gid: u64) -> bool {
        let mut edges = self.edges.borrow_mut();
        let before = edges.len();
        edges.retain(|e| e.0 != gid);
        edges.len() < before
    }

    fn records(&self) -> Vec<VertexRecord> {
        self.vertices.borrow().iter().map(|v| VertexRecord { gid: v.0, snapshot: VertexSnapshot { labels: v.1.clone(), properties: named(&v.2) } }).collect()
    }
}

const GRAPH: mgp_graph = mgp_graph { address: 77 };

fn new_vertex(storage: &Storage) -> mgp_vertex {
    let mut v: Option<mgp_vertex> = None;
    assert_eq!(mgp_graph_create_vertex(Some(&GRAPH), storage.create_vertex(), None, Some(&mut v)), MgpError::NoError);
    v.unwrap()
}

fn new_edge(storage: &Storage, from: &mgp_vertex, to: &mgp_vertex, ty: &str) -> mgp_edge {
    let edge_type = mgp_edge_type { name: Some(ty.to_string()) };
    let made = storage.create_edge(from.gid, to.gid, ty);
    let mut e: Option<mgp_edge> = None;
    assert_eq!(mgp_graph_create_edge(Some(&GRAPH), Some(from), Some(to), &edge_type, made, None, Some(&mut e)), MgpError::NoError);
    e.unwrap()
}

fn integer(n: i64) -> mgp_value {
    let mut v: Option<mgp_value> = None;
    mgp_value_make_int(n, None, Some(&mut v));
    v.unwrap()
}

fn text(s: &str) -> mgp_value {
    let mut v: Option<mgp_value> = None;
    mgp_value_make_string(Some(s), None, Some(&mut v));
    v.unwrap()
}

fn double(x: f64) -> mgp_value {
    let mut v: Option<mgp_value> = None;
    mgp_value_make_double(x.to_bits(), None, Some(&mut v));
    v.unwrap()
}

fn list_of(items: &[mgp_value]) -> mgp_list {
    let mut list: Option<mgp_list> = None;
    mgp_list_make_empty(items.len(), None, Some(&mut list));
    for v in items {
        mgp_list_append(list.as_mut(), Some(v));
    }
    list.unwrap()
}

fn text_in(v: &mgp_value) -> String {
    let mut s: Option<String> = None;
    assert_eq!(mgp_value_get_string(Some(v), Some(&mut s)), MgpError::NoError);
    s.unwrap()
}

fn list_in(v: &mgp_value) -> mgp_list {
    let mut l: Option<mgp_list> = None;
    assert_eq!(mgp_value_get_list(Some(v), Some(&mut l)), MgpError::NoError);
    l.unwrap()
}

fn double_in(v: &mgp_value) -> f64 {
    let mut bits: u64 = 0;
    assert_eq!(mgp_value_get_double(Some(v), Some(&mut bits)), MgpError::NoError);
    f64::from_bits(bits)
}

fn vertex_in(v: &mgp_value) -> mgp_vertex {
    let mut x: Option<mgp_vertex> = None;
    assert_eq!(mgp_value_get_vertex(Some(v), Some(&mut x)), MgpError::NoError);
    x.unwrap()
}

fn number(q: &Quantity) -> f64 {
    match q {
        Quantity::Bits(b) => f64::from_bits(*b),
        Quantity::Count(n) => *n as f64,
        Quantity::Sum(a, b) => number(a) + number(b),
        Quantity::Quotient(a, b) => number(a) / number(b),
        _ => panic!("no such quantity is read here"),
    }
}

fn bits(q: &Quantity) -> u64 {
    number(q).to_bits()
}

fn quantity(x: f64) -> Quantity {
    Quantity::Bits(x.to_bits())
}

#[test]
fn graph_null_returns_invalid_argument() {
    let mut g_count: u64 = 99;
    assert_eq!(mgp_graph_approximate_vertex_count(None, 0, Some(&mut g_count)), MgpError::InvalidArgument);
    assert_eq!(g_count, 99);
}

#[test]
fn mutation_roundtrip() {
    let storage = Storage::new();

    // Create a vertex
    let v = new_vertex(&storage);

    // Set a property
    let val = integer(42);
    let write = |gid: u64, name: &str, value: &PropertyValue| storage.set_vertex_property(gid, name, value);
    assert_eq!(mgp_vertex_set_property(Some(&v), Some("age"), Some(&val), &write), MgpError::NoError);

    // Add a label
    let add = |gid: u64, label: &str| storage.add_label(gid, label);
    assert_eq!(mgp_vertex_add_label(Some(&v), &mgp_label { name: Some("Person".to_string()) }, &add), MgpError::NoError);

    // Create a second vertex for edge creation
    let v2 = new_vertex(&storage);

    // Create an edge
    let e = new_edge(&storage, &v, &v2, "KNOWS");

    // Delete the edge
    assert_eq!(mgp_graph_delete_edge(Some(&GRAPH), Some(&e), |gid| storage.delete_edge(gid)), MgpError::NoError);

    // Delete vertices
    assert_eq!(mgp_graph_delete_vertex(Some(&GRAPH), Some(&v2), |gid| storage.delete_vertex(gid)), MgpError::NoError);
    assert_eq!(mgp_graph_delete_vertex(Some(&GRAPH), Some(&v), |gid| storage.delete_vertex(gid)), MgpError::NoError);
    assert!(storage.vertices.borrow().is_empty());
}

#[test]
fn vertex_label_and_edge_type_roundtrip() {
    let storage = Storage::new();
    let v = new_vertex(&storage);

    // Add label
    let label = mgp_label { name: Some("Person".to_string()) };
    let add = |gid: u64, label: &str| storage.add_label(gid, label);
    assert_eq!(mgp_vertex_add_label(Some(&v), &label, &add), MgpError::NoError);
    let snapshot = storage.vertex(v.gid);

    // Check label count
    let mut count: usize = 0;
    assert_eq!(mgp_vertex_labels_count(Some(&v), snapshot.as_ref(), Some(&mut count)), MgpError::NoError);
    assert_eq!(count, 1);

    // Check has_label
    let mut has: i32 = 0;
    assert_eq!(mgp_vertex_has_label(Some(&v), &label, snapshot.as_ref(), Some(&mut has)), MgpError::NoError);
    assert_eq!(has, 1);

    // Check has_label_named
    let mut has2: i32 = 0;
    assert_eq!(mgp_vertex_has_label_named(Some(&v), "Person", snapshot.as_ref(), Some(&mut has2)), MgpError::NoError);
    assert_eq!(has2, 1);

    // Check label_at
    let mut got_label = mgp_label { name: None };
    assert_eq!(mgp_vertex_label_at(Some(&v), 0, snapshot.as_ref(), Some(&mut got_label)), MgpError::NoError);
    assert_eq!(got_label.name.unwrap(), "Person");

    // Create edge with type
    let v2 = new_vertex(&storage);
    let e = new_edge(&storage, &v, &v2, "KNOWS");

    // Check edge type
    let mut got_type = mgp_edge_type { name: None };
    assert_eq!(mgp_edge_get_type(Some(&e), storage.edge(e.gid).as_ref(), Some(&mut got_type)), MgpError::NoError);
    assert_eq!(got_type.name.unwrap(), "KNOWS");

    // Property iteration uses real names
    let val = integer(99);
    let write = |gid: u64, name: &str, value: &PropertyValue| storage.set_vertex_property(gid, name, value);
    assert_eq!(mgp_vertex_set_property(Some(&v), Some("score"), Some(&val), &write), MgpError::NoError);

    let mut pit: Option<mgp_properties_iterator> = None;
    assert_eq!(mgp_vertex_iter_properties(Some(&v), storage.vertex(v.gid).as_ref(), None, Some(&mut pit)), MgpError::NoError);
    assert!(pit.is_some());

    let mut prop: Option<mgp_property> = None;
    assert_eq!(mgp_properties_iterator_get(pit.as_mut(), Some(&mut prop)), MgpError::NoError);
    assert_eq!(prop.unwrap().name, "score");
}

#[test]
fn index_and_constraint_apis() {
    let labels: RefCell<Vec<String>> = RefCell::new(Vec::new());
    let insert = |held: &RefCell<Vec<String>>, key: String| {
        let mut held = held.borrow_mut();
        if held.contains(&key) {
            false
        } else {
            held.push(key);
            true
        }
    };
    let remove = |held: &RefCell<Vec<String>>, key: String| {
        let mut held = held.borrow_mut();
        let before = held.len();
        held.retain(|k| *k != key);
        held.len() < before
    };
    let g = Some(&GRAPH);

    // Label index
    let label = Some("Person");
    let create = |l: &str| insert(&labels, l.to_string());
    let drop = |l: &str| remove(&labels, l.to_string());
    let mut result: i32 = 0;
    assert_eq!(mgp_create_label_index(g, label, &create, Some(&mut result)), MgpError::NoError);
    assert_eq!(result, 1); // created
    assert_eq!(mgp_create_label_index(g, label, &create, Some(&mut result)), MgpError::NoError);
    assert_eq!(result, 0); // already exists
    assert_eq!(mgp_drop_label_index(g, label, &drop, Some(&mut result)), MgpError::NoError);
    assert_eq!(result, 1); // dropped
    assert_eq!(mgp_drop_label_index(g, label, &drop, Some(&mut result)), MgpError::NoError);
    assert_eq!(result, 0); // not found

    // Label-property index
    let prop = Some("name");
    let create_pair = |l: &str, p: &str| insert(&labels, format!("{}.{}", l, p));
    let drop_pair = |l: &str, p: &str| remove(&labels, format!("{}.{}", l, p));
    assert_eq!(mgp_create_label_property_index(g, label, prop, &create_pair, Some(&mut result)), MgpError::NoError);
    assert_eq!(result, 1);
    assert_eq!(mgp_drop_label_property_index(g, label, prop, &drop_pair, Some(&mut result)), MgpError::NoError);
    assert_eq!(result, 1);

    // Existence constraint
    let existing: RefCell<Vec<String>> = RefCell::new(Vec::new());
    let has = |l: &str, p: &str| existing.borrow().contains(&format!("{}.{}", l, p));
    let ask = |l: &str, p: &str| existing.borrow_mut().push(format!("{}.{}", l, p));
    let take_back = |l: &str, p: &str| existing.borrow_mut().retain(|k| *k != format!("{}.{}", l, p));
    assert_eq!(mgp_create_existence_constraint(g, label, prop, &has, &ask, Some(&mut result)), MgpError::NoError);
    assert_eq!(result, 1);
    assert_eq!(mgp_create_existence_constraint(g, label, prop, &has, &ask, Some(&mut result)), MgpError::NoError);
    assert_eq!(result, 0); // already exists
    assert_eq!(mgp_drop_existence_constraint(g, label, prop, &has, &take_back, Some(&mut result)), MgpError::NoError);
    assert_eq!(result, 1);
    assert_eq!(mgp_drop_existence_constraint(g, label, prop, &has, &take_back, Some(&mut result)), MgpError::NoError);
    assert_eq!(result, 0); // not found

    // Unique constraint via property list
    let list = list_of(&[text("name")]);
    let unique: RefCell<Vec<(String, Vec<String>)>> = RefCell::new(Vec::new());
    let has_all = |l: &str, p: &Vec<String>| unique.borrow().contains(&(l.to_string(), p.clone()));
    let ask_all = |l: &str, p: &Vec<String>| unique.borrow_mut().push((l.to_string(), p.clone()));
    let take_back_all = |l: &str, p: &Vec<String>| unique.borrow_mut().retain(|k| *k != (l.to_string(), p.clone()));
    assert_eq!(mgp_create_unique_constraint(g, label, Some(&list), &has_all, &ask_all, Some(&mut result)), MgpError::NoError);
    assert_eq!(result, 1);
    assert_eq!(mgp_create_unique_constraint(g, label, Some(&list), &has_all, &ask_all, Some(&mut result)), MgpError::NoError);
    assert_eq!(result, 0); // already exists
    assert_eq!(mgp_drop_unique_constraint(g, label, Some(&list), &has_all, &take_back_all, Some(&mut result)), MgpError::NoError);
    assert_eq!(result, 1);
    assert_eq!(mgp_drop_unique_constraint(g, label, Some(&list), &has_all, &take_back_all, Some(&mut result)), MgpError::NoError);
    assert_eq!(result, 0); // not found

    // A list that names no property is refused, and nothing is written
    let wrong = list_of(&[integer(1)]);
    result = 5;
    assert_eq!(mgp_create_unique_constraint(g, label, Some(&wrong), &has_all, &ask_all, Some(&mut result)), MgpError::InvalidArgument);
    assert_eq!(result, 5);
}

#[test]
fn vertex_get_property_roundtrip() {
    let storage = Storage::new();
    let v = new_vertex(&storage);
    let val = integer(42);
    let write = |gid: u64, name: &str, value: &PropertyValue| storage.set_vertex_property(gid, name, value);
    assert_eq!(mgp_vertex_set_property(Some(&v), Some("score"), Some(&val), &write), MgpError::NoError);

    let mut got: Option<mgp_value> = None;
    assert_eq!(mgp_vertex_get_property(Some(&v), Some("score"), storage.vertex(v.gid).as_ref(), None, Some(&mut got)), MgpError::NoError);
    assert!(got.is_some());
    let mut n = 0i64;
    mgp_value_get_int(got.as_ref(), Some(&mut n));
    assert_eq!(n, 42);
}

#[test]
fn edge_get_property_and_endpoints() {
    let storage = Storage::new();
    let v1 = new_vertex(&storage);
    let v2 = new_vertex(&storage);
    let e = new_edge(&storage, &v1, &v2, "KNOWS");

    let val = integer(2020);
    let write = |gid: u64, name: &str, value: &PropertyValue| storage.set_edge_property(gid, name, value);
    mgp_edge_set_property(Some(&e), Some("since"), Some(&val), &write);
    let snapshot = storage.edge(e.gid);

    let mut got: Option<mgp_value> = None;
    assert_eq!(mgp_edge_get_property(Some(&e), Some("since"), snapshot.as_ref(), None, Some(&mut got)), MgpError::NoError);
    let mut n = 0i64;
    mgp_value_get_int(got.as_ref(), Some(&mut n));
    assert_eq!(n, 2020);

    let mut from_v: Option<mgp_vertex> = None;
    let mut to_v: Option<mgp_vertex> = None;
    assert_eq!(mgp_edge_get_from(Some(&e), snapshot.as_ref(), Some(&mut from_v)), MgpError::NoError);
    assert_eq!(mgp_edge_get_to(Some(&e), snapshot.as_ref(), Some(&mut to_v)), MgpError::NoError);
    assert_eq!(from_v, Some(v1));
    assert_eq!(to_v, Some(v2));
}

#[test]
fn vertices_iterator_next_and_mutability() {
    let storage = Storage::new();
    new_vertex(&storage);
    let gids: Vec<u64> = storage.records().iter().map(|v| v.gid).collect();

    let mut it: Option<mgp_vertices_iterator> = None;
    mgp_graph_iter_vertices(Some(&GRAPH), gids, None, Some(&mut it));

    let mut got: Option<mgp_vertex> = None;
    assert_eq!(mgp_vertices_iterator_next(it.as_mut(), Some(&mut got)), MgpError::NoError);
    assert!(got.is_some());

    let mut mutable = 0i32;
    assert_eq!(mgp_vertices_iterator_underlying_graph_is_mutable(it.as_ref(), Some(&mut mutable)), MgpError::NoError);
    assert_eq!(mutable, 1);
}

#[test]
fn search_text_index_finds_indexed_vertex() {
    let storage = Storage::new();
    // Create a vertex with a label and text property
    let v = new_vertex(&storage);
    storage.add_label(v.gid, "Post");
    storage.set_vertex_property(v.gid, "title", &PropertyValue::String("Hello World".to_string()));

    // Create the text index
    let prop_list = list_of(&[text("title")]);
    let paths: RefCell<Vec<(String, Vec<String>)>> = RefCell::new(Vec::new());
    let indexed: RefCell<Vec<(u64, String, String)>> = RefCell::new(Vec::new());
    let create = |path: &str, fields: &Vec<String>| {
        paths.borrow_mut().push((path.to_string(), fields.clone()));
        true
    };
    let index = |records: &Vec<TextRecord>| {
        for r in records {
            for e in &r.entries {
                indexed.borrow_mut().push((r.gid, e.field.clone(), e.text.clone()));
            }
        }
    };
    let show = |b: u64| format!("{}", f64::from_bits(b));
    assert_eq!(
        mgp_create_text_index(Some(&GRAPH), Some("Post"), Some(&prop_list), &create, || storage.records(), &index, &show),
        MgpError::NoError
    );
    assert_eq!(*paths.borrow(), vec![("/tmp/mg_text_idx_Post".to_string(), vec!["title".to_string()])]);

    // Search for "Hello"
    let search = |name: &str, query: &str, limit: usize| {
        assert_eq!((name, limit), ("Post", 10));
        let found = indexed.borrow().iter().filter(|e| e.2.contains(query)).map(|e| Match { gid: e.0, score: quantity(0.5) }).collect();
        TextFound::Matches(found)
    };
    let mut result: Option<mgp_list> = None;
    assert_eq!(
        mgp_search_text_index(Some(&GRAPH), Some("Post"), Some("Hello"), 10, &search, &bits, Some(&mut result)),
        MgpError::NoError
    );
    assert!(result.is_some());
    let mut size = 99usize;
    mgp_list_size(result.as_ref(), Some(&mut size));
    assert_eq!(size, 1); // Found 1 result
    let pair = list_in(&result.unwrap().items[0]);
    assert_eq!(vertex_in(&pair.items[0]), v);
    assert_eq!(double_in(&pair.items[1]), 0.5);
}

#[test]
fn search_vector_index_empty_when_no_index() {
    let query = list_of(&[double(1.0), double(0.0)]);
    let none = |_: &str| None;
    let search = |_: &str, _: &Vec<Coordinate>, _: usize| -> Vec<Hit> { panic!("there is nothing to search") };
    let mut result: Option<mgp_list> = None;
    assert_eq!(
        mgp_search_vector_index(Some(&GRAPH), Some("Person"), Some(&query), 5, &none, &search, &bits, Some(&mut result)),
        MgpError::NoError
    );
    assert!(result.is_some());
    let mut size = 99usize;
    mgp_list_size(result.as_ref(), Some(&mut size));
    assert_eq!(size, 0);
}

#[test]
fn search_vector_index_hits_when_index_exists() {
    let storage = Storage::new();
    // Create the vector index
    let prop_list = list_of(&[text("embedding")]);
    let plans: RefCell<Vec<(String, String, usize, Distance, usize)>> = RefCell::new(Vec::new());
    let build = |p: &VectorIndexPlan| {
        plans.borrow_mut().push((p.label.clone(), p.property.clone(), p.dimension, p.distance, p.vectors.len()))
    };
    let read = |_: &PropertyValue| None;
    assert_eq!(
        mgp_create_vector_index(Some(&GRAPH), Some("Item"), Some(&prop_list), 2, Some("cosine"), || storage.records(), &read, &build),
        MgpError::NoError
    );
    assert_eq!(*plans.borrow(), vec![("Item".to_string(), "embedding".to_string(), 2, Distance::Cosine, 0)]);

    // Search
    let query = list_of(&[double(1.0), double(0.0)]);
    let dimension = |_: &str| Some(2usize);
    let search = |name: &str, q: &Vec<Coordinate>, k: usize| {
        assert_eq!((name, k), ("Item", 2));
        assert_eq!(*q, vec![Coordinate::Double(1.0f64.to_bits()), Coordinate::Double(0.0f64.to_bits())]);
        vec![Hit { node: 1, distance: quantity(0.0) }, Hit { node: 2, distance: quantity(1.0) }]
    };
    let mut result: Option<mgp_list> = None;
    assert_eq!(
        mgp_search_vector_index(Some(&GRAPH), Some("Item"), Some(&query), 2, &dimension, &search, &bits, Some(&mut result)),
        MgpError::NoError
    );
    assert!(result.is_some());
    let mut size = 0usize;
    mgp_list_size(result.as_ref(), Some(&mut size));
    assert_eq!(size, 2);

    // Inspect first result triple
    let mut first: Option<mgp_value> = None;
    mgp_list_at(result.as_ref(), 0, Some(&mut first));
    let triple = list_in(&first.unwrap());
    let mut triple_len = 0usize;
    mgp_list_size(Some(&triple), Some(&mut triple_len));
    assert_eq!(triple_len, 3);
    assert_eq!(vertex_in(&triple.items[0]), mgp_vertex { gid: 1, graph: 77 });
    assert_eq!(double_in(&triple.items[1]), 0.0);
    assert_eq!(double_in(&triple.items[2]), 1.0);
    let second = list_in(&result.unwrap().items[1]);
    assert_eq!(double_in(&second.items[2]), 0.5);
}

#[test]
fn vector_searches_tell_what_is_wrong() {
    let query = list_of(&[double(1.0), integer(2)]);
    let wrong = list_of(&[text("x")]);
    let search = |_: &str, _: &Vec<Coordinate>, k: usize| {
        assert_eq!(k, 10);
        vec![Hit { node: 3, distance: quantity(3.0) }]
    };
    let message = |query: &mgp_list, dim: Option<usize>| {
        let mut map: Option<mgp_map> = None;
        let e = mgp_graph_search_vector_index(Some(&GRAPH), Some("L"), Some(query), 0, None, &|_: &str| dim, &search, &bits, Some(&mut map));
        assert_eq!(e, MgpError::NoError);
        let entry = map.unwrap().items.remove(0);
        (entry.key, entry.value)
    };
    let (key, value) = message(&wrong, Some(1));
    assert_eq!((key.as_str(), text_in(&value).as_str()), ("error_msg", "Vector search query must contain only numeric values"));
    let (key, value) = message(&query, None);
    assert_eq!((key.as_str(), text_in(&value).as_str()), ("error_msg", "Vector index not found"));
    let (key, value) = message(&query, Some(3));
    assert_eq!((key.as_str(), text_in(&value).as_str()), ("error_msg", "Query vector dimension mismatch"));
    let (key, value) = message(&query, Some(2));
    assert_eq!(key, "search_results");
    let triple = list_in(&list_in(&value).items[0]);
    assert_eq!(vertex_in(&triple.items[0]).gid, 3);
    assert_eq!(double_in(&triple.items[2]), 0.25);

    let mut result: Option<mgp_list> = None;
    let two = |_: &str| Some(2usize);
    let three = |_: &str| Some(3usize);
    assert_eq!(
        mgp_search_vector_index(Some(&GRAPH), Some("L"), Some(&wrong), 0, &two, &search, &bits, Some(&mut result)),
        MgpError::ValueConversion
    );
    assert_eq!(
        mgp_search_vector_index(Some(&GRAPH), Some("L"), Some(&query), 0, &three, &search, &bits, Some(&mut result)),
        MgpError::InvalidArgument
    );
    assert!(result.is_none());
    assert_eq!(
        mgp_search_vector_index(None, Some("L"), Some(&query), 0, &three, &search, &bits, Some(&mut result)),
        MgpError::InvalidArgument
    );
}

#[test]
fn text_searches_tell_what_is_wrong() {
    let message = |found: fn() -> TextFound| {
        let mut map: Option<mgp_map> = None;
        let search = |_: &str, _: &str, _: usize| found();
        let e = mgp_graph_search_text_index(Some(&GRAPH), Some("L"), Some("q"), 0, 5, None, &search, &bits, Some(&mut map));
        assert_eq!(e, MgpError::NoError);
        let entry = map.unwrap().items.remove(0);
        (entry.key, entry.value)
    };
    assert_eq!(text_in(&message(|| TextFound::NoIndex).1), "Text index not found");
    assert_eq!(text_in(&message(|| TextFound::Failed).1), "Text search failed");
    let (key, value) = message(|| TextFound::Matches(vec![Match { gid: 9, score: quantity(2.5) }]));
    assert_eq!(key, "search_results");
    let pair = list_in(&list_in(&value).items[0]);
    assert_eq!(vertex_in(&pair.items[0]).gid, 9);
    assert_eq!(double_in(&pair.items[1]), 2.5);

    let mut result: Option<mgp_list> = None;
    let failed = |_: &str, _: &str, _: usize| TextFound::Failed;
    assert_eq!(mgp_search_text_index(Some(&GRAPH), Some("L"), Some("q"), 5, &failed, &bits, Some(&mut result)), MgpError::NoError);
    assert!(result.unwrap().items.is_empty());
}

#[test]
fn what_cannot_be_searched_is_told() {
    let mut map: Option<mgp_map> = None;
    let query = list_of(&[]);
    let told = |map: &Option<mgp_map>| text_in(&map.as_ref().unwrap().items[0].value);
    assert_eq!(
        mgp_graph_search_vector_index_on_edges(Some(&GRAPH), Some("L"), Some(&query), 1, None, Some(&mut map)),
        MgpError::NoError
    );
    assert_eq!(told(&map), "Edge vector search not yet implemented");
    assert_eq!(mgp_graph_search_vector_index_on_edges(None, Some("L"), Some(&query), 1, None, Some(&mut map)), MgpError::InvalidArgument);
    assert_eq!(mgp_graph_search_text_edge_index(None, None, None, 0, 0, None, Some(&mut map)), MgpError::NoError);
    assert_eq!(told(&map), "Edge text search not yet implemented");
    assert_eq!(mgp_graph_aggregate_over_text_index(None, None, None, None, None, Some(&mut map)), MgpError::NoError);
    assert_eq!(told(&map), "Text index aggregation not yet implemented");
    assert_eq!(mgp_graph_aggregate_over_text_edge_index(None, None, None, None, None, Some(&mut map)), MgpError::NoError);
    assert_eq!(told(&map), "Edge text index aggregation not yet implemented");
    assert_eq!(mgp_graph_aggregate_over_text_edge_index(None, None, None, None, None, None), MgpError::InvalidArgument);
}

#[test]
fn text_indices_hold_texts_numbers_and_truth_values() {
    let storage = Storage::new();
    let v = new_vertex(&storage);
    storage.add_label(v.gid, "Post");
    storage.set_vertex_property(v.gid, "n", &PropertyValue::Int(-120));
    storage.set_vertex_property(v.gid, "x", &PropertyValue::Double(1.5f64.to_bits()));
    storage.set_vertex_property(v.gid, "b", &PropertyValue::Bool(false));
    let other = new_vertex(&storage);
    storage.add_label(other.gid, "Page");
    let indexed: RefCell<Vec<(u64, String, String)>> = RefCell::new(Vec::new());
    let index = |records: &Vec<TextRecord>| {
        for r in records {
            for e in &r.entries {
                indexed.borrow_mut().push((r.gid, e.field.clone(), e.text.clone()));
            }
        }
    };
    let show = |b: u64| format!("{}", f64::from_bits(b));
    let fields = list_of(&[text("n"), integer(1), text("x"), text("gone"), text("b")]);
    let create = |_: &str, f: &Vec<String>| f.len() == 4;
    assert_eq!(
        mgp_create_text_index(Some(&GRAPH), Some("Post"), Some(&fields), &create, || storage.records(), &index, &show),
        MgpError::NoError
    );
    let wanted: Vec<(u64, String, String)> =
        vec![(1, "n".to_string(), "-120".to_string()), (1, "x".to_string(), "1.5".to_string()), (1, "b".to_string(), "false".to_string())];
    assert_eq!(*indexed.borrow(), wanted);
    assert_eq!(
        mgp_create_text_index(Some(&GRAPH), Some("Post"), None, |_: &str, _: &Vec<String>| false, || storage.records(), &index, &show),
        MgpError::SerializationError
    );
    assert_eq!(find_text_index_fields(None), vec!["value".to_string()]);
    assert_eq!(find_text_index_fields(Some(&list_of(&[]))), vec!["value".to_string()]);
    let removed: RefCell<Vec<(String, String)>> = RefCell::new(Vec::new());
    let remove = |l: &str, p: &str| removed.borrow_mut().push((l.to_string(), p.to_string()));
    assert_eq!(mgp_drop_text_index(Some(&GRAPH), Some("Post"), &remove), MgpError::NoError);
    assert_eq!(*removed.borrow(), vec![("Post".to_string(), "/tmp/mg_text_idx_Post".to_string())]);
}

#[test]
fn vector_indices_hold_vectors_of_their_dimension() {
    let storage = Storage::new();
    for (n, label) in [(1i64, "Item"), (2, "Item"), (3, "Other")] {
        let v = new_vertex(&storage);
        storage.add_label(v.gid, label);
        storage.set_vertex_property(v.gid, "e", &PropertyValue::Int(n));
    }
    // A property of n holds a vector of n numbers
    let read = |p: &PropertyValue| match p {
        PropertyValue::Int(n) => Some(vec![7u32; *n as usize]),
        _ => None,
    };
    let built: RefCell<Vec<(u64, usize)>> = RefCell::new(Vec::new());
    let build = |p: &VectorIndexPlan| {
        for v in &p.vectors {
            built.borrow_mut().push((v.gid, v.vector.len()));
        }
    };
    let props = list_of(&[text("e")]);
    let vertices = || storage.records();
    assert_eq!(mgp_create_vector_index(Some(&GRAPH), Some("Item"), Some(&props), 2, None, &vertices, &read, &build), MgpError::NoError);
    assert_eq!(*built.borrow(), vec![(2, 2)]);
    let dimension: Cell<usize> = Cell::new(0);
    let note = |p: &VectorIndexPlan| dimension.set(p.dimension);
    assert_eq!(mgp_create_vector_index(Some(&GRAPH), Some("Item"), Some(&props), 0, None, &vertices, &read, &note), MgpError::NoError);
    assert_eq!(dimension.get(), 128);
    for wrong in [list_of(&[]), list_of(&[integer(1)])] {
        assert_eq!(
            mgp_create_vector_index(Some(&GRAPH), Some("Item"), Some(&wrong), 2, None, &vertices, &read, &note),
            MgpError::InvalidArgument
        );
    }
    assert_eq!(mgp_create_vector_index(Some(&GRAPH), Some("Item"), None, 2, None, &vertices, &read, &note), MgpError::InvalidArgument);
    assert_eq!(find_distance(Some("l2")), Distance::Euclidean);
    assert_eq!(find_distance(Some("euclidean")), Distance::Euclidean);
    assert_eq!(find_distance(Some("dot")), Distance::Dot);
    assert_eq!(find_distance(Some("inner_product")), Distance::Dot);
    assert_eq!(find_distance(Some("other")), Distance::Cosine);
    assert_eq!(find_distance(None), Distance::Cosine);
    let dropped: RefCell<Vec<String>> = RefCell::new(Vec::new());
    assert_eq!(mgp_drop_vector_index(Some(&GRAPH), Some("Item"), |l: &str| dropped.borrow_mut().push(l.to_string())), MgpError::NoError);
    assert_eq!(*dropped.borrow(), vec!["Item".to_string()]);
}

#[test]
fn indices_and_constraints_are_listed() {
    let labels = vec!["A".to_string(), "B\0".to_string()];
    let pairs = vec![LabelProperty { label: "A".to_string(), property: "p".to_string() }];
    let constraints = vec![
        Constraint { kind: ConstraintKind::Unique, label: "U".to_string(), property: "u".to_string() },
        Constraint { kind: ConstraintKind::Existence, label: "E".to_string(), property: "e".to_string() },
    ];
    let mut list: Option<mgp_list> = None;
    assert_eq!(mgp_list_all_label_indices(Some(&GRAPH), &labels, None, Some(&mut list)), MgpError::NoError);
    let names: Vec<String> = list.as_ref().unwrap().items.iter().map(|v| text_in(v)).collect();
    // A name that the interface cannot carry is left empty
    assert_eq!(names, vec!["A".to_string(), "".to_string()]);
    let pair_of = |list: &Option<mgp_list>| {
        let items = &list.as_ref().unwrap().items;
        assert_eq!(items.len(), 1);
        match &items[0].inner {
            graphkit::procedure::value::ValueInner::Mapping(m) => {
                assert_eq!((m.items[0].key.as_str(), m.items[1].key.as_str()), ("label", "property"));
                (text_in(&m.items[0].value), text_in(&m.items[1].value))
            }
            _ => panic!("a map was expected"),
        }
    };
    mgp_list_all_label_property_indices(Some(&GRAPH), &pairs, None, Some(&mut list));
    assert_eq!(pair_of(&list), ("A".to_string(), "p".to_string()));
    mgp_list_all_unique_constraints(Some(&GRAPH), &constraints, None, Some(&mut list));
    assert_eq!(pair_of(&list), ("U".to_string(), "u".to_string()));
    mgp_list_all_existence_constraints(Some(&GRAPH), &constraints, None, Some(&mut list));
    assert_eq!(pair_of(&list), ("E".to_string(), "e".to_string()));
    assert_eq!(mgp_list_all_existence_constraints(None, &constraints, None, Some(&mut list)), MgpError::InvalidArgument);
    let mut map: Option<mgp_map> = None;
    assert_eq!(mgp_graph_show_index_info(Some(&GRAPH), &labels, &pairs, None, Some(&mut map)), MgpError::NoError);
    let map = map.unwrap();
    let keys: Vec<&str> = map.items.iter().map(|e| e.key.as_str()).collect();
    assert_eq!(keys, vec!["label_indices", "label_property_indices"]);
    assert_eq!(list_in(&map.items[0].value).items.len(), 2);
    assert_eq!(list_in(&map.items[1].value).items.len(), 1);
}

#[test]
fn what_is_gone_is_told() {
    let v = mgp_vertex { gid: 1, graph: 77 };
    let mut got: Option<mgp_value> = None;
    assert_eq!(mgp_vertex_get_property(Some(&v), Some("x"), None, None, Some(&mut got)), MgpError::DeletedObject);
    assert!(got.is_none());
    let refuse = |_: u64, _: &str, _: &PropertyValue| false;
    assert_eq!(mgp_vertex_set_property(Some(&v), Some("x"), Some(&integer(1)), &refuse), MgpError::LogicError);
}

#[test]
fn edges_are_deleted_before_their_vertex() {
    let told: RefCell<Vec<(bool, u64)>> = RefCell::new(Vec::new());
    let delete_edge = |gid: u64| {
        told.borrow_mut().push((false, gid));
        false
    };
    let delete_vertex = |gid: u64| {
        told.borrow_mut().push((true, gid));
        true
    };
    let v = mgp_vertex { gid: 9, graph: 77 };
    let e = mgp_graph_detach_delete_vertex(Some(&GRAPH), Some(&v), &vec![3, 1], &vec![2], &delete_edge, &delete_vertex);
    assert_eq!(e, MgpError::NoError);
    assert_eq!(*told.borrow(), vec![(false, 3), (false, 1), (false, 2), (true, 9)]);
    assert_eq!(mgp_graph_detach_delete_vertex(None, Some(&v), &vec![3], &vec![], &delete_edge, &delete_vertex), MgpError::InvalidArgument);
    assert_eq!(told.borrow().len(), 4);
}

#[test]
fn writing_properties_ends_with_the_first_that_fails() {
    let v = mgp_vertex { gid: 9, graph: 77 };
    let mut inner: Option<mgp_value> = None;
    mgp_value_make_vertex(mgp_vertex { gid: 9, graph: 77 }, Some(&mut inner));
    let mut map = mgp_map { items: Vec::new() };
    mgp_map_insert(Some(&mut map), Some("a"), Some(&integer(1)));
    mgp_map_insert(Some(&mut map), Some("v"), inner.as_ref());
    mgp_map_insert(Some(&mut map), Some("b"), Some(&integer(2)));
    mgp_map_insert(Some(&mut map), Some("c"), Some(&integer(3)));
    let names: RefCell<Vec<String>> = RefCell::new(Vec::new());
    let write = |_: u64, name: &str, _: &PropertyValue| {
        names.borrow_mut().push(name.to_string());
        name != "b"
    };
    assert_eq!(mgp_vertex_set_properties(Some(&v), Some(&map), &write), MgpError::LogicError);
    assert_eq!(*names.borrow(), vec!["a".to_string(), "b".to_string()]);
    // What cannot be stored is not written
    names.borrow_mut().clear();
    assert_eq!(mgp_vertex_set_property(Some(&v), Some("a"), inner.as_ref(), &write), MgpError::ValueConversion);
    assert!(names.borrow().is_empty());
}
