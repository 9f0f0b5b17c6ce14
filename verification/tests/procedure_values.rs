//! Values, lists, maps, paths, memory, types and registration.
use std::cell::{Cell, RefCell};

use graphkit::procedure::codes::{MgpError, MgpTypeTag, MgpValueType};
use graphkit::procedure::collections::{
    mgp_key_exists, mgp_list_append, mgp_list_append_extend, mgp_list_append_move, mgp_list_at, mgp_list_copy, mgp_list_make_empty,
    mgp_list_size, mgp_map_at, mgp_map_copy, mgp_map_erase, mgp_map_insert, mgp_map_item_key, mgp_map_item_value, mgp_map_items_iterator_get,
    mgp_map_items_iterator_next, mgp_map_iter_items, mgp_map_make_empty, mgp_map_size, mgp_map_update,
};
use graphkit::procedure::entities::{
    mgp_path_contains_deleted, mgp_path_copy, mgp_path_edge_at, mgp_path_equal, mgp_path_expand, mgp_path_make_with_start, mgp_path_pop,
    mgp_path_size, mgp_path_vertex_at,
};
use graphkit::procedure::memory::{
    mgp_aligned_alloc, mgp_alloc, mgp_free, mgp_global_aligned_alloc, mgp_global_alloc, mgp_global_free, mgp_memory,
    mgp_memory_tracked_bytes, AllocTracker, Block,
};
use graphkit::procedure::registration::{
    mgp_func_result, mgp_func_result_set_error_msg, mgp_func_result_set_value, mgp_func_add_arg, mgp_func_add_opt_arg, mgp_init_module, mgp_module,
    mgp_module_add_batch_read_procedure, mgp_module_add_batch_write_procedure, mgp_module_add_function, mgp_module_add_read_procedure,
    mgp_module_add_transformation, mgp_module_add_write_procedure, mgp_proc_add_arg, mgp_proc_add_deprecated_result, mgp_proc_add_opt_arg,
    mgp_proc_add_result, mgp_result, mgp_result_new_record, mgp_result_record_insert, mgp_result_reserve, mgp_result_set_error_msg, mgp_type,
    mgp_type_any, mgp_type_int, mgp_type_list, mgp_type_map, mgp_type_nullable, mgp_type_point_3d,
};
use graphkit::procedure::value::{
    mgp_edge, mgp_list, mgp_map, mgp_path, mgp_value, mgp_value_copy, mgp_value_get_bool, mgp_value_get_double, mgp_value_get_int,
    mgp_value_get_list, mgp_value_get_map, mgp_value_get_string, mgp_value_get_type, mgp_value_is_bool, mgp_value_is_date, mgp_value_is_double,
    mgp_value_is_duration, mgp_value_is_enum, mgp_value_is_int, mgp_value_is_local_date_time, mgp_value_is_local_time, mgp_value_is_null,
    mgp_value_is_point_2d, mgp_value_is_point_3d, mgp_value_is_string, mgp_value_is_zoned_date_time, mgp_value_make_bool, mgp_value_make_date,
    mgp_value_make_double, mgp_value_make_duration, mgp_value_make_enum, mgp_value_make_int, mgp_value_make_list, mgp_value_make_local_date_time,
    mgp_value_make_local_time, mgp_value_make_map, mgp_value_make_null, mgp_value_make_point_2d, mgp_value_make_point_3d, mgp_value_make_string,
    mgp_value_make_zoned_date_time, mgp_vertex,
};

fn integer(n: i64) -> mgp_value {
    let mut v: Option<mgp_value> = None;
    assert_eq!(mgp_value_make_int(n, None, Some(&mut v)), MgpError::NoError);
    v.unwrap()
}

fn int_of(v: &mgp_value) -> i64 {
    let mut n: i64 = 0;
    assert_eq!(mgp_value_get_int(Some(v), Some(&mut n)), MgpError::NoError);
    n
}

fn empty_list() -> mgp_list {
    let mut list: Option<mgp_list> = None;
    assert_eq!(mgp_list_make_empty(4, None, Some(&mut list)), MgpError::NoError);
    list.unwrap()
}

fn empty_map() -> mgp_map {
    let mut map: Option<mgp_map> = None;
    assert_eq!(mgp_map_make_empty(None, Some(&mut map)), MgpError::NoError);
    map.unwrap()
}

fn vertex(gid: u64) -> mgp_vertex {
    mgp_vertex { gid, graph: 0 }
}

fn edge(gid: u64) -> mgp_edge {
    mgp_edge { gid, graph: 0 }
}

#[test]
fn error_codes_match_c_header() {
    assert_eq!(MgpError::NoError.code(), 0);
    assert_eq!(MgpError::UnableToAllocate.code(), 2);
    assert_eq!(MgpError::DeletedObject.code(), 6);
    assert_eq!(MgpError::KeyAlreadyExists.code(), 8);
    assert_eq!(MgpError::ImmutableObject.code(), 9);
    assert_eq!(MgpError::SerializationError.code(), 11);
    assert_eq!(MgpError::AuthorizationError.code(), 12);
    assert_eq!(MgpError::NotYetImplemented.code(), 13);
}

#[test]
fn value_make_and_get_int() {
    let mut v: Option<mgp_value> = None;
    assert_eq!(mgp_value_make_int(42, None, Some(&mut v)), MgpError::NoError);
    assert!(v.is_some());
    let mut got = 0i64;
    assert_eq!(mgp_value_get_int(v.as_ref(), Some(&mut got)), MgpError::NoError);
    assert_eq!(got, 42);
    let mut is_int = 0i32;
    assert_eq!(mgp_value_is_int(v.as_ref(), Some(&mut is_int)), MgpError::NoError);
    assert_eq!(is_int, 1);
}

#[test]
fn value_type_dispatch() {
    let mut v: Option<mgp_value> = None;
    mgp_value_make_bool(1, None, Some(&mut v));
    let mut ty = MgpValueType::Null;
    assert_eq!(mgp_value_get_type(v.as_ref(), Some(&mut ty)), MgpError::NoError);
    assert_eq!(ty, MgpValueType::Bool);
    let mut got = 0i32;
    mgp_value_get_bool(v.as_ref(), Some(&mut got));
    assert_eq!(got, 1);
}

#[test]
fn value_string_roundtrip() {
    let mut v: Option<mgp_value> = None;
    assert_eq!(mgp_value_make_string(Some("hello"), None, Some(&mut v)), MgpError::NoError);
    let mut p: Option<String> = None;
    assert_eq!(mgp_value_get_string(v.as_ref(), Some(&mut p)), MgpError::NoError);
    assert_eq!(p.unwrap(), "hello");
}

#[test]
fn value_double_conversion_error() {
    let v = integer(7);
    let mut d = 0.0f64.to_bits();
    assert_eq!(mgp_value_get_double(Some(&v), Some(&mut d)), MgpError::ValueConversion);
}

#[test]
fn list_append_and_iterate() {
    let mut list: Option<mgp_list> = None;
    assert_eq!(mgp_list_make_empty(4, None, Some(&mut list)), MgpError::NoError);
    for i in 0..3 {
        let v = integer(i);
        assert_eq!(mgp_list_append(list.as_mut(), Some(&v)), MgpError::NoError);
    }
    let mut size = 0;
    mgp_list_size(list.as_ref(), Some(&mut size));
    assert_eq!(size, 3);

    let mut item: Option<mgp_value> = None;
    mgp_list_at(list.as_ref(), 1, Some(&mut item));
    let mut got = 0i64;
    mgp_value_get_int(item.as_ref(), Some(&mut got));
    assert_eq!(got, 1);
}

#[test]
fn list_at_out_of_range() {
    let mut list: Option<mgp_list> = None;
    mgp_list_make_empty(0, None, Some(&mut list));
    let mut item: Option<mgp_value> = None;
    assert_eq!(mgp_list_at(list.as_ref(), 0, Some(&mut item)), MgpError::OutOfRange);
}

#[test]
fn map_insert_and_lookup() {
    let mut map = empty_map();
    let v = integer(99);
    assert_eq!(mgp_map_insert(Some(&mut map), Some("k"), Some(&v)), MgpError::NoError);
    assert_eq!(mgp_map_insert(Some(&mut map), Some("k"), Some(&v)), MgpError::KeyAlreadyExists);

    let mut got: Option<mgp_value> = None;
    mgp_map_at(Some(&map), Some("k"), Some(&mut got));
    let mut n = 0i64;
    mgp_value_get_int(got.as_ref(), Some(&mut n));
    assert_eq!(n, 99);

    let mut size = 0;
    mgp_map_size(Some(&map), Some(&mut size));
    assert_eq!(size, 1);

    let mut exists = 0i32;
    mgp_key_exists(Some(&map), Some("k"), Some(&mut exists));
    assert_eq!(exists, 1);
}

#[test]
fn allocator_tracks_layout() {
    let mut process = AllocTracker::new();
    let next: Cell<usize> = Cell::new(4096);
    let given_back: RefCell<Vec<(usize, Block)>> = RefCell::new(Vec::new());
    let request = |b: Block| {
        let address = next.get();
        next.set(address + b.size);
        Some(address)
    };
    let release = |address: usize, b: Block| given_back.borrow_mut().push((address, b));
    let mut p: Option<usize> = None;
    assert_eq!(mgp_global_alloc(&mut process, 64, &request, Some(&mut p)), MgpError::NoError);
    assert!(p.is_some());
    let mut bytes = 0;
    mgp_memory_tracked_bytes(None, &process, Some(&mut bytes));
    assert!(bytes >= 64);
    mgp_global_free(&mut process, p, &release);
    mgp_memory_tracked_bytes(None, &process, Some(&mut bytes));
    assert_eq!(bytes, 0);
    assert_eq!(*given_back.borrow(), vec![(4096, Block { size: 64, align: 8 })]);
}

#[test]
fn null_arg_returns_invalid_argument() {
    assert_eq!(mgp_value_get_int(None, None), MgpError::InvalidArgument);
    let v = integer(1);
    assert_eq!(mgp_value_get_int(Some(&v), None), MgpError::InvalidArgument);
}

#[test]
fn type_descriptor_returns_singleton() {
    let mut t: Option<mgp_type> = None;
    assert_eq!(mgp_type_int(Some(&mut t)), MgpError::NoError);
    assert!(t.is_some());
    assert_eq!(t.unwrap().tag, MgpTypeTag::Int);
}

#[test]
fn path_make_expand_pop() {
    let v = vertex(1);
    let mut path: Option<mgp_path> = None;
    assert_eq!(mgp_path_make_with_start(Some(&v), None, Some(&mut path)), MgpError::NoError);
    assert!(path.is_some());

    let mut size = 0usize;
    assert_eq!(mgp_path_size(path.as_ref(), Some(&mut size)), MgpError::NoError);
    assert_eq!(size, 0);

    let e = edge(10);
    assert_eq!(mgp_path_expand(path.as_mut(), Some(&e)), MgpError::NoError);

    assert_eq!(mgp_path_size(path.as_ref(), Some(&mut size)), MgpError::NoError);
    assert_eq!(size, 1);

    assert_eq!(mgp_path_pop(path.as_mut()), MgpError::NoError);
    assert_eq!(mgp_path_size(path.as_ref(), Some(&mut size)), MgpError::NoError);
    assert_eq!(size, 0);

    assert_eq!(mgp_path_pop(path.as_mut()), MgpError::OutOfRange);
}

#[test]
fn path_copy_and_equal() {
    let v = vertex(1);
    let mut path1: Option<mgp_path> = None;
    mgp_path_make_with_start(Some(&v), None, Some(&mut path1));

    let mut path2: Option<mgp_path> = None;
    assert_eq!(mgp_path_copy(path1.as_ref(), None, Some(&mut path2)), MgpError::NoError);

    let mut eq = 0i32;
    assert_eq!(mgp_path_equal(path1.as_ref(), path2.as_ref(), Some(&mut eq)), MgpError::NoError);
    assert_eq!(eq, 1);
}

#[test]
fn type_list_and_nullable() {
    let mut base: Option<mgp_type> = None;
    assert_eq!(mgp_type_int(Some(&mut base)), MgpError::NoError);

    let mut list_ty: Option<mgp_type> = None;
    assert_eq!(mgp_type_list(base.as_ref(), Some(&mut list_ty)), MgpError::NoError);
    assert!(list_ty.is_some());

    let mut nullable_ty: Option<mgp_type> = None;
    assert_eq!(mgp_type_nullable(base.as_ref(), Some(&mut nullable_ty)), MgpError::NoError);
    assert!(nullable_ty.is_some());
}

#[test]
fn module_procedure_registration_roundtrip() {
    let dummy_proc: usize = 0x1000;
    let dummy_func: usize = 0x2000;
    let mut module = mgp_module::new();

    // Register a read procedure
    let mut proc: Option<usize> = None;
    assert_eq!(mgp_module_add_read_procedure(Some(&mut module), Some("my_proc"), dummy_proc, Some(&mut proc)), MgpError::NoError);
    assert!(proc.is_some());
    let proc = proc.unwrap();
    assert_eq!(module.procs[proc].is_write, false);

    // Add arg and result
    let mut ty: Option<mgp_type> = None;
    assert_eq!(mgp_type_int(Some(&mut ty)), MgpError::NoError);
    assert_eq!(mgp_proc_add_arg(Some(&mut module.procs[proc]), Some("input"), ty.as_ref()), MgpError::NoError);
    assert_eq!(mgp_proc_add_result(Some(&mut module.procs[proc]), Some("output"), ty.as_ref()), MgpError::NoError);

    // Register a write procedure
    let mut wproc: Option<usize> = None;
    assert_eq!(mgp_module_add_write_procedure(Some(&mut module), Some("my_write_proc"), dummy_proc, Some(&mut wproc)), MgpError::NoError);
    assert_eq!(module.procs[wproc.unwrap()].is_write, true);

    // Register a function
    let mut func: Option<usize> = None;
    assert_eq!(mgp_module_add_function(Some(&mut module), Some("my_func"), dummy_func, Some(&mut func)), MgpError::NoError);
    assert!(func.is_some());

    // Result API
    let mut result = mgp_result { error: None, records: Vec::new(), reserved: 0 };
    assert_eq!(mgp_result_reserve(Some(&mut result), 10), MgpError::NoError);
    assert_eq!(result.reserved, 10);

    let mut record: Option<usize> = None;
    assert_eq!(mgp_result_new_record(Some(&mut result), Some(&mut record)), MgpError::NoError);
    assert!(record.is_some());

    let val = integer(42);
    assert_eq!(mgp_result_record_insert(Some(&mut result.records[record.unwrap()]), Some("answer"), Some(&val)), MgpError::NoError);

    // Func result API
    let mut fresult = mgp_func_result { error: None, value: None };
    let fval = integer(99);
    assert_eq!(mgp_func_result_set_value(Some(&mut fresult), Some(&fval), None), MgpError::NoError);
    assert!(fresult.value.is_some());

    // Error on result
    let mut eresult = mgp_result { error: None, records: Vec::new(), reserved: 0 };
    assert_eq!(mgp_result_set_error_msg(Some(&mut eresult), Some("something went wrong")), MgpError::NoError);
    assert!(eresult.error.is_some());
}

#[test]
fn path_vertex_and_edge_at() {
    let v1 = vertex(1);
    let e = edge(10);
    let mut path: Option<mgp_path> = None;
    mgp_path_make_with_start(Some(&v1), None, Some(&mut path));
    mgp_path_expand(path.as_mut(), Some(&e));

    let mut got_v: Option<mgp_vertex> = None;
    assert_eq!(mgp_path_vertex_at(path.as_ref(), 0, Some(&mut got_v)), MgpError::NoError);
    assert_eq!(got_v.unwrap().gid, 1);

    let mut got_e: Option<mgp_edge> = None;
    assert_eq!(mgp_path_edge_at(path.as_ref(), 0, Some(&mut got_e)), MgpError::NoError);
    assert_eq!(got_e.unwrap().gid, 10);

    assert_eq!(mgp_path_vertex_at(path.as_ref(), 99, Some(&mut got_v)), MgpError::OutOfRange);
    assert_eq!(mgp_path_edge_at(path.as_ref(), 99, Some(&mut got_e)), MgpError::OutOfRange);
}

#[test]
fn list_copy_preserves_items() {
    let mut list = empty_list();
    let v = integer(7);
    mgp_list_append(Some(&mut list), Some(&v));

    let mut copy: Option<mgp_list> = None;
    assert_eq!(mgp_list_copy(Some(&list), None, Some(&mut copy)), MgpError::NoError);

    let mut size = 0;
    mgp_list_size(copy.as_ref(), Some(&mut size));
    assert_eq!(size, 1);
    let mut item: Option<mgp_value> = None;
    mgp_list_at(copy.as_ref(), 0, Some(&mut item));
    let mut n = 0i64;
    mgp_value_get_int(item.as_ref(), Some(&mut n));
    assert_eq!(n, 7);
}

#[test]
fn map_copy_preserves_entries() {
    let mut map = empty_map();
    let v = integer(5);
    mgp_map_insert(Some(&mut map), Some("x"), Some(&v));

    let mut copy: Option<mgp_map> = None;
    assert_eq!(mgp_map_copy(Some(&map), None, Some(&mut copy)), MgpError::NoError);

    let mut got: Option<mgp_value> = None;
    mgp_map_at(copy.as_ref(), Some("x"), Some(&mut got));
    let mut n = 0i64;
    mgp_value_get_int(got.as_ref(), Some(&mut n));
    assert_eq!(n, 5);
}

#[test]
fn value_type_predicates_for_all_types() {
    let mut v: Option<mgp_value> = None;

    mgp_value_make_null(None, Some(&mut v));
    let mut flag = 0i32;
    mgp_value_is_null(v.as_ref(), Some(&mut flag));
    assert_eq!(flag, 1);
    mgp_value_is_int(v.as_ref(), Some(&mut flag));
    assert_eq!(flag, 0);

    mgp_value_make_int(1, None, Some(&mut v));
    mgp_value_is_int(v.as_ref(), Some(&mut flag));
    assert_eq!(flag, 1);
    mgp_value_is_bool(v.as_ref(), Some(&mut flag));
    assert_eq!(flag, 0);

    mgp_value_make_double(1.5f64.to_bits(), None, Some(&mut v));
    mgp_value_is_double(v.as_ref(), Some(&mut flag));
    assert_eq!(flag, 1);

    mgp_value_make_string(Some("s"), None, Some(&mut v));
    mgp_value_is_string(v.as_ref(), Some(&mut flag));
    assert_eq!(flag, 1);

    mgp_value_make_date(100, None, Some(&mut v));
    mgp_value_is_date(v.as_ref(), Some(&mut flag));
    assert_eq!(flag, 1);

    mgp_value_make_local_time(50, None, Some(&mut v));
    mgp_value_is_local_time(v.as_ref(), Some(&mut flag));
    assert_eq!(flag, 1);

    mgp_value_make_local_date_time(200, None, Some(&mut v));
    mgp_value_is_local_date_time(v.as_ref(), Some(&mut flag));
    assert_eq!(flag, 1);

    mgp_value_make_duration(1, 2, 3, None, Some(&mut v));
    mgp_value_is_duration(v.as_ref(), Some(&mut flag));
    assert_eq!(flag, 1);

    mgp_value_make_zoned_date_time(10, 0, Some("UTC"), None, Some(&mut v));
    mgp_value_is_zoned_date_time(v.as_ref(), Some(&mut flag));
    assert_eq!(flag, 1);

    mgp_value_make_point_2d(7203, 1.0f64.to_bits(), 2.0f64.to_bits(), None, Some(&mut v));
    mgp_value_is_point_2d(v.as_ref(), Some(&mut flag));
    assert_eq!(flag, 1);

    mgp_value_make_point_3d(9157, 1.0f64.to_bits(), 2.0f64.to_bits(), 3.0f64.to_bits(), None, Some(&mut v));
    mgp_value_is_point_3d(v.as_ref(), Some(&mut flag));
    assert_eq!(flag, 1);

    mgp_value_make_enum(Some("Color"), Some("Red"), None, Some(&mut v));
    mgp_value_is_enum(v.as_ref(), Some(&mut flag));
    assert_eq!(flag, 1);
}

#[test]
fn error_names_are_those_of_the_answers() {
    assert_eq!(MgpError::NoError.name(), "NoError");
    assert_eq!(MgpError::ValueConversion.name(), "ValueConversion");
}

#[test]
fn values_of_containers_hold_copies() {
    let mut list = empty_list();
    mgp_list_append(Some(&mut list), Some(&integer(1)));
    mgp_list_append_extend(Some(&mut list), Some(&integer(2)));
    mgp_list_append_move(Some(&mut list), Some(&integer(3)));
    let mut held: Option<mgp_value> = None;
    assert_eq!(mgp_value_make_list(list, Some(&mut held)), MgpError::NoError);
    let mut copy: Option<mgp_value> = None;
    assert_eq!(mgp_value_copy(held.as_ref(), None, Some(&mut copy)), MgpError::NoError);
    let mut inner: Option<mgp_list> = None;
    assert_eq!(mgp_value_get_list(copy.as_ref(), Some(&mut inner)), MgpError::NoError);
    let items: Vec<i64> = inner.unwrap().items.iter().map(|v| int_of(v)).collect();
    assert_eq!(items, vec![1, 2, 3]);

    let mut map = empty_map();
    mgp_map_insert(Some(&mut map), Some("a"), Some(&integer(4)));
    let mut held: Option<mgp_value> = None;
    assert_eq!(mgp_value_make_map(map, Some(&mut held)), MgpError::NoError);
    let mut inner: Option<mgp_map> = None;
    assert_eq!(mgp_value_get_map(held.as_ref(), Some(&mut inner)), MgpError::NoError);
    assert_eq!(inner.unwrap().items.len(), 1);
    assert_eq!(mgp_value_get_map(Some(&integer(1)), Some(&mut None)), MgpError::ValueConversion);
}

#[test]
fn map_entries_are_replaced_and_erased() {
    let mut map = empty_map();
    mgp_map_insert(Some(&mut map), Some("a"), Some(&integer(1)));
    mgp_map_insert(Some(&mut map), Some("b"), Some(&integer(2)));
    assert_eq!(mgp_map_update(Some(&mut map), Some("a"), Some(&integer(3))), MgpError::NoError);
    let mut got: Option<mgp_value> = None;
    mgp_map_at(Some(&map), Some("a"), Some(&mut got));
    assert_eq!(int_of(&got.unwrap()), 3);
    assert_eq!(mgp_map_erase(Some(&mut map), Some("a")), MgpError::NoError);
    let mut exists = 9i32;
    mgp_key_exists(Some(&map), Some("a"), Some(&mut exists));
    assert_eq!(exists, 0);
    mgp_key_exists(Some(&map), Some("b"), Some(&mut exists));
    assert_eq!(exists, 1);
}

#[test]
fn map_entries_come_one_after_the_other() {
    let mut map = empty_map();
    mgp_map_insert(Some(&mut map), Some("a"), Some(&integer(1)));
    mgp_map_insert(Some(&mut map), Some("b"), Some(&integer(2)));
    let mut it = None;
    assert_eq!(mgp_map_iter_items(Some(&map), Some(&mut it)), MgpError::NoError);
    let mut seen: Vec<(String, i64)> = Vec::new();
    let mut item = None;
    mgp_map_items_iterator_get(it.as_mut(), Some(&mut item));
    while item.is_some() {
        let mut key: Option<String> = None;
        let mut value: Option<mgp_value> = None;
        assert_eq!(mgp_map_item_key(item.as_ref(), Some(&mut key)), MgpError::NoError);
        assert_eq!(mgp_map_item_value(item.as_ref(), Some(&mut value)), MgpError::NoError);
        seen.push((key.unwrap(), int_of(&value.unwrap())));
        if seen.len() > 4 {
            break;
        }
        mgp_map_items_iterator_next(it.as_mut(), Some(&mut item));
    }
    assert_eq!(seen, vec![("a".to_string(), 1), ("b".to_string(), 2)]);
}

#[test]
fn popping_undoes_expanding_on_a_path() {
    let mut path: Option<mgp_path> = None;
    mgp_path_make_with_start(Some(&vertex(1)), None, Some(&mut path));
    mgp_path_expand(path.as_mut(), Some(&edge(5)));
    let mut before: Option<mgp_path> = None;
    mgp_path_copy(path.as_ref(), None, Some(&mut before));
    mgp_path_expand(path.as_mut(), Some(&edge(6)));
    let mut eq = 9i32;
    mgp_path_equal(path.as_ref(), before.as_ref(), Some(&mut eq));
    assert_eq!(eq, 0);
    mgp_path_pop(path.as_mut());
    mgp_path_equal(path.as_ref(), before.as_ref(), Some(&mut eq));
    assert_eq!(eq, 1);
}

#[test]
fn paths_tell_whether_something_is_gone() {
    let mut path: Option<mgp_path> = None;
    mgp_path_make_with_start(Some(&mgp_vertex { gid: 1, graph: 7 }), None, Some(&mut path));
    mgp_path_expand(path.as_mut(), Some(&mgp_edge { gid: 5, graph: 7 }));
    let mut gone = 9i32;
    assert_eq!(mgp_path_contains_deleted(path.as_ref(), &|_| true, &|_| true, Some(&mut gone)), MgpError::NoError);
    assert_eq!(gone, 0);
    assert_eq!(mgp_path_contains_deleted(path.as_ref(), &|_| true, &|e| e != 5, Some(&mut gone)), MgpError::NoError);
    assert_eq!(gone, 1);
}

#[test]
fn memory_of_a_call_has_its_own_books() {
    let mut process = AllocTracker::new();
    let mut memory = mgp_memory { tracker: Some(AllocTracker::new()) };
    let request = |_: Block| Some(512usize);
    let release = |_: usize, _: Block| {};
    let mut p: Option<usize> = None;
    assert_eq!(mgp_alloc(Some(&mut memory), &mut process, 16, &request, Some(&mut p)), MgpError::NoError);
    assert_eq!(p, Some(512));
    let mut bytes = 0usize;
    mgp_memory_tracked_bytes(Some(&memory), &process, Some(&mut bytes));
    assert_eq!(bytes, 16);
    mgp_memory_tracked_bytes(None, &process, Some(&mut bytes));
    assert_eq!(bytes, 0);
    mgp_free(Some(&mut memory), &mut process, p, &release);
    mgp_memory_tracked_bytes(Some(&memory), &process, Some(&mut bytes));
    assert_eq!(bytes, 0);
}

#[test]
fn blocks_that_cannot_be_had_are_an_error() {
    let mut process = AllocTracker::new();
    let request = |_: Block| Some(512usize);
    let mut p: Option<usize> = None;
    // No alignment but a power of two
    assert_eq!(mgp_global_aligned_alloc(&mut process, 8, 3, &request, Some(&mut p)), MgpError::UnableToAllocate);
    assert_eq!(mgp_global_aligned_alloc(&mut process, 8, 16, &request, Some(&mut p)), MgpError::NoError);
    assert_eq!(p, Some(512));
    // Nothing is handed out where nothing is asked for
    assert_eq!(mgp_aligned_alloc(None, &mut process, 0, 8, &request, Some(&mut p)), MgpError::NoError);
    assert_eq!(p, None);
    assert_eq!(mgp_alloc(None, &mut process, 8, |_: Block| None, Some(&mut p)), MgpError::UnableToAllocate);
    assert_eq!(mgp_alloc(None, &mut process, 8, &request, None), MgpError::InvalidArgument);
    assert_eq!(process.bytes(), 8);
}

#[test]
fn types_nest() {
    let mut base: Option<mgp_type> = None;
    mgp_type_point_3d(Some(&mut base));
    let mut list: Option<mgp_type> = None;
    mgp_type_list(base.as_ref(), Some(&mut list));
    let mut nullable: Option<mgp_type> = None;
    mgp_type_nullable(list.as_ref(), Some(&mut nullable));
    let t = nullable.unwrap();
    assert_eq!(t.tag, MgpTypeTag::Nullable);
    let inner = t.elem.unwrap();
    assert_eq!(inner.tag, MgpTypeTag::List);
    assert_eq!(inner.elem.unwrap().tag, MgpTypeTag::Point3D);
    assert_eq!(mgp_type_list(None, Some(&mut list)), MgpError::InvalidArgument);
    mgp_type_map(Some(&mut base));
    assert_eq!(base.unwrap().tag, MgpTypeTag::Mapping);
    assert_eq!(mgp_type_any(None), MgpError::InvalidArgument);
}

#[test]
fn procedures_declare_what_they_take_and_give() {
    let mut module = mgp_module::new();
    let mut at: Option<usize> = None;
    mgp_module_add_transformation(Some(&mut module), Some("t"), 1, Some(&mut at));
    assert_eq!(at, Some(0));
    mgp_module_add_batch_read_procedure(Some(&mut module), Some("r"), 2, 8, 9, Some(&mut at));
    assert_eq!(at, Some(1));
    mgp_module_add_batch_write_procedure(Some(&mut module), Some("w"), 3, 8, 9, Some(&mut at));
    assert_eq!(at, Some(2));
    let writes: Vec<bool> = module.procs.iter().map(|p| p.is_write).collect();
    assert_eq!(writes, vec![false, false, true]);

    let mut ty: Option<mgp_type> = None;
    mgp_type_int(Some(&mut ty));
    let p = &mut module.procs[2];
    mgp_proc_add_opt_arg(Some(&mut *p), Some("limit"), ty.as_ref(), Some(&integer(10)));
    mgp_proc_add_opt_arg(Some(&mut *p), Some("rest"), ty.as_ref(), None);
    mgp_proc_add_deprecated_result(Some(&mut *p), Some("old"), ty.as_ref());
    assert_eq!(p.opt_args.len(), 2);
    assert_eq!(int_of(p.opt_args[0].default_value.as_ref().unwrap().as_ref().unwrap()), 10);
    assert!(p.opt_args[1].default_value.as_ref().unwrap().is_none());
    assert!(p.results[0].deprecated);
    assert_eq!(mgp_proc_add_arg(Some(p), None, ty.as_ref()), MgpError::InvalidArgument);

    mgp_module_add_function(Some(&mut module), Some("f"), 4, Some(&mut at));
    let f = &mut module.funcs[at.unwrap()];
    mgp_func_add_arg(Some(&mut *f), Some("x"), ty.as_ref());
    mgp_func_add_opt_arg(Some(&mut *f), Some("y"), ty.as_ref(), Some(&integer(1)));
    assert!(f.args[0].default_value.is_none());
    assert_eq!(f.opt_args[0].name, "y");
    assert_eq!(mgp_init_module(Some(&mut module), None), MgpError::NoError);
    assert_eq!(module.procs.len(), 3);
}

#[test]
fn records_keep_the_last_value_of_a_field() {
    let mut result = mgp_result { error: None, records: Vec::new(), reserved: 0 };
    let mut at: Option<usize> = None;
    mgp_result_new_record(Some(&mut result), Some(&mut at));
    mgp_result_new_record(Some(&mut result), Some(&mut at));
    assert_eq!(at, Some(1));
    let record = &mut result.records[1];
    mgp_result_record_insert(Some(&mut *record), Some("x"), Some(&integer(1)));
    mgp_result_record_insert(Some(&mut *record), Some("x"), Some(&integer(2)));
    assert_eq!(record.fields.items.len(), 1);
    assert_eq!(int_of(&record.fields.items[0].value), 2);
    let mut answer = mgp_func_result { error: None, value: None };
    mgp_func_result_set_error_msg(Some(&mut answer), Some("no"), None);
    assert_eq!(answer.error.unwrap(), "no");
}

#[test]
fn bytes_are_those_of_the_blocks_in_use() {
    let mut books = AllocTracker::new();
    let released = std::cell::RefCell::new(Vec::new());
    let release = |address: usize, block: Block| released.borrow_mut().push((address, block.size));
    assert_eq!(books.bytes(), 0);
    assert_eq!(books.allocate(10, 8, |_: Block| Some(100)), Some(100));
    assert_eq!(books.allocate(20, 8, |_: Block| Some(200)), Some(200));
    assert_eq!(books.allocate(40, 8, |_: Block| None), None);
    assert_eq!(books.bytes(), 30);
    books.free(100, &release);
    books.free(100, &release);
    assert_eq!(books.bytes(), 20);
    books.free(300, &release);
    books.free(200, &release);
    assert_eq!(books.bytes(), 0);
    assert_eq!(*released.borrow(), vec![(100, 10), (200, 20)]);
}
