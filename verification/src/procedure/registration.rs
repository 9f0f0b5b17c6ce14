//! Types that procedures declare, what they hand back, and the modules that they stand in.
//!
//! A record of a result, and a procedure or function of a module, is known by its position there.
//! Callbacks are known by their addresses.
use vstd::prelude::*;

use crate::procedure::codes::{MgpError, MgpTypeTag};
use crate::procedure::collections::{keys_differ, mgp_map_update, updated, Entries};
use crate::procedure::entities::given;
use crate::procedure::memory::mgp_memory;
use crate::procedure::value::{mgp_map, mgp_value, opt_view, Val};

verus! {

/// A type that a procedure declares. Lists and nullable types have an element type.
#[derive(Debug)]
pub struct mgp_type {
    pub tag: MgpTypeTag,
    pub elem: Option<Box<mgp_type>>,
}

impl Clone for mgp_type {
    fn clone(&self) -> (r: Self)
        ensures
            r == *self,
        decreases self,
    {
        let elem = match &self.elem {
            Some(t) => {
                let inner: mgp_type = (**t).clone();
                Some(Box::new(inner))
            },
            None => None,
        };
        mgp_type { tag: self.tag, elem }
    }
}

/// Hands out the type of any value.
pub fn mgp_type_any(result: Option<&mut Option<mgp_type>>) -> (e: MgpError)
    ensures
        e == given(result is None),
        result matches Some(r) ==> *final(r) == Some(mgp_type { tag: MgpTypeTag::Any, elem: None }),
{
    match result {
        Some(r) => {
            *r = Some(mgp_type { tag: MgpTypeTag::Any, elem: None });
            MgpError::NoError
        },
        None => MgpError::InvalidArgument,
    }
}

/// Hands out the type of truth values.
pub fn mgp_type_bool(result: Option<&mut Option<mgp_type>>) -> (e: MgpError)
    ensures
        e == given(result is None),
        result matches Some(r) ==> *final(r) == Some(mgp_type { tag: MgpTypeTag::Bool, elem: None }),
{
    match result {
        Some(r) => {
            *r = Some(mgp_type { tag: MgpTypeTag::Bool, elem: None });
            MgpError::NoError
        },
        None => MgpError::InvalidArgument,
    }
}

/// Hands out the type of integers.
pub fn mgp_type_int(result: Option<&mut Option<mgp_type>>) -> (e: MgpError)
    ensures
        e == given(result is None),
        result matches Some(r) ==> *final(r) == Some(mgp_type { tag: MgpTypeTag::Int, elem: None }),
{
    match result {
        Some(r) => {
            *r = Some(mgp_type { tag: MgpTypeTag::Int, elem: None });
            MgpError::NoError
        },
        None => MgpError::InvalidArgument,
    }
}

/// Hands out the type of doubles.
pub fn mgp_type_float(result: Option<&mut Option<mgp_type>>) -> (e: MgpError)
    ensures
        e == given(result is None),
        result matches Some(r) ==> *final(r) == Some(mgp_type { tag: MgpTypeTag::Float, elem: None }),
{
    match result {
        Some(r) => {
            *r = Some(mgp_type { tag: MgpTypeTag::Float, elem: None });
            MgpError::NoError
        },
        None => MgpError::InvalidArgument,
    }
}

/// Hands out the type of numbers.
pub fn mgp_type_number(result: Option<&mut Option<mgp_type>>) -> (e: MgpError)
    ensures
        e == given(result is None),
        result matches Some(r) ==> *final(r) == Some(mgp_type { tag: MgpTypeTag::Number, elem: None }),
{
    match result {
        Some(r) => {
            *r = Some(mgp_type { tag: MgpTypeTag::Number, elem: None });
            MgpError::NoError
        },
        None => MgpError::InvalidArgument,
    }
}

/// Hands out the type of text.
pub fn mgp_type_string(result: Option<&mut Option<mgp_type>>) -> (e: MgpError)
    ensures
        e == given(result is None),
        result matches Some(r) ==> *final(r) == Some(mgp_type { tag: MgpTypeTag::String, elem: None }),
{
    match result {
        Some(r) => {
            *r = Some(mgp_type { tag: MgpTypeTag::String, elem: None });
            MgpError::NoError
        },
        None => MgpError::InvalidArgument,
    }
}

/// Hands out the type of maps.
pub fn mgp_type_map(result: Option<&mut Option<mgp_type>>) -> (e: MgpError)
    ensures
        e == given(result is None),
        result matches Some(r) ==> *final(r) == Some(mgp_type { tag: MgpTypeTag::Mapping, elem: None }),
{
    match result {
        Some(r) => {
            *r = Some(mgp_type { tag: MgpTypeTag::Mapping, elem: None });
            MgpError::NoError
        },
        None => MgpError::InvalidArgument,
    }
}

/// Hands out the type of vertices.
pub fn mgp_type_node(result: Option<&mut Option<mgp_type>>) -> (e: MgpError)
    ensures
        e == given(result is None),
        result matches Some(r) ==> *final(r) == Some(mgp_type { tag: MgpTypeTag::Node, elem: None }),
{
    match result {
        Some(r) => {
            *r = Some(mgp_type { tag: MgpTypeTag::Node, elem: None });
            MgpError::NoError
        },
        None => MgpError::InvalidArgument,
    }
}

/// Hands out the type of edges.
pub fn mgp_type_relationship(result: Option<&mut Option<mgp_type>>) -> (e: MgpError)
    ensures
        e == given(result is None),
        result matches Some(r) ==> *final(r) == Some(mgp_type { tag: MgpTypeTag::Relationship, elem: None }),
{
    match result {
        Some(r) => {
            *r = Some(mgp_type { tag: MgpTypeTag::Relationship, elem: None });
            MgpError::NoError
        },
        None => MgpError::InvalidArgument,
    }
}

/// Hands out the type of paths.
pub fn mgp_type_path(result: Option<&mut Option<mgp_type>>) -> (e: MgpError)
    ensures
        e == given(result is None),
        result matches Some(r) ==> *final(r) == Some(mgp_type { tag: MgpTypeTag::Path, elem: None }),
{
    match result {
        Some(r) => {
            *r = Some(mgp_type { tag: MgpTypeTag::Path, elem: None });
            MgpError::NoError
        },
        None => MgpError::InvalidArgument,
    }
}

/// Hands out the type of dates.
pub fn mgp_type_date(result: Option<&mut Option<mgp_type>>) -> (e: MgpError)
    ensures
        e == given(result is None),
        result matches Some(r) ==> *final(r) == Some(mgp_type { tag: MgpTypeTag::Date, elem: None }),
{
    match result {
        Some(r) => {
            *r = Some(mgp_type { tag: MgpTypeTag::Date, elem: None });
            MgpError::NoError
        },
        None => MgpError::InvalidArgument,
    }
}

/// Hands out the type of times of day.
pub fn mgp_type_local_time(result: Option<&mut Option<mgp_type>>) -> (e: MgpError)
    ensures
        e == given(result is None),
        result matches Some(r) ==> *final(r) == Some(mgp_type { tag: MgpTypeTag::LocalTime, elem: None }),
{
    match result {
        Some(r) => {
            *r = Some(mgp_type { tag: MgpTypeTag::LocalTime, elem: None });
            MgpError::NoError
        },
        None => MgpError::InvalidArgument,
    }
}

/// Hands out the type of moments.
pub fn mgp_type_local_date_time(result: Option<&mut Option<mgp_type>>) -> (e: MgpError)
    ensures
        e == given(result is None),
        result matches Some(r) ==> *final(r) == Some(mgp_type { tag: MgpTypeTag::LocalDateTime, elem: None }),
{
    match result {
        Some(r) => {
            *r = Some(mgp_type { tag: MgpTypeTag::LocalDateTime, elem: None });
            MgpError::NoError
        },
        None => MgpError::InvalidArgument,
    }
}

/// Hands out the type of durations.
pub fn mgp_type_duration(result: Option<&mut Option<mgp_type>>) -> (e: MgpError)
    ensures
        e == given(result is None),
        result matches Some(r) ==> *final(r) == Some(mgp_type { tag: MgpTypeTag::Duration, elem: None }),
{
    match result {
        Some(r) => {
            *r = Some(mgp_type { tag: MgpTypeTag::Duration, elem: None });
            MgpError::NoError
        },
        None => MgpError::InvalidArgument,
    }
}

/// Hands out the type of moments in a time zone.
pub fn mgp_type_zoned_date_time(result: Option<&mut Option<mgp_type>>) -> (e: MgpError)
    ensures
        e == given(result is None),
        result matches Some(r) ==> *final(r) == Some(mgp_type { tag: MgpTypeTag::ZonedDateTime, elem: None }),
{
    match result {
        Some(r) => {
            *r = Some(mgp_type { tag: MgpTypeTag::ZonedDateTime, elem: None });
            MgpError::NoError
        },
        None => MgpError::InvalidArgument,
    }
}

/// Hands out the type of members of enumerations.
pub fn mgp_type_enum(result: Option<&mut Option<mgp_type>>) -> (e: MgpError)
    ensures
        e == given(result is None),
        result matches Some(r) ==> *final(r) == Some(mgp_type { tag: MgpTypeTag::Enum, elem: None }),
{
    match result {
        Some(r) => {
            *r = Some(mgp_type { tag: MgpTypeTag::Enum, elem: None });
            MgpError::NoError
        },
        None => MgpError::InvalidArgument,
    }
}

/// Hands out the type of points in the plane.
pub fn mgp_type_point_2d(result: Option<&mut Option<mgp_type>>) -> (e: MgpError)
    ensures
        e == given(result is None),
        result matches Some(r) ==> *final(r) == Some(mgp_type { tag: MgpTypeTag::Point2D, elem: None }),
{
    match result {
        Some(r) => {
            *r = Some(mgp_type { tag: MgpTypeTag::Point2D, elem: None });
            MgpError::NoError
        },
        None => MgpError::InvalidArgument,
    }
}

/// Hands out the type of points in space.
pub fn mgp_type_point_3d(result: Option<&mut Option<mgp_type>>) -> (e: MgpError)
    ensures
        e == given(result is None),
        result matches Some(r) ==> *final(r) == Some(mgp_type { tag: MgpTypeTag::Point3D, elem: None }),
{
    match result {
        Some(r) => {
            *r = Some(mgp_type { tag: MgpTypeTag::Point3D, elem: None });
            MgpError::NoError
        },
        None => MgpError::InvalidArgument,
    }
}

/// Makes the type of lists whose elements have a type.
pub fn mgp_type_list(elem: Option<&mgp_type>, result: Option<&mut Option<mgp_type>>) -> (e: MgpError)
    ensures
        e == given(elem is None || result is None),
        result matches Some(r) ==> *final(r) == match elem {
            Some(t) => Some(mgp_type { tag: MgpTypeTag::List, elem: Some(Box::new(*t)) }),
            None => *r,
        },
{
    match (elem, result) {
        (Some(t), Some(r)) => {
            *r = Some(mgp_type { tag: MgpTypeTag::List, elem: Some(Box::new(t.clone())) });
            MgpError::NoError
        },
        _ => MgpError::InvalidArgument,
    }
}

/// Makes the type of what is null or of another type.
pub fn mgp_type_nullable(ty: Option<&mgp_type>, result: Option<&mut Option<mgp_type>>) -> (e: MgpError)
    ensures
        e == given(ty is None || result is None),
        result matches Some(r) ==> *final(r) == match ty {
            Some(t) => Some(mgp_type { tag: MgpTypeTag::Nullable, elem: Some(Box::new(*t)) }),
            None => *r,
        },
{
    match (ty, result) {
        (Some(t), Some(r)) => {
            *r = Some(mgp_type { tag: MgpTypeTag::Nullable, elem: Some(Box::new(t.clone())) });
            MgpError::NoError
        },
        _ => MgpError::InvalidArgument,
    }
}

/// A record that a procedure hands back.
#[derive(Debug)]
pub struct mgp_result_record {
    pub fields: mgp_map,
}

impl View for mgp_result_record {
    type V = Entries;

    open spec fn view(&self) -> Entries {
        self.fields@
    }
}

impl Clone for mgp_result_record {
    fn clone(&self) -> (r: Self)
        ensures
            r@ == self@,
    {
        mgp_result_record { fields: self.fields.clone() }
    }
}

/// What a procedure hands back: records, or an error.
#[derive(Debug)]
pub struct mgp_result {
    pub error: Option<String>,
    pub records: Vec<mgp_result_record>,
    pub reserved: usize,
}

/// What a procedure hands back.
pub struct Outcome {
    pub error: Option<Seq<char>>,
    pub records: Seq<Entries>,
    pub reserved: usize,
}

/// The models of records.
pub open spec fn record_views(records: Seq<mgp_result_record>) -> Seq<Entries> {
    Seq::new(records.len(), |i: int| records[i]@)
}

impl View for mgp_result {
    type V = Outcome;

    open spec fn view(&self) -> Outcome {
        Outcome { error: opt_view(self.error), records: record_views(self.records@), reserved: self.reserved }
    }
}

/// Sets the error that a procedure ends with.
pub fn mgp_result_set_error_msg(result: Option<&mut mgp_result>, msg: Option<&str>) -> (e: MgpError)
    ensures
        e == given(result is None || msg is None),
        result matches Some(res) ==> final(res)@ == match msg {
            Some(s) => Outcome { error: Some(s@), ..res@ },
            None => res@,
        },
{
    match (result, msg) {
        (Some(res), Some(s)) => {
            res.error = Some(s.to_string());
            MgpError::NoError
        },
        _ => MgpError::InvalidArgument,
    }
}

/// Tells how many records are to come.
pub fn mgp_result_reserve(result: Option<&mut mgp_result>, n: usize) -> (e: MgpError)
    ensures
        e == given(result is None),
        result matches Some(res) ==> final(res)@ == (Outcome { reserved: n, ..res@ }),
{
    match result {
        Some(res) => {
            res.reserved = n;
            MgpError::NoError
        },
        None => MgpError::InvalidArgument,
    }
}

/// Adds a record without fields, and tells its position.
pub fn mgp_result_new_record(result: Option<&mut mgp_result>, out: Option<&mut Option<usize>>) -> (e: MgpError)
    ensures
        e == given(result is None || out is None),
        result matches Some(res) ==> final(res)@ == if out is Some {
            Outcome { records: res@.records.push(Seq::empty()), ..res@ }
        } else {
            res@
        },
        out matches Some(o) ==> *final(o) == match result {
            Some(res) => Some(res@.records.len() as usize),
            None => *o,
        },
{
    match (result, out) {
        (Some(res), Some(o)) => {
            let ghost before = res@;
            let items = Vec::new();
            let record = mgp_result_record { fields: mgp_map { items } };
            assert(record@ =~= Seq::empty());
            *o = Some(res.records.len());
            res.records.push(record);
            assert(res@.records =~= before.records.push(Seq::empty()));
            MgpError::NoError
        },
        _ => MgpError::InvalidArgument,
    }
}

/// Puts a copy of a value into a field of a record, in the place of the one before.
pub fn mgp_result_record_insert(record: Option<&mut mgp_result_record>, name: Option<&str>, val: Option<&mgp_value>) -> (e: MgpError)
    requires
        record matches Some(rec) ==> keys_differ(rec@),
    ensures
        e == given(record is None || name is None || val is None),
        record matches Some(rec) ==> final(rec)@ == match (name, val) {
            (Some(k), Some(v)) => updated(rec@, k@, v@),
            _ => rec@,
        },
{
    match record {
        Some(rec) => mgp_map_update(Some(&mut rec.fields), name, val),
        None => MgpError::InvalidArgument,
    }
}

/// What a function hands back: a value, or an error.
#[derive(Debug)]
pub struct mgp_func_result {
    pub error: Option<String>,
    pub value: Option<mgp_value>,
}

/// What a function hands back.
pub struct Answer {
    pub error: Option<Seq<char>>,
    pub value: Option<Val>,
}

impl View for mgp_func_result {
    type V = Answer;

    open spec fn view(&self) -> Answer {
        Answer { error: opt_view(self.error), value: opt_view(self.value) }
    }
}

/// Sets the error that a function ends with.
pub fn mgp_func_result_set_error_msg(result: Option<&mut mgp_func_result>, msg: Option<&str>, _memory: Option<&mgp_memory>) -> (e: MgpError)
    ensures
        e == given(result is None || msg is None),
        result matches Some(res) ==> final(res)@ == match msg {
            Some(s) => Answer { error: Some(s@), ..res@ },
            None => res@,
        },
{
    match (result, msg) {
        (Some(res), Some(s)) => {
            res.error = Some(s.to_string());
            MgpError::NoError
        },
        _ => MgpError::InvalidArgument,
    }
}

/// Sets the value that a function ends with, to a copy.
pub fn mgp_func_result_set_value(result: Option<&mut mgp_func_result>, val: Option<&mgp_value>, _memory: Option<&mgp_memory>) -> (e: MgpError)
    ensures
        e == given(result is None || val is None),
        result matches Some(res) ==> final(res)@ == match val {
            Some(v) => Answer { value: Some(v@), ..res@ },
            None => res@,
        },
{
    match (result, val) {
        (Some(res), Some(v)) => {
            res.value = Some(v.clone());
            MgpError::NoError
        },
        _ => MgpError::InvalidArgument,
    }
}

/// An argument of a procedure or a function. One that may be left out has a default, which may be
/// missing itself.
#[derive(Debug)]
pub struct ArgDesc {
    pub name: String,
    pub ty: mgp_type,
    pub default_value: Option<Option<mgp_value>>,
}

/// An argument of a procedure or a function.
pub struct Argument {
    pub name: Seq<char>,
    pub ty: mgp_type,
    pub default: Option<Option<Val>>,
}

impl View for ArgDesc {
    type V = Argument;

    open spec fn view(&self) -> Argument {
        Argument {
            name: self.name@,
            ty: self.ty,
            default: match self.default_value {
                Some(v) => Some(opt_view(v)),
                None => None,
            },
        }
    }
}

/// A field of the records of a procedure.
#[derive(Debug)]
pub struct ResultField {
    pub name: String,
    pub ty: mgp_type,
    pub deprecated: bool,
}

/// A field of the records of a procedure.
pub struct Field {
    pub name: Seq<char>,
    pub ty: mgp_type,
    pub deprecated: bool,
}

impl View for ResultField {
    type V = Field;

    open spec fn view(&self) -> Field {
        Field { name: self.name@, ty: self.ty, deprecated: self.deprecated }
    }
}

/// A procedure, with its callback by address.
#[derive(Debug)]
pub struct mgp_proc {
    pub name: String,
    pub callback: usize,
    pub args: Vec<ArgDesc>,
    pub opt_args: Vec<ArgDesc>,
    pub results: Vec<ResultField>,
    pub is_write: bool,
}

/// A procedure.
pub struct Procedure {
    pub name: Seq<char>,
    pub callback: usize,
    pub args: Seq<Argument>,
    pub opt_args: Seq<Argument>,
    pub results: Seq<Field>,
    pub is_write: bool,
}

/// The models of arguments.
pub open spec fn argument_views(args: Seq<ArgDesc>) -> Seq<Argument> {
    Seq::new(args.len(), |i: int| args[i]@)
}

/// The models of fields.
pub open spec fn field_views(fields: Seq<ResultField>) -> Seq<Field> {
    Seq::new(fields.len(), |i: int| fields[i]@)
}

impl View for mgp_proc {
    type V = Procedure;

    open spec fn view(&self) -> Procedure {
        Procedure {
            name: self.name@,
            callback: self.callback,
            args: argument_views(self.args@),
            opt_args: argument_views(self.opt_args@),
            results: field_views(self.results@),
            is_write: self.is_write,
        }
    }
}

/// A function, with its callback by address.
#[derive(Debug)]
pub struct mgp_func {
    pub name: String,
    pub callback: usize,
    pub args: Vec<ArgDesc>,
    pub opt_args: Vec<ArgDesc>,
}

/// A function.
pub struct Function {
    pub name: Seq<char>,
    pub callback: usize,
    pub args: Seq<Argument>,
    pub opt_args: Seq<Argument>,
}

impl View for mgp_func {
    type V = Function;

    open spec fn view(&self) -> Function {
        Function {
            name: self.name@,
            callback: self.callback,
            args: argument_views(self.args@),
            opt_args: argument_views(self.opt_args@),
        }
    }
}

/// The procedures and functions of a module.
#[derive(Debug)]
pub struct mgp_module {
    pub procs: Vec<mgp_proc>,
    pub funcs: Vec<mgp_func>,
}

/// The procedures and functions of a module.
pub struct Module {
    pub procs: Seq<Procedure>,
    pub funcs: Seq<Function>,
}

/// The models of procedures.
pub open spec fn procedure_views(procs: Seq<mgp_proc>) -> Seq<Procedure> {
    Seq::new(procs.len(), |i: int| procs[i]@)
}

/// The models of functions.
pub open spec fn function_views(funcs: Seq<mgp_func>) -> Seq<Function> {
    Seq::new(funcs.len(), |i: int| funcs[i]@)
}

impl View for mgp_module {
    type V = Module;

    open spec fn view(&self) -> Module {
        Module { procs: procedure_views(self.procs@), funcs: function_views(self.funcs@) }
    }
}

impl mgp_module {
    /// A module that holds nothing yet.
    pub fn new() -> (r: Self)
        ensures
            r@ == (Module { procs: Seq::empty(), funcs: Seq::empty() }),
    {
        let r = mgp_module { procs: Vec::new(), funcs: Vec::new() };
        assert(r@.procs =~= Seq::empty());
        assert(r@.funcs =~= Seq::empty());
        r
    }
}

/// A procedure that declares nothing yet.
pub open spec fn new_procedure(name: Seq<char>, callback: usize, is_write: bool) -> Procedure {
    Procedure { name, callback, args: Seq::empty(), opt_args: Seq::empty(), results: Seq::empty(), is_write }
}

/// A module with one more procedure.
pub open spec fn with_procedure(m: Module, p: Procedure) -> Module {
    Module { procs: m.procs.push(p), ..m }
}

fn add_procedure(module: Option<&mut mgp_module>, name: Option<&str>, cb: usize, is_write: bool, result: Option<&mut Option<usize>>) -> (e: MgpError)
    ensures
        e == given(module is None || name is None || result is None),
        module matches Some(m) ==> final(m)@ == if e is NoError {
            with_procedure(m@, new_procedure(name->0@, cb, is_write))
        } else {
            m@
        },
        result matches Some(r) ==> *final(r) == if e is NoError {
            Some(module->0@.procs.len() as usize)
        } else {
            *r
        },
{
    match (module, name, result) {
        (Some(m), Some(n), Some(r)) => {
            let ghost before = m@;
            let proc = mgp_proc {
                name: n.to_string(),
                callback: cb,
                args: Vec::new(),
                opt_args: Vec::new(),
                results: Vec::new(),
                is_write,
            };
            assert(proc@.args =~= Seq::empty());
            assert(proc@.opt_args =~= Seq::empty());
            assert(proc@.results =~= Seq::empty());
            *r = Some(m.procs.len());
            m.procs.push(proc);
            assert(m@.procs =~= before.procs.push(new_procedure(n@, cb, is_write)));
            MgpError::NoError
        },
        _ => MgpError::InvalidArgument,
    }
}

/// Adds a procedure that reads, and tells its position.
pub fn mgp_module_add_read_procedure(
    module: Option<&mut mgp_module>,
    name: Option<&str>,
    cb: usize,
    result: Option<&mut Option<usize>>,
) -> (e: MgpError)
    ensures
        e == given(module is None || name is None || result is None),
        module matches Some(m) ==> final(m)@ == if e is NoError {
            with_procedure(m@, new_procedure(name->0@, cb, false))
        } else {
            m@
        },
        result matches Some(r) ==> *final(r) == if e is NoError {
            Some(module->0@.procs.len() as usize)
        } else {
            *r
        },
{
    add_procedure(module, name, cb, false, result)
}

/// Adds a procedure that writes, and tells its position.
pub fn mgp_module_add_write_procedure(
    module: Option<&mut mgp_module>,
    name: Option<&str>,
    cb: usize,
    result: Option<&mut Option<usize>>,
) -> (e: MgpError)
    ensures
        e == given(module is None || name is None || result is None),
        module matches Some(m) ==> final(m)@ == if e is NoError {
            with_procedure(m@, new_procedure(name->0@, cb, true))
        } else {
            m@
        },
        result matches Some(r) ==> *final(r) == if e is NoError {
            Some(module->0@.procs.len() as usize)
        } else {
            *r
        },
{
    add_procedure(module, name, cb, true, result)
}

/// Adds a transformation, which is a procedure that reads, and tells its position.
pub fn mgp_module_add_transformation(
    module: Option<&mut mgp_module>,
    name: Option<&str>,
    cb: usize,
    result: Option<&mut Option<usize>>,
) -> (e: MgpError)
    ensures
        e == given(module is None || name is None || result is None),
        module matches Some(m) ==> final(m)@ == if e is NoError {
            with_procedure(m@, new_procedure(name->0@, cb, false))
        } else {
            m@
        },
        result matches Some(r) ==> *final(r) == if e is NoError {
            Some(module->0@.procs.len() as usize)
        } else {
            *r
        },
{
    add_procedure(module, name, cb, false, result)
}

/// Adds a procedure that reads in batches, as one that reads, and tells its position.
pub fn mgp_module_add_batch_read_procedure(
    module: Option<&mut mgp_module>,
    name: Option<&str>,
    cb: usize,
    _initializer: usize,
    _cleanup: usize,
    result: Option<&mut Option<usize>>,
) -> (e: MgpError)
    ensures
        e == given(module is None || name is None || result is None),
        module matches Some(m) ==> final(m)@ == if e is NoError {
            with_procedure(m@, new_procedure(name->0@, cb, false))
        } else {
            m@
        },
        result matches Some(r) ==> *final(r) == if e is NoError {
            Some(module->0@.procs.len() as usize)
        } else {
            *r
        },
{
    add_procedure(module, name, cb, false, result)
}

/// Adds a procedure that writes in batches, as one that writes, and tells its position.
pub fn mgp_module_add_batch_write_procedure(
    module: Option<&mut mgp_module>,
    name: Option<&str>,
    cb: usize,
    _initializer: usize,
    _cleanup: usize,
    result: Option<&mut Option<usize>>,
) -> (e: MgpError)
    ensures
        e == given(module is None || name is None || result is None),
        module matches Some(m) ==> final(m)@ == if e is NoError {
            with_procedure(m@, new_procedure(name->0@, cb, true))
        } else {
            m@
        },
        result matches Some(r) ==> *final(r) == if e is NoError {
            Some(module->0@.procs.len() as usize)
        } else {
            *r
        },
{
    add_procedure(module, name, cb, true, result)
}

/// Adds a function, and tells its position.
pub fn mgp_module_add_function(
    module: Option<&mut mgp_module>,
    name: Option<&str>,
    cb: usize,
    result: Option<&mut Option<usize>>,
) -> (e: MgpError)
    ensures
        e == given(module is None || name is None || result is None),
        module matches Some(m) ==> final(m)@ == if e is NoError {
            Module {
                funcs: m@.funcs.push(
                    Function { name: name->0@, callback: cb, args: Seq::empty(), opt_args: Seq::empty() },
                ),
                ..m@
            }
        } else {
            m@
        },
        result matches Some(r) ==> *final(r) == if e is NoError {
            Some(module->0@.funcs.len() as usize)
        } else {
            *r
        },
{
    match (module, name, result) {
        (Some(m), Some(n), Some(r)) => {
            let ghost before = m@;
            let func = mgp_func { name: n.to_string(), callback: cb, args: Vec::new(), opt_args: Vec::new() };
            assert(func@.args =~= Seq::empty());
            assert(func@.opt_args =~= Seq::empty());
            *r = Some(m.funcs.len());
            m.funcs.push(func);
            assert(m@.funcs =~= before.funcs.push(func@));
            MgpError::NoError
        },
        _ => MgpError::InvalidArgument,
    }
}

/// Adds an argument to a procedure.
pub fn mgp_proc_add_arg(proc_: Option<&mut mgp_proc>, name: Option<&str>, ty: Option<&mgp_type>) -> (e: MgpError)
    ensures
        e == given(proc_ is None || name is None || ty is None),
        proc_ matches Some(p) ==> final(p)@ == match (name, ty) {
            (Some(n), Some(t)) => Procedure { args: p@.args.push(Argument { name: n@, ty: *t, default: None }), ..p@ },
            _ => p@,
        },
{
    match (proc_, name, ty) {
        (Some(p), Some(n), Some(t)) => {
            let ghost before = p@;
            let desc = ArgDesc { name: n.to_string(), ty: t.clone(), default_value: None };
            p.args.push(desc);
            assert(p@.args =~= before.args.push(desc@));
            MgpError::NoError
        },
        _ => MgpError::InvalidArgument,
    }
}

/// Adds an argument that may be left out to a procedure, with a copy of its default.
pub fn mgp_proc_add_opt_arg(
    proc_: Option<&mut mgp_proc>,
    name: Option<&str>,
    ty: Option<&mgp_type>,
    def: Option<&mgp_value>,
) -> (e: MgpError)
    ensures
        e == given(proc_ is None || name is None || ty is None),
        proc_ matches Some(p) ==> final(p)@ == match (name, ty) {
            (Some(n), Some(t)) => Procedure {
                opt_args: p@.opt_args.push(
                    Argument {
                        name: n@,
                        ty: *t,
                        default: Some(
                            match def {
                                Some(v) => Some(v@),
                                None => None,
                            },
                        ),
                    },
                ),
                ..p@
            },
            _ => p@,
        },
{
    match (proc_, name, ty) {
        (Some(p), Some(n), Some(t)) => {
            let ghost before = p@;
            let default = match def {
                Some(v) => Some(v.clone()),
                None => None,
            };
            let desc = ArgDesc { name: n.to_string(), ty: t.clone(), default_value: Some(default) };
            p.opt_args.push(desc);
            assert(p@.opt_args =~= before.opt_args.push(desc@));
            MgpError::NoError
        },
        _ => MgpError::InvalidArgument,
    }
}

/// Adds an argument to a function.
pub fn mgp_func_add_arg(func: Option<&mut mgp_func>, name: Option<&str>, ty: Option<&mgp_type>) -> (e: MgpError)
    ensures
        e == given(func is None || name is None || ty is None),
        func matches Some(p) ==> final(p)@ == match (name, ty) {
            (Some(n), Some(t)) => Function { args: p@.args.push(Argument { name: n@, ty: *t, default: None }), ..p@ },
            _ => p@,
        },
{
    match (func, name, ty) {
        (Some(p), Some(n), Some(t)) => {
            let ghost before = p@;
            let desc = ArgDesc { name: n.to_string(), ty: t.clone(), default_value: None };
            p.args.push(desc);
            assert(p@.args =~= before.args.push(desc@));
            MgpError::NoError
        },
        _ => MgpError::InvalidArgument,
    }
}

/// Adds an argument that may be left out to a function, with a copy of its default.
pub fn mgp_func_add_opt_arg(
    func: Option<&mut mgp_func>,
    name: Option<&str>,
    ty: Option<&mgp_type>,
    def: Option<&mgp_value>,
) -> (e: MgpError)
    ensures
        e == given(func is None || name is None || ty is None),
        func matches Some(p) ==> final(p)@ == match (name, ty) {
            (Some(n), Some(t)) => Function {
                opt_args: p@.opt_args.push(
                    Argument {
                        name: n@,
                        ty: *t,
                        default: Some(
                            match def {
                                Some(v) => Some(v@),
                                None => None,
                            },
                        ),
                    },
                ),
                ..p@
            },
            _ => p@,
        },
{
    match (func, name, ty) {
        (Some(p), Some(n), Some(t)) => {
            let ghost before = p@;
            let default = match def {
                Some(v) => Some(v.clone()),
                None => None,
            };
            let desc = ArgDesc { name: n.to_string(), ty: t.clone(), default_value: Some(default) };
            p.opt_args.push(desc);
            assert(p@.opt_args =~= before.opt_args.push(desc@));
            MgpError::NoError
        },
        _ => MgpError::InvalidArgument,
    }
}

/// Adds a field to the records of a procedure.
pub fn mgp_proc_add_result(proc_: Option<&mut mgp_proc>, name: Option<&str>, ty: Option<&mgp_type>) -> (e: MgpError)
    ensures
        e == given(proc_ is None || name is None || ty is None),
        proc_ matches Some(p) ==> final(p)@ == match (name, ty) {
            (Some(n), Some(t)) => Procedure {
                results: p@.results.push(Field { name: n@, ty: *t, deprecated: false }),
                ..p@
            },
            _ => p@,
        },
{
    match (proc_, name, ty) {
        (Some(p), Some(n), Some(t)) => {
            let ghost before = p@;
            let field = ResultField { name: n.to_string(), ty: t.clone(), deprecated: false };
            p.results.push(field);
            assert(p@.results =~= before.results.push(field@));
            MgpError::NoError
        },
        _ => MgpError::InvalidArgument,
    }
}

/// Adds a field that is going away to the records of a procedure.
pub fn mgp_proc_add_deprecated_result(proc_: Option<&mut mgp_proc>, name: Option<&str>, ty: Option<&mgp_type>) -> (e: MgpError)
    ensures
        e == given(proc_ is None || name is None || ty is None),
        proc_ matches Some(p) ==> final(p)@ == match (name, ty) {
            (Some(n), Some(t)) => Procedure {
                results: p@.results.push(Field { name: n@, ty: *t, deprecated: true }),
                ..p@
            },
            _ => p@,
        },
{
    match (proc_, name, ty) {
        (Some(p), Some(n), Some(t)) => {
            let ghost before = p@;
            let field = ResultField { name: n.to_string(), ty: t.clone(), deprecated: true };
            p.results.push(field);
            assert(p@.results =~= before.results.push(field@));
            MgpError::NoError
        },
        _ => MgpError::InvalidArgument,
    }
}

/// What a module does when it is loaded, unless it brings its own way: nothing.
pub fn mgp_init_module(_module: Option<&mut mgp_module>, _memory: Option<&mgp_memory>) -> (e: MgpError)
    ensures
        e is NoError,
        _module matches Some(m) ==> final(m)@ == m@,
{
    MgpError::NoError
}

/// Starts to count what a thread allocates: there is nothing to do, every allocation is counted.
pub fn mgp_track_current_thread_allocations(_memory: Option<&mgp_memory>) -> (e: MgpError)
    ensures
        e is NoError,
{
    MgpError::NoError
}

/// Stops to count what a thread allocates: there is nothing to do.
pub fn mgp_untrack_current_thread_allocations(_memory: Option<&mgp_memory>) -> (e: MgpError)
    ensures
        e is NoError,
{
    MgpError::NoError
}

} // verus!
