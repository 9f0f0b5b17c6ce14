//! Values, and what they are made of.
use vstd::prelude::*;

use crate::procedure::codes::{MgpError, MgpValueType};
use crate::procedure::memory::mgp_memory;

verus! {

/// A vertex of a graph: its number, and the graph that it belongs to. The graph is known by an
/// address; zero stands for none.
#[derive(Clone, Copy, Debug, PartialEq, Eq, Structural)]
pub struct mgp_vertex {
    pub gid: u64,
    pub graph: u64,
}

/// An edge of a graph: its number, and the graph that it belongs to.
#[derive(Clone, Copy, Debug, PartialEq, Eq, Structural)]
pub struct mgp_edge {
    pub gid: u64,
    pub graph: u64,
}

/// A path: the vertices and the edges that it passes.
#[derive(Debug)]
pub struct mgp_path {
    pub vertices: Vec<mgp_vertex>,
    pub edges: Vec<mgp_edge>,
}

#[derive(Clone, Copy, Debug, PartialEq, Eq, Structural)]
pub struct mgp_duration {
    pub months: i64,
    pub days: i64,
    pub micros: i64,
}

/// A moment in a time zone: microseconds since the epoch, the offset and the name of the zone.
#[derive(Debug)]
pub struct mgp_zoned_date_time {
    pub micros: i64,
    pub offset: i16,
    pub tz: String,
}

/// A point in the plane. Coordinates are the bit patterns of doubles.
#[derive(Clone, Copy, Debug, PartialEq, Eq, Structural)]
pub struct mgp_point_2d {
    pub crs: u16,
    pub x: u64,
    pub y: u64,
}

/// A point in space. Coordinates are the bit patterns of doubles.
#[derive(Clone, Copy, Debug, PartialEq, Eq, Structural)]
pub struct mgp_point_3d {
    pub crs: u16,
    pub x: u64,
    pub y: u64,
    pub z: u64,
}

/// A member of an enumeration, by the names of the two.
#[derive(Debug)]
pub struct mgp_enum {
    pub ty: String,
    pub val: String,
}

/// Days since the epoch.
#[derive(Clone, Copy, Debug, PartialEq, Eq, Structural)]
pub struct mgp_date {
    pub days: i64,
}

/// Microseconds since midnight.
#[derive(Clone, Copy, Debug, PartialEq, Eq, Structural)]
pub struct mgp_local_time {
    pub micros: i64,
}

/// Microseconds since the epoch.
#[derive(Clone, Copy, Debug, PartialEq, Eq, Structural)]
pub struct mgp_local_date_time {
    pub micros: i64,
}

#[derive(Debug)]
pub struct mgp_list {
    pub items: Vec<mgp_value>,
}

#[derive(Debug)]
pub struct MapEntry {
    pub key: String,
    pub value: mgp_value,
}

/// A map from text to values. No key occurs twice.
#[derive(Debug)]
pub struct mgp_map {
    pub items: Vec<MapEntry>,
}

/// What a value holds. Doubles are held by their bit patterns.
#[derive(Debug)]
pub enum ValueInner {
    Null,
    Bool(bool),
    Int(i64),
    Double(u64),
    String(String),
    List(mgp_list),
    Mapping(mgp_map),
    Vertex(mgp_vertex),
    Edge(mgp_edge),
    Path(mgp_path),
    Date(i64),
    LocalTime(i64),
    LocalDateTime(i64),
    Duration(mgp_duration),
    ZonedDateTime(mgp_zoned_date_time),
    Point2D(mgp_point_2d),
    Point3D(mgp_point_3d),
    Enum(mgp_enum),
}

#[derive(Debug)]
pub struct mgp_value {
    pub inner: ValueInner,
}

/// The mathematical model of a path.
#[verifier::ext_equal]
pub struct Trail {
    pub vertices: Seq<mgp_vertex>,
    pub edges: Seq<mgp_edge>,
}

/// The mathematical model of a moment in a time zone.
pub struct ZonedTime {
    pub micros: i64,
    pub offset: i16,
    pub tz: Seq<char>,
}

/// The mathematical model of a member of an enumeration.
pub struct Member {
    pub ty: Seq<char>,
    pub val: Seq<char>,
}

/// The mathematical model of a value.
pub enum Val {
    Null,
    Bool(bool),
    Int(i64),
    Double(u64),
    Text(Seq<char>),
    List(Seq<Val>),
    Mapping(Seq<(Seq<char>, Val)>),
    Vertex(mgp_vertex),
    Edge(mgp_edge),
    Path(Trail),
    Date(i64),
    LocalTime(i64),
    LocalDateTime(i64),
    Duration(mgp_duration),
    ZonedDateTime(ZonedTime),
    Point2D(mgp_point_2d),
    Point3D(mgp_point_3d),
    Enum(Member),
}

impl View for mgp_path {
    type V = Trail;

    open spec fn view(&self) -> Trail {
        Trail { vertices: self.vertices@, edges: self.edges@ }
    }
}

impl View for mgp_zoned_date_time {
    type V = ZonedTime;

    open spec fn view(&self) -> ZonedTime {
        ZonedTime { micros: self.micros, offset: self.offset, tz: self.tz@ }
    }
}

impl View for mgp_enum {
    type V = Member;

    open spec fn view(&self) -> Member {
        Member { ty: self.ty@, val: self.val@ }
    }
}

/// The model of a value.
pub open spec fn value_view(v: mgp_value) -> Val
    decreases v,
{
    match v.inner {
        ValueInner::Null => Val::Null,
        ValueInner::Bool(b) => Val::Bool(b),
        ValueInner::Int(n) => Val::Int(n),
        ValueInner::Double(d) => Val::Double(d),
        ValueInner::String(s) => Val::Text(s@),
        ValueInner::List(l) => Val::List(
            Seq::new(l.items@.len(), |i: int| if 0 <= i < l.items@.len() { value_view(l.items@[i]) } else { Val::Null }),
        ),
        ValueInner::Mapping(m) => Val::Mapping(
            Seq::new(
                m.items@.len(),
                |i: int|
                    if 0 <= i < m.items@.len() {
                        (m.items@[i].key@, value_view(m.items@[i].value))
                    } else {
                        (seq![], Val::Null)
                    },
            ),
        ),
        ValueInner::Vertex(x) => Val::Vertex(x),
        ValueInner::Edge(x) => Val::Edge(x),
        ValueInner::Path(p) => Val::Path(p@),
        ValueInner::Date(d) => Val::Date(d),
        ValueInner::LocalTime(t) => Val::LocalTime(t),
        ValueInner::LocalDateTime(t) => Val::LocalDateTime(t),
        ValueInner::Duration(d) => Val::Duration(d),
        ValueInner::ZonedDateTime(z) => Val::ZonedDateTime(z@),
        ValueInner::Point2D(p) => Val::Point2D(p),
        ValueInner::Point3D(p) => Val::Point3D(p),
        ValueInner::Enum(e) => Val::Enum(e@),
    }
}

impl View for mgp_value {
    type V = Val;

    open spec fn view(&self) -> Val {
        value_view(*self)
    }
}

impl View for mgp_list {
    type V = Seq<Val>;

    open spec fn view(&self) -> Seq<Val> {
        Seq::new(self.items@.len(), |i: int| self.items@[i]@)
    }
}

impl View for mgp_map {
    type V = Seq<(Seq<char>, Val)>;

    open spec fn view(&self) -> Seq<(Seq<char>, Val)> {
        Seq::new(self.items@.len(), |i: int| (self.items@[i].key@, self.items@[i].value@))
    }
}

/// The model of what may be absent.
pub open spec fn opt_view<T: View>(o: Option<T>) -> Option<T::V> {
    match o {
        Some(x) => Some(x@),
        None => None,
    }
}

/// A value that holds a list holds the model of the list.
pub proof fn lemma_list_value(v: mgp_value)
    ensures
        v.inner matches ValueInner::List(l) ==> v@ == Val::List(l@),
        v.inner matches ValueInner::Mapping(m) ==> v@ == Val::Mapping(m@),
{
    match v.inner {
        ValueInner::List(l) => {
            assert(v@->List_0 =~= l@);
        },
        ValueInner::Mapping(m) => {
            assert(v@->Mapping_0 =~= m@);
        },
        _ => {},
    }
}

impl Clone for mgp_path {
    fn clone(&self) -> (r: Self)
        ensures
            r@ == self@,
    {
        let r = mgp_path { vertices: self.vertices.clone(), edges: self.edges.clone() };
        assert(r.vertices@ =~= self.vertices@);
        assert(r.edges@ =~= self.edges@);
        r
    }
}

impl Clone for mgp_zoned_date_time {
    fn clone(&self) -> (r: Self)
        ensures
            r@ == self@,
    {
        mgp_zoned_date_time { micros: self.micros, offset: self.offset, tz: self.tz.clone() }
    }
}

impl Clone for mgp_enum {
    fn clone(&self) -> (r: Self)
        ensures
            r@ == self@,
    {
        mgp_enum { ty: self.ty.clone(), val: self.val.clone() }
    }
}

impl Clone for mgp_value {
    fn clone(&self) -> (r: Self)
        ensures
            r@ == self@,
        decreases self,
    {
        let inner = match &self.inner {
            ValueInner::Null => ValueInner::Null,
            ValueInner::Bool(b) => ValueInner::Bool(*b),
            ValueInner::Int(n) => ValueInner::Int(*n),
            ValueInner::Double(d) => ValueInner::Double(*d),
            ValueInner::String(s) => ValueInner::String(s.clone()),
            ValueInner::List(l) => {
                let mut out: Vec<mgp_value> = Vec::new();
                let mut i: usize = 0;
                while i < l.items.len()
                    invariant
                        i <= l.items@.len(),
                        out@.len() == i,
                        self.inner matches ValueInner::List(k) && k == l,
                        forall|j: int| 0 <= j < i ==> value_view(#[trigger] out@[j]) == value_view(l.items@[j]),
                    decreases l.items@.len() - i,
                {
                    out.push(l.items[i].clone());
                    i += 1;
                }
                let r = mgp_value { inner: ValueInner::List(mgp_list { items: out }) };
                assert(r@->List_0 =~= self@->List_0);
                return r;
            },
            ValueInner::Mapping(m) => {
                let mut out: Vec<MapEntry> = Vec::new();
                let mut i: usize = 0;
                while i < m.items.len()
                    invariant
                        i <= m.items@.len(),
                        out@.len() == i,
                        self.inner matches ValueInner::Mapping(k) && k == m,
                        forall|j: int|
                            0 <= j < i ==> (#[trigger] out@[j]).key@ == m.items@[j].key@ && value_view(out@[j].value) == value_view(
                                m.items@[j].value,
                            ),
                    decreases m.items@.len() - i,
                {
                    let key = m.items[i].key.clone();
                    let value = m.items[i].value.clone();
                    out.push(MapEntry { key, value });
                    i += 1;
                }
                let r = mgp_value { inner: ValueInner::Mapping(mgp_map { items: out }) };
                assert(r@->Mapping_0 =~= self@->Mapping_0);
                return r;
            },
            ValueInner::Vertex(x) => ValueInner::Vertex(*x),
            ValueInner::Edge(x) => ValueInner::Edge(*x),
            ValueInner::Path(p) => ValueInner::Path(p.clone()),
            ValueInner::Date(d) => ValueInner::Date(*d),
            ValueInner::LocalTime(t) => ValueInner::LocalTime(*t),
            ValueInner::LocalDateTime(t) => ValueInner::LocalDateTime(*t),
            ValueInner::Duration(d) => ValueInner::Duration(*d),
            ValueInner::ZonedDateTime(z) => ValueInner::ZonedDateTime(z.clone()),
            ValueInner::Point2D(p) => ValueInner::Point2D(*p),
            ValueInner::Point3D(p) => ValueInner::Point3D(*p),
            ValueInner::Enum(e) => ValueInner::Enum(e.clone()),
        };
        mgp_value { inner }
    }
}

impl Clone for mgp_list {
    fn clone(&self) -> (r: Self)
        ensures
            r@ == self@,
    {
        let mut items: Vec<mgp_value> = Vec::new();
        let mut i: usize = 0;
        while i < self.items.len()
            invariant
                i <= self.items@.len(),
                items@.len() == i,
                forall|j: int| 0 <= j < i ==> (#[trigger] items@[j])@ == self.items@[j]@,
            decreases self.items@.len() - i,
        {
            items.push(self.items[i].clone());
            i += 1;
        }
        let r = mgp_list { items };
        assert(r@ =~= self@);
        r
    }
}

impl Clone for mgp_map {
    fn clone(&self) -> (r: Self)
        ensures
            r@ == self@,
    {
        let mut items: Vec<MapEntry> = Vec::new();
        let mut i: usize = 0;
        while i < self.items.len()
            invariant
                i <= self.items@.len(),
                items@.len() == i,
                forall|j: int| 0 <= j < i ==> (#[trigger] items@[j]).key@ == self.items@[j].key@ && items@[j].value@ == self.items@[j].value@,
            decreases self.items@.len() - i,
        {
            items.push(MapEntry { key: self.items[i].key.clone(), value: self.items[i].value.clone() });
            i += 1;
        }
        let r = mgp_map { items };
        assert(r@ =~= self@);
        r
    }
}

/// The type of a value.
pub open spec fn type_of(v: Val) -> MgpValueType {
    match v {
        Val::Null => MgpValueType::Null,
        Val::Bool(_) => MgpValueType::Bool,
        Val::Int(_) => MgpValueType::Int,
        Val::Double(_) => MgpValueType::Double,
        Val::Text(_) => MgpValueType::String,
        Val::List(_) => MgpValueType::List,
        Val::Mapping(_) => MgpValueType::Mapping,
        Val::Vertex(_) => MgpValueType::Vertex,
        Val::Edge(_) => MgpValueType::Edge,
        Val::Path(_) => MgpValueType::Path,
        Val::Date(_) => MgpValueType::Date,
        Val::LocalTime(_) => MgpValueType::LocalTime,
        Val::LocalDateTime(_) => MgpValueType::LocalDateTime,
        Val::Duration(_) => MgpValueType::Duration,
        Val::ZonedDateTime(_) => MgpValueType::ZonedDateTime,
        Val::Point2D(_) => MgpValueType::Point2D,
        Val::Point3D(_) => MgpValueType::Point3D,
        Val::Enum(_) => MgpValueType::Enum,
    }
}

impl mgp_value {
    /// The type of the value.
    pub fn value_type(&self) -> (r: MgpValueType)
        ensures
            r == type_of(self@),
    {
        match &self.inner {
            ValueInner::Null => MgpValueType::Null,
            ValueInner::Bool(_) => MgpValueType::Bool,
            ValueInner::Int(_) => MgpValueType::Int,
            ValueInner::Double(_) => MgpValueType::Double,
            ValueInner::String(_) => MgpValueType::String,
            ValueInner::List(_) => MgpValueType::List,
            ValueInner::Mapping(_) => MgpValueType::Mapping,
            ValueInner::Vertex(_) => MgpValueType::Vertex,
            ValueInner::Edge(_) => MgpValueType::Edge,
            ValueInner::Path(_) => MgpValueType::Path,
            ValueInner::Date(_) => MgpValueType::Date,
            ValueInner::LocalTime(_) => MgpValueType::LocalTime,
            ValueInner::LocalDateTime(_) => MgpValueType::LocalDateTime,
            ValueInner::Duration(_) => MgpValueType::Duration,
            ValueInner::ZonedDateTime(_) => MgpValueType::ZonedDateTime,
            ValueInner::Point2D(_) => MgpValueType::Point2D,
            ValueInner::Point3D(_) => MgpValueType::Point3D,
            ValueInner::Enum(_) => MgpValueType::Enum,
        }
    }
}

/// Hands out a value.
fn out_value(result: Option<&mut Option<mgp_value>>, inner: ValueInner) -> (e: MgpError)
    ensures
        e == if result is None {
            MgpError::InvalidArgument
        } else {
            MgpError::NoError
        },
        result matches Some(r) ==> *final(r) == Some(mgp_value { inner }),
{
    match result {
        Some(r) => {
            *r = Some(mgp_value { inner });
            MgpError::NoError
        },
        None => MgpError::InvalidArgument,
    }
}

/// Makes the null value.
pub fn mgp_value_make_null(_memory: Option<&mgp_memory>, result: Option<&mut Option<mgp_value>>) -> (e: MgpError)
    ensures
        e == if result is None {
            MgpError::InvalidArgument
        } else {
            MgpError::NoError
        },
        result matches Some(r) ==> opt_view(*final(r)) == Some(Val::Null),
{
    out_value(result, ValueInner::Null)
}

/// Makes a truth value; any number but zero is true.
pub fn mgp_value_make_bool(val: i32, _memory: Option<&mgp_memory>, result: Option<&mut Option<mgp_value>>) -> (e: MgpError)
    ensures
        e == if result is None {
            MgpError::InvalidArgument
        } else {
            MgpError::NoError
        },
        result matches Some(r) ==> opt_view(*final(r)) == Some(Val::Bool(val != 0)),
{
    out_value(result, ValueInner::Bool(val != 0))
}

/// Makes an integer.
pub fn mgp_value_make_int(val: i64, _memory: Option<&mgp_memory>, result: Option<&mut Option<mgp_value>>) -> (e: MgpError)
    ensures
        e == if result is None {
            MgpError::InvalidArgument
        } else {
            MgpError::NoError
        },
        result matches Some(r) ==> opt_view(*final(r)) == Some(Val::Int(val)),
{
    out_value(result, ValueInner::Int(val))
}

/// Makes a double from its bit pattern.
pub fn mgp_value_make_double(val: u64, _memory: Option<&mgp_memory>, result: Option<&mut Option<mgp_value>>) -> (e: MgpError)
    ensures
        e == if result is None {
            MgpError::InvalidArgument
        } else {
            MgpError::NoError
        },
        result matches Some(r) ==> opt_view(*final(r)) == Some(Val::Double(val)),
{
    out_value(result, ValueInner::Double(val))
}

/// Makes a value of a list.
pub fn mgp_value_make_list(list: mgp_list, result: Option<&mut Option<mgp_value>>) -> (e: MgpError)
    ensures
        e == if result is None {
            MgpError::InvalidArgument
        } else {
            MgpError::NoError
        },
        result matches Some(r) ==> opt_view(*final(r)) == Some(Val::List(list@)),
{
    let inner = ValueInner::List(list);
    proof {
        lemma_list_value(mgp_value { inner });
    }
    out_value(result, inner)
}

/// Makes a value of a map.
pub fn mgp_value_make_map(map: mgp_map, result: Option<&mut Option<mgp_value>>) -> (e: MgpError)
    ensures
        e == if result is None {
            MgpError::InvalidArgument
        } else {
            MgpError::NoError
        },
        result matches Some(r) ==> opt_view(*final(r)) == Some(Val::Mapping(map@)),
{
    let inner = ValueInner::Mapping(map);
    proof {
        lemma_list_value(mgp_value { inner });
    }
    out_value(result, inner)
}

/// Makes a value of a vertex.
pub fn mgp_value_make_vertex(v: mgp_vertex, result: Option<&mut Option<mgp_value>>) -> (e: MgpError)
    ensures
        e == if result is None {
            MgpError::InvalidArgument
        } else {
            MgpError::NoError
        },
        result matches Some(r) ==> opt_view(*final(r)) == Some(Val::Vertex(v)),
{
    out_value(result, ValueInner::Vertex(v))
}

/// Makes a value of an edge.
pub fn mgp_value_make_edge(edge: mgp_edge, result: Option<&mut Option<mgp_value>>) -> (e: MgpError)
    ensures
        e == if result is None {
            MgpError::InvalidArgument
        } else {
            MgpError::NoError
        },
        result matches Some(r) ==> opt_view(*final(r)) == Some(Val::Edge(edge)),
{
    out_value(result, ValueInner::Edge(edge))
}

/// Makes a value of a path.
pub fn mgp_value_make_path(p: mgp_path, result: Option<&mut Option<mgp_value>>) -> (e: MgpError)
    ensures
        e == if result is None {
            MgpError::InvalidArgument
        } else {
            MgpError::NoError
        },
        result matches Some(r) ==> opt_view(*final(r)) == Some(Val::Path(p@)),
{
    out_value(result, ValueInner::Path(p))
}

/// Makes a date of days since the epoch.
pub fn mgp_value_make_date(days: i64, _memory: Option<&mgp_memory>, result: Option<&mut Option<mgp_value>>) -> (e: MgpError)
    ensures
        e == if result is None {
            MgpError::InvalidArgument
        } else {
            MgpError::NoError
        },
        result matches Some(r) ==> opt_view(*final(r)) == Some(Val::Date(days)),
{
    out_value(result, ValueInner::Date(days))
}

/// Makes a time of day of microseconds since midnight.
pub fn mgp_value_make_local_time(us: i64, _memory: Option<&mgp_memory>, result: Option<&mut Option<mgp_value>>) -> (e: MgpError)
    ensures
        e == if result is None {
            MgpError::InvalidArgument
        } else {
            MgpError::NoError
        },
        result matches Some(r) ==> opt_view(*final(r)) == Some(Val::LocalTime(us)),
{
    out_value(result, ValueInner::LocalTime(us))
}

/// Makes a moment of microseconds since the epoch.
pub fn mgp_value_make_local_date_time(us: i64, _memory: Option<&mgp_memory>, result: Option<&mut Option<mgp_value>>) -> (e: MgpError)
    ensures
        e == if result is None {
            MgpError::InvalidArgument
        } else {
            MgpError::NoError
        },
        result matches Some(r) ==> opt_view(*final(r)) == Some(Val::LocalDateTime(us)),
{
    out_value(result, ValueInner::LocalDateTime(us))
}

/// Makes a duration.
pub fn mgp_value_make_duration(months: i64, days: i64, micros: i64, _memory: Option<&mgp_memory>, result: Option<&mut Option<mgp_value>>) -> (e: MgpError)
    ensures
        e == if result is None {
            MgpError::InvalidArgument
        } else {
            MgpError::NoError
        },
        result matches Some(r) ==> opt_view(*final(r)) == Some(Val::Duration(mgp_duration { months, days, micros })),
{
    out_value(result, ValueInner::Duration(mgp_duration { months, days, micros }))
}

/// Makes a point in the plane.
pub fn mgp_value_make_point_2d(crs: u16, x: u64, y: u64, _memory: Option<&mgp_memory>, result: Option<&mut Option<mgp_value>>) -> (e: MgpError)
    ensures
        e == if result is None {
            MgpError::InvalidArgument
        } else {
            MgpError::NoError
        },
        result matches Some(r) ==> opt_view(*final(r)) == Some(Val::Point2D(mgp_point_2d { crs, x, y })),
{
    out_value(result, ValueInner::Point2D(mgp_point_2d { crs, x, y }))
}

/// Makes a point in space.
pub fn mgp_value_make_point_3d(crs: u16, x: u64, y: u64, z: u64, _memory: Option<&mgp_memory>, result: Option<&mut Option<mgp_value>>) -> (e: MgpError)
    ensures
        e == if result is None {
            MgpError::InvalidArgument
        } else {
            MgpError::NoError
        },
        result matches Some(r) ==> opt_view(*final(r)) == Some(Val::Point3D(mgp_point_3d { crs, x, y, z })),
{
    out_value(result, ValueInner::Point3D(mgp_point_3d { crs, x, y, z }))
}

/// Makes a text.
pub fn mgp_value_make_string(val: Option<&str>, _memory: Option<&mgp_memory>, result: Option<&mut Option<mgp_value>>) -> (e: MgpError)
    ensures
        e == if val is None || result is None {
            MgpError::InvalidArgument
        } else {
            MgpError::NoError
        },
        result matches Some(r) ==> opt_view(*final(r)) == match val {
            Some(s) => Some(Val::Text(s@)),
            None => opt_view(*r),
        },
{
    match val {
        Some(s) => out_value(result, ValueInner::String(s.to_string())),
        None => MgpError::InvalidArgument,
    }
}

/// Makes a moment in a time zone.
pub fn mgp_value_make_zoned_date_time(
    micros: i64,
    offset: i16,
    tz: Option<&str>,
    _memory: Option<&mgp_memory>,
    result: Option<&mut Option<mgp_value>>,
) -> (e: MgpError)
    ensures
        e == if tz is None || result is None {
            MgpError::InvalidArgument
        } else {
            MgpError::NoError
        },
        result matches Some(r) ==> opt_view(*final(r)) == match tz {
            Some(s) => Some(Val::ZonedDateTime(ZonedTime { micros, offset, tz: s@ })),
            None => opt_view(*r),
        },
{
    match tz {
        Some(s) => out_value(result, ValueInner::ZonedDateTime(mgp_zoned_date_time { micros, offset, tz: s.to_string() })),
        None => MgpError::InvalidArgument,
    }
}

/// Makes a member of an enumeration.
pub fn mgp_value_make_enum(
    enum_type: Option<&str>,
    value: Option<&str>,
    _memory: Option<&mgp_memory>,
    result: Option<&mut Option<mgp_value>>,
) -> (e: MgpError)
    ensures
        e == if enum_type is None || value is None || result is None {
            MgpError::InvalidArgument
        } else {
            MgpError::NoError
        },
        result matches Some(r) ==> opt_view(*final(r)) == match (enum_type, value) {
            (Some(t), Some(v)) => Some(Val::Enum(Member { ty: t@, val: v@ })),
            _ => opt_view(*r),
        },
{
    match (enum_type, value) {
        (Some(t), Some(v)) => out_value(result, ValueInner::Enum(mgp_enum { ty: t.to_string(), val: v.to_string() })),
        _ => MgpError::InvalidArgument,
    }
}

/// Copies a value.
pub fn mgp_value_copy(val: Option<&mgp_value>, _memory: Option<&mgp_memory>, result: Option<&mut Option<mgp_value>>) -> (e: MgpError)
    ensures
        e == if val is None || result is None {
            MgpError::InvalidArgument
        } else {
            MgpError::NoError
        },
        result matches Some(r) ==> opt_view(*final(r)) == match val {
            Some(v) => Some(v@),
            None => opt_view(*r),
        },
{
    match val {
        Some(v) => {
            let copy = v.clone();
            out_value(result, copy.inner)
        },
        None => MgpError::InvalidArgument,
    }
}

/// Tells the type of a value.
pub fn mgp_value_get_type(val: Option<&mgp_value>, result: Option<&mut MgpValueType>) -> (e: MgpError)
    ensures
        e == if val is None || result is None {
            MgpError::InvalidArgument
        } else {
            MgpError::NoError
        },
        result matches Some(r) ==> *final(r) == match val {
            Some(v) => type_of(v@),
            None => *r,
        },
{
    match (val, result) {
        (Some(v), Some(r)) => {
            *r = v.value_type();
            MgpError::NoError
        },
        _ => MgpError::InvalidArgument,
    }
}

/// One for true, zero for false.
pub open spec fn flag(b: bool) -> i32 {
    if b {
        1
    } else {
        0
    }
}

/// One for true, zero for false.
pub fn to_flag(b: bool) -> (r: i32)
    ensures
        r == flag(b),
{
    if b {
        1
    } else {
        0
    }
}

/// Tells whether a value is null.
pub fn mgp_value_is_null(val: Option<&mgp_value>, result: Option<&mut i32>) -> (e: MgpError)
    ensures
        e == if val is None || result is None {
            MgpError::InvalidArgument
        } else {
            MgpError::NoError
        },
        result matches Some(r) ==> *final(r) == match val {
            Some(v) => flag(v@ is Null),
            None => *r,
        },
{
    match (val, result) {
        (Some(v), Some(r)) => {
            *r = to_flag(matches!(v.inner, ValueInner::Null));
            MgpError::NoError
        },
        _ => MgpError::InvalidArgument,
    }
}

/// Tells whether a value is a truth value.
pub fn mgp_value_is_bool(val: Option<&mgp_value>, result: Option<&mut i32>) -> (e: MgpError)
    ensures
        e == if val is None || result is None {
            MgpError::InvalidArgument
        } else {
            MgpError::NoError
        },
        result matches Some(r) ==> *final(r) == match val {
            Some(v) => flag(v@ is Bool),
            None => *r,
        },
{
    match (val, result) {
        (Some(v), Some(r)) => {
            *r = to_flag(matches!(v.inner, ValueInner::Bool(_)));
            MgpError::NoError
        },
        _ => MgpError::InvalidArgument,
    }
}

/// Tells whether a value is an integer.
pub fn mgp_value_is_int(val: Option<&mgp_value>, result: Option<&mut i32>) -> (e: MgpError)
    ensures
        e == if val is None || result is None {
            MgpError::InvalidArgument
        } else {
            MgpError::NoError
        },
        result matches Some(r) ==> *final(r) == match val {
            Some(v) => flag(v@ is Int),
            None => *r,
        },
{
    match (val, result) {
        (Some(v), Some(r)) => {
            *r = to_flag(matches!(v.inner, ValueInner::Int(_)));
            MgpError::NoError
        },
        _ => MgpError::InvalidArgument,
    }
}

/// Tells whether a value is a double.
pub fn mgp_value_is_double(val: Option<&mgp_value>, result: Option<&mut i32>) -> (e: MgpError)
    ensures
        e == if val is None || result is None {
            MgpError::InvalidArgument
        } else {
            MgpError::NoError
        },
        result matches Some(r) ==> *final(r) == match val {
            Some(v) => flag(v@ is Double),
            None => *r,
        },
{
    match (val, result) {
        (Some(v), Some(r)) => {
            *r = to_flag(matches!(v.inner, ValueInner::Double(_)));
            MgpError::NoError
        },
        _ => MgpError::InvalidArgument,
    }
}

/// Tells whether a value is a text.
pub fn mgp_value_is_string(val: Option<&mgp_value>, result: Option<&mut i32>) -> (e: MgpError)
    ensures
        e == if val is None || result is None {
            MgpError::InvalidArgument
        } else {
            MgpError::NoError
        },
        result matches Some(r) ==> *final(r) == match val {
            Some(v) => flag(v@ is Text),
            None => *r,
        },
{
    match (val, result) {
        (Some(v), Some(r)) => {
            *r = to_flag(matches!(v.inner, ValueInner::String(_)));
            MgpError::NoError
        },
        _ => MgpError::InvalidArgument,
    }
}

/// Tells whether a value is a list.
pub fn mgp_value_is_list(val: Option<&mgp_value>, result: Option<&mut i32>) -> (e: MgpError)
    ensures
        e == if val is None || result is None {
            MgpError::InvalidArgument
        } else {
            MgpError::NoError
        },
        result matches Some(r) ==> *final(r) == match val {
            Some(v) => flag(v@ is List),
            None => *r,
        },
{
    match (val, result) {
        (Some(v), Some(r)) => {
            *r = to_flag(matches!(v.inner, ValueInner::List(_)));
            MgpError::NoError
        },
        _ => MgpError::InvalidArgument,
    }
}

/// Tells whether a value is a map.
pub fn mgp_value_is_map(val: Option<&mgp_value>, result: Option<&mut i32>) -> (e: MgpError)
    ensures
        e == if val is None || result is None {
            MgpError::InvalidArgument
        } else {
            MgpError::NoError
        },
        result matches Some(r) ==> *final(r) == match val {
            Some(v) => flag(v@ is Mapping),
            None => *r,
        },
{
    match (val, result) {
        (Some(v), Some(r)) => {
            *r = to_flag(matches!(v.inner, ValueInner::Mapping(_)));
            MgpError::NoError
        },
        _ => MgpError::InvalidArgument,
    }
}

/// Tells whether a value is a vertex.
pub fn mgp_value_is_vertex(val: Option<&mgp_value>, result: Option<&mut i32>) -> (e: MgpError)
    ensures
        e == if val is None || result is None {
            MgpError::InvalidArgument
        } else {
            MgpError::NoError
        },
        result matches Some(r) ==> *final(r) == match val {
            Some(v) => flag(v@ is Vertex),
            None => *r,
        },
{
    match (val, result) {
        (Some(v), Some(r)) => {
            *r = to_flag(matches!(v.inner, ValueInner::Vertex(_)));
            MgpError::NoError
        },
        _ => MgpError::InvalidArgument,
    }
}

/// Tells whether a value is an edge.
pub fn mgp_value_is_edge(val: Option<&mgp_value>, result: Option<&mut i32>) -> (e: MgpError)
    ensures
        e == if val is None || result is None {
            MgpError::InvalidArgument
        } else {
            MgpError::NoError
        },
        result matches Some(r) ==> *final(r) == match val {
            Some(v) => flag(v@ is Edge),
            None => *r,
        },
{
    match (val, result) {
        (Some(v), Some(r)) => {
            *r = to_flag(matches!(v.inner, ValueInner::Edge(_)));
            MgpError::NoError
        },
        _ => MgpError::InvalidArgument,
    }
}

/// Tells whether a value is a path.
pub fn mgp_value_is_path(val: Option<&mgp_value>, result: Option<&mut i32>) -> (e: MgpError)
    ensures
        e == if val is None || result is None {
            MgpError::InvalidArgument
        } else {
            MgpError::NoError
        },
        result matches Some(r) ==> *final(r) == match val {
            Some(v) => flag(v@ is Path),
            None => *r,
        },
{
    match (val, result) {
        (Some(v), Some(r)) => {
            *r = to_flag(matches!(v.inner, ValueInner::Path(_)));
            MgpError::NoError
        },
        _ => MgpError::InvalidArgument,
    }
}

/// Tells whether a value is a date.
pub fn mgp_value_is_date(val: Option<&mgp_value>, result: Option<&mut i32>) -> (e: MgpError)
    ensures
        e == if val is None || result is None {
            MgpError::InvalidArgument
        } else {
            MgpError::NoError
        },
        result matches Some(r) ==> *final(r) == match val {
            Some(v) => flag(v@ is Date),
            None => *r,
        },
{
    match (val, result) {
        (Some(v), Some(r)) => {
            *r = to_flag(matches!(v.inner, ValueInner::Date(_)));
            MgpError::NoError
        },
        _ => MgpError::InvalidArgument,
    }
}

/// Tells whether a value is a time of day.
pub fn mgp_value_is_local_time(val: Option<&mgp_value>, result: Option<&mut i32>) -> (e: MgpError)
    ensures
        e == if val is None || result is None {
            MgpError::InvalidArgument
        } else {
            MgpError::NoError
        },
        result matches Some(r) ==> *final(r) == match val {
            Some(v) => flag(v@ is LocalTime),
            None => *r,
        },
{
    match (val, result) {
        (Some(v), Some(r)) => {
            *r = to_flag(matches!(v.inner, ValueInner::LocalTime(_)));
            MgpError::NoError
        },
        _ => MgpError::InvalidArgument,
    }
}

/// Tells whether a value is a moment.
pub fn mgp_value_is_local_date_time(val: Option<&mgp_value>, result: Option<&mut i32>) -> (e: MgpError)
    ensures
        e == if val is None || result is None {
            MgpError::InvalidArgument
        } else {
            MgpError::NoError
        },
        result matches Some(r) ==> *final(r) == match val {
            Some(v) => flag(v@ is LocalDateTime),
            None => *r,
        },
{
    match (val, result) {
        (Some(v), Some(r)) => {
            *r = to_flag(matches!(v.inner, ValueInner::LocalDateTime(_)));
            MgpError::NoError
        },
        _ => MgpError::InvalidArgument,
    }
}

/// Tells whether a value is a duration.
pub fn mgp_value_is_duration(val: Option<&mgp_value>, result: Option<&mut i32>) -> (e: MgpError)
    ensures
        e == if val is None || result is None {
            MgpError::InvalidArgument
        } else {
            MgpError::NoError
        },
        result matches Some(r) ==> *final(r) == match val {
            Some(v) => flag(v@ is Duration),
            None => *r,
        },
{
    match (val, result) {
        (Some(v), Some(r)) => {
            *r = to_flag(matches!(v.inner, ValueInner::Duration(_)));
            MgpError::NoError
        },
        _ => MgpError::InvalidArgument,
    }
}

/// Tells whether a value is a moment in a time zone.
pub fn mgp_value_is_zoned_date_time(val: Option<&mgp_value>, result: Option<&mut i32>) -> (e: MgpError)
    ensures
        e == if val is None || result is None {
            MgpError::InvalidArgument
        } else {
            MgpError::NoError
        },
        result matches Some(r) ==> *final(r) == match val {
            Some(v) => flag(v@ is ZonedDateTime),
            None => *r,
        },
{
    match (val, result) {
        (Some(v), Some(r)) => {
            *r = to_flag(matches!(v.inner, ValueInner::ZonedDateTime(_)));
            MgpError::NoError
        },
        _ => MgpError::InvalidArgument,
    }
}

/// Tells whether a value is a point in the plane.
pub fn mgp_value_is_point_2d(val: Option<&mgp_value>, result: Option<&mut i32>) -> (e: MgpError)
    ensures
        e == if val is None || result is None {
            MgpError::InvalidArgument
        } else {
            MgpError::NoError
        },
        result matches Some(r) ==> *final(r) == match val {
            Some(v) => flag(v@ is Point2D),
            None => *r,
        },
{
    match (val, result) {
        (Some(v), Some(r)) => {
            *r = to_flag(matches!(v.inner, ValueInner::Point2D(_)));
            MgpError::NoError
        },
        _ => MgpError::InvalidArgument,
    }
}

/// Tells whether a value is a point in space.
pub fn mgp_value_is_point_3d(val: Option<&mgp_value>, result: Option<&mut i32>) -> (e: MgpError)
    ensures
        e == if val is None || result is None {
            MgpError::InvalidArgument
        } else {
            MgpError::NoError
        },
        result matches Some(r) ==> *final(r) == match val {
            Some(v) => flag(v@ is Point3D),
            None => *r,
        },
{
    match (val, result) {
        (Some(v), Some(r)) => {
            *r = to_flag(matches!(v.inner, ValueInner::Point3D(_)));
            MgpError::NoError
        },
        _ => MgpError::InvalidArgument,
    }
}

/// Tells whether a value is a member of an enumeration.
pub fn mgp_value_is_enum(val: Option<&mgp_value>, result: Option<&mut i32>) -> (e: MgpError)
    ensures
        e == if val is None || result is None {
            MgpError::InvalidArgument
        } else {
            MgpError::NoError
        },
        result matches Some(r) ==> *final(r) == match val {
            Some(v) => flag(v@ is Enum),
            None => *r,
        },
{
    match (val, result) {
        (Some(v), Some(r)) => {
            *r = to_flag(matches!(v.inner, ValueInner::Enum(_)));
            MgpError::NoError
        },
        _ => MgpError::InvalidArgument,
    }
}

/// What the reading of a value answers: whether an argument is missing, and whether the value has
/// the type that is asked for.
pub open spec fn read_error(missing: bool, fits: bool) -> MgpError {
    if missing {
        MgpError::InvalidArgument
    } else if fits {
        MgpError::NoError
    } else {
        MgpError::ValueConversion
    }
}

/// Reads a truth value.
pub fn mgp_value_get_bool(val: Option<&mgp_value>, result: Option<&mut i32>) -> (e: MgpError)
    ensures
        e == read_error(val is None || result is None, val is Some && val->0@ is Bool),
        result matches Some(r) ==> *final(r) == if val is Some && val->0@ is Bool {
            flag(val->0@->Bool_0)
        } else {
            *r
        },
{
    match (val, result) {
        (Some(v), Some(r)) => match &v.inner {
            ValueInner::Bool(b) => {
                *r = to_flag(*b);
                MgpError::NoError
            },
            _ => MgpError::ValueConversion,
        },
        _ => MgpError::InvalidArgument,
    }
}

/// Reads an integer.
pub fn mgp_value_get_int(val: Option<&mgp_value>, result: Option<&mut i64>) -> (e: MgpError)
    ensures
        e == read_error(val is None || result is None, val is Some && val->0@ is Int),
        result matches Some(r) ==> *final(r) == if val is Some && val->0@ is Int {
            val->0@->Int_0
        } else {
            *r
        },
{
    match (val, result) {
        (Some(v), Some(r)) => match &v.inner {
            ValueInner::Int(x) => {
                *r = *x;
                MgpError::NoError
            },
            _ => MgpError::ValueConversion,
        },
        _ => MgpError::InvalidArgument,
    }
}

/// Reads a double.
pub fn mgp_value_get_double(val: Option<&mgp_value>, result: Option<&mut u64>) -> (e: MgpError)
    ensures
        e == read_error(val is None || result is None, val is Some && val->0@ is Double),
        result matches Some(r) ==> *final(r) == if val is Some && val->0@ is Double {
            val->0@->Double_0
        } else {
            *r
        },
{
    match (val, result) {
        (Some(v), Some(r)) => match &v.inner {
            ValueInner::Double(x) => {
                *r = *x;
                MgpError::NoError
            },
            _ => MgpError::ValueConversion,
        },
        _ => MgpError::InvalidArgument,
    }
}

/// Reads a date.
pub fn mgp_value_get_date(val: Option<&mgp_value>, result: Option<&mut i64>) -> (e: MgpError)
    ensures
        e == read_error(val is None || result is None, val is Some && val->0@ is Date),
        result matches Some(r) ==> *final(r) == if val is Some && val->0@ is Date {
            val->0@->Date_0
        } else {
            *r
        },
{
    match (val, result) {
        (Some(v), Some(r)) => match &v.inner {
            ValueInner::Date(x) => {
                *r = *x;
                MgpError::NoError
            },
            _ => MgpError::ValueConversion,
        },
        _ => MgpError::InvalidArgument,
    }
}

/// Reads a time of day.
pub fn mgp_value_get_local_time(val: Option<&mgp_value>, result: Option<&mut i64>) -> (e: MgpError)
    ensures
        e == read_error(val is None || result is None, val is Some && val->0@ is LocalTime),
        result matches Some(r) ==> *final(r) == if val is Some && val->0@ is LocalTime {
            val->0@->LocalTime_0
        } else {
            *r
        },
{
    match (val, result) {
        (Some(v), Some(r)) => match &v.inner {
            ValueInner::LocalTime(x) => {
                *r = *x;
                MgpError::NoError
            },
            _ => MgpError::ValueConversion,
        },
        _ => MgpError::InvalidArgument,
    }
}

/// Reads a moment.
pub fn mgp_value_get_local_date_time(val: Option<&mgp_value>, result: Option<&mut i64>) -> (e: MgpError)
    ensures
        e == read_error(val is None || result is None, val is Some && val->0@ is LocalDateTime),
        result matches Some(r) ==> *final(r) == if val is Some && val->0@ is LocalDateTime {
            val->0@->LocalDateTime_0
        } else {
            *r
        },
{
    match (val, result) {
        (Some(v), Some(r)) => match &v.inner {
            ValueInner::LocalDateTime(x) => {
                *r = *x;
                MgpError::NoError
            },
            _ => MgpError::ValueConversion,
        },
        _ => MgpError::InvalidArgument,
    }
}

/// Reads a text.
pub fn mgp_value_get_string(val: Option<&mgp_value>, result: Option<&mut Option<String>>) -> (e: MgpError)
    ensures
        e == read_error(val is None || result is None, val is Some && val->0@ is Text),
        result matches Some(r) ==> opt_view(*final(r)) == if val is Some && val->0@ is Text {
            Some(val->0@->Text_0)
        } else {
            opt_view(*r)
        },
{
    match (val, result) {
        (Some(v), Some(r)) => match &v.inner {
            ValueInner::String(x) => {
                *r = Some(x.clone());
                MgpError::NoError
            },
            _ => MgpError::ValueConversion,
        },
        _ => MgpError::InvalidArgument,
    }
}

/// Reads a list.
pub fn mgp_value_get_list(val: Option<&mgp_value>, result: Option<&mut Option<mgp_list>>) -> (e: MgpError)
    ensures
        e == read_error(val is None || result is None, val is Some && val->0@ is List),
        result matches Some(r) ==> opt_view(*final(r)) == if val is Some && val->0@ is List {
            Some(val->0@->List_0)
        } else {
            opt_view(*r)
        },
{
    match (val, result) {
        (Some(v), Some(r)) => match &v.inner {
            ValueInner::List(x) => {
                proof {
                    lemma_list_value(*v);
                }
                *r = Some(x.clone());
                MgpError::NoError
            },
            _ => MgpError::ValueConversion,
        },
        _ => MgpError::InvalidArgument,
    }
}

/// Reads a map.
pub fn mgp_value_get_map(val: Option<&mgp_value>, result: Option<&mut Option<mgp_map>>) -> (e: MgpError)
    ensures
        e == read_error(val is None || result is None, val is Some && val->0@ is Mapping),
        result matches Some(r) ==> opt_view(*final(r)) == if val is Some && val->0@ is Mapping {
            Some(val->0@->Mapping_0)
        } else {
            opt_view(*r)
        },
{
    match (val, result) {
        (Some(v), Some(r)) => match &v.inner {
            ValueInner::Mapping(x) => {
                proof {
                    lemma_list_value(*v);
                }
                *r = Some(x.clone());
                MgpError::NoError
            },
            _ => MgpError::ValueConversion,
        },
        _ => MgpError::InvalidArgument,
    }
}

/// Reads a path.
pub fn mgp_value_get_path(val: Option<&mgp_value>, result: Option<&mut Option<mgp_path>>) -> (e: MgpError)
    ensures
        e == read_error(val is None || result is None, val is Some && val->0@ is Path),
        result matches Some(r) ==> opt_view(*final(r)) == if val is Some && val->0@ is Path {
            Some(val->0@->Path_0)
        } else {
            opt_view(*r)
        },
{
    match (val, result) {
        (Some(v), Some(r)) => match &v.inner {
            ValueInner::Path(x) => {
                *r = Some(x.clone());
                MgpError::NoError
            },
            _ => MgpError::ValueConversion,
        },
        _ => MgpError::InvalidArgument,
    }
}

/// Reads a moment in a time zone.
pub fn mgp_value_get_zoned_date_time(val: Option<&mgp_value>, result: Option<&mut Option<mgp_zoned_date_time>>) -> (e: MgpError)
    ensures
        e == read_error(val is None || result is None, val is Some && val->0@ is ZonedDateTime),
        result matches Some(r) ==> opt_view(*final(r)) == if val is Some && val->0@ is ZonedDateTime {
            Some(val->0@->ZonedDateTime_0)
        } else {
            opt_view(*r)
        },
{
    match (val, result) {
        (Some(v), Some(r)) => match &v.inner {
            ValueInner::ZonedDateTime(x) => {
                *r = Some(x.clone());
                MgpError::NoError
            },
            _ => MgpError::ValueConversion,
        },
        _ => MgpError::InvalidArgument,
    }
}

/// Reads a member of an enumeration.
pub fn mgp_value_get_enum(val: Option<&mgp_value>, result: Option<&mut Option<mgp_enum>>) -> (e: MgpError)
    ensures
        e == read_error(val is None || result is None, val is Some && val->0@ is Enum),
        result matches Some(r) ==> opt_view(*final(r)) == if val is Some && val->0@ is Enum {
            Some(val->0@->Enum_0)
        } else {
            opt_view(*r)
        },
{
    match (val, result) {
        (Some(v), Some(r)) => match &v.inner {
            ValueInner::Enum(x) => {
                *r = Some(x.clone());
                MgpError::NoError
            },
            _ => MgpError::ValueConversion,
        },
        _ => MgpError::InvalidArgument,
    }
}

/// Reads a vertex.
pub fn mgp_value_get_vertex(val: Option<&mgp_value>, result: Option<&mut Option<mgp_vertex>>) -> (e: MgpError)
    ensures
        e == read_error(val is None || result is None, val is Some && val->0@ is Vertex),
        result matches Some(r) ==> *final(r) == if val is Some && val->0@ is Vertex {
            Some(val->0@->Vertex_0)
        } else {
            *r
        },
{
    match (val, result) {
        (Some(v), Some(r)) => match &v.inner {
            ValueInner::Vertex(x) => {
                *r = Some(*x);
                MgpError::NoError
            },
            _ => MgpError::ValueConversion,
        },
        _ => MgpError::InvalidArgument,
    }
}

/// Reads an edge.
pub fn mgp_value_get_edge(val: Option<&mgp_value>, result: Option<&mut Option<mgp_edge>>) -> (e: MgpError)
    ensures
        e == read_error(val is None || result is None, val is Some && val->0@ is Edge),
        result matches Some(r) ==> *final(r) == if val is Some && val->0@ is Edge {
            Some(val->0@->Edge_0)
        } else {
            *r
        },
{
    match (val, result) {
        (Some(v), Some(r)) => match &v.inner {
            ValueInner::Edge(x) => {
                *r = Some(*x);
                MgpError::NoError
            },
            _ => MgpError::ValueConversion,
        },
        _ => MgpError::InvalidArgument,
    }
}

/// Reads a duration.
pub fn mgp_value_get_duration(val: Option<&mgp_value>, result: Option<&mut Option<mgp_duration>>) -> (e: MgpError)
    ensures
        e == read_error(val is None || result is None, val is Some && val->0@ is Duration),
        result matches Some(r) ==> *final(r) == if val is Some && val->0@ is Duration {
            Some(val->0@->Duration_0)
        } else {
            *r
        },
{
    match (val, result) {
        (Some(v), Some(r)) => match &v.inner {
            ValueInner::Duration(x) => {
                *r = Some(*x);
                MgpError::NoError
            },
            _ => MgpError::ValueConversion,
        },
        _ => MgpError::InvalidArgument,
    }
}

/// Reads a point in the plane.
pub fn mgp_value_get_point_2d(val: Option<&mgp_value>, result: Option<&mut Option<mgp_point_2d>>) -> (e: MgpError)
    ensures
        e == read_error(val is None || result is None, val is Some && val->0@ is Point2D),
        result matches Some(r) ==> *final(r) == if val is Some && val->0@ is Point2D {
            Some(val->0@->Point2D_0)
        } else {
            *r
        },
{
    match (val, result) {
        (Some(v), Some(r)) => match &v.inner {
            ValueInner::Point2D(x) => {
                *r = Some(*x);
                MgpError::NoError
            },
            _ => MgpError::ValueConversion,
        },
        _ => MgpError::InvalidArgument,
    }
}

/// Reads a point in space.
pub fn mgp_value_get_point_3d(val: Option<&mgp_value>, result: Option<&mut Option<mgp_point_3d>>) -> (e: MgpError)
    ensures
        e == read_error(val is None || result is None, val is Some && val->0@ is Point3D),
        result matches Some(r) ==> *final(r) == if val is Some && val->0@ is Point3D {
            Some(val->0@->Point3D_0)
        } else {
            *r
        },
{
    match (val, result) {
        (Some(v), Some(r)) => match &v.inner {
            ValueInner::Point3D(x) => {
                *r = Some(*x);
                MgpError::NoError
            },
            _ => MgpError::ValueConversion,
        },
        _ => MgpError::InvalidArgument,
    }
}

} // verus!
