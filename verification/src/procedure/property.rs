//! Property values as the storage holds them, and how they become values and come from them.
use vstd::prelude::*;

use crate::procedure::collections::{find_key, has_key, key_position, keys_differ, replaced_value_is_found, inserted_value_is_found, updated, Entries};
use crate::procedure::value::{
    lemma_list_value, mgp_duration, mgp_enum, mgp_list, mgp_map, mgp_point_2d, mgp_point_3d, mgp_value,
    mgp_zoned_date_time, opt_view, value_view, MapEntry, Member, Val, ValueInner, ZonedTime,
};

verus! {

/// A system of coordinates.
#[derive(Clone, Copy, Debug, PartialEq, Eq, Structural)]
pub enum Crs {
    WGS84,
    Cartesian2D,
    Cartesian3D,
    WGS843D,
}

/// The number by which a system of coordinates is known.
pub open spec fn crs_code(c: Crs) -> u16 {
    match c {
        Crs::WGS84 => 4326,
        Crs::Cartesian2D => 7203,
        Crs::Cartesian3D => 9157,
        Crs::WGS843D => 4979,
    }
}

/// The system of coordinates with a number, or else the one that is taken for granted.
pub open spec fn crs_of(code: u16, otherwise: Crs) -> Crs {
    if code == 4326 {
        Crs::WGS84
    } else if code == 7203 {
        Crs::Cartesian2D
    } else if code == 9157 {
        Crs::Cartesian3D
    } else if code == 4979 {
        Crs::WGS843D
    } else {
        otherwise
    }
}

/// The number of a system of coordinates leads back to it.
pub proof fn crs_code_leads_back(c: Crs, otherwise: Crs)
    ensures
        crs_of(crs_code(c), otherwise) == c,
{
}

impl Crs {
    pub fn code(self) -> (r: u16)
        ensures
            r == crs_code(self),
    {
        match self {
            Crs::WGS84 => 4326,
            Crs::Cartesian2D => 7203,
            Crs::Cartesian3D => 9157,
            Crs::WGS843D => 4979,
        }
    }

    pub fn from_code(code: u16, otherwise: Crs) -> (r: Crs)
        ensures
            r == crs_of(code, otherwise),
    {
        if code == 4326 {
            Crs::WGS84
        } else if code == 7203 {
            Crs::Cartesian2D
        } else if code == 9157 {
            Crs::Cartesian3D
        } else if code == 4979 {
            Crs::WGS843D
        } else {
            otherwise
        }
    }
}

#[derive(Debug)]
pub struct NamedValue {
    pub name: String,
    pub value: PropertyValue,
}

/// A property value. Doubles are held by their bit patterns.
#[derive(Debug)]
pub enum PropertyValue {
    Null,
    Bool(bool),
    Int(i64),
    Double(u64),
    String(String),
    List(Vec<PropertyValue>),
    Mapping(Vec<NamedValue>),
    Vertex(u64),
    Edge(u64),
    Path,
    Date(i64),
    LocalTime(i64),
    LocalDateTime(i64),
    ZonedDateTime { micros: i64, offset: i16, tz: String },
    Duration(mgp_duration),
    Point2D { crs: Crs, x: u64, y: u64 },
    Point3D { crs: Crs, x: u64, y: u64, z: u64 },
    Enum { ty: String, val: String },
}

/// The mathematical model of a property value.
pub enum Stored {
    Null,
    Bool(bool),
    Int(i64),
    Double(u64),
    Text(Seq<char>),
    List(Seq<Stored>),
    Mapping(Seq<(Seq<char>, Stored)>),
    Vertex(u64),
    Edge(u64),
    Path,
    Date(i64),
    LocalTime(i64),
    LocalDateTime(i64),
    ZonedDateTime(ZonedTime),
    Duration(mgp_duration),
    Point2D(Crs, u64, u64),
    Point3D(Crs, u64, u64, u64),
    Enum(Member),
}

/// The model of a property value.
pub open spec fn stored_view(p: PropertyValue) -> Stored
    decreases p,
{
    match p {
        PropertyValue::Null => Stored::Null,
        PropertyValue::Bool(b) => Stored::Bool(b),
        PropertyValue::Int(n) => Stored::Int(n),
        PropertyValue::Double(d) => Stored::Double(d),
        PropertyValue::String(s) => Stored::Text(s@),
        PropertyValue::List(items) => Stored::List(
            Seq::new(items@.len(), |i: int| if 0 <= i < items@.len() { stored_view(items@[i]) } else { Stored::Null }),
        ),
        PropertyValue::Mapping(items) => Stored::Mapping(
            Seq::new(
                items@.len(),
                |i: int|
                    if 0 <= i < items@.len() {
                        (items@[i].name@, stored_view(items@[i].value))
                    } else {
                        (seq![], Stored::Null)
                    },
            ),
        ),
        PropertyValue::Vertex(g) => Stored::Vertex(g),
        PropertyValue::Edge(g) => Stored::Edge(g),
        PropertyValue::Path => Stored::Path,
        PropertyValue::Date(d) => Stored::Date(d),
        PropertyValue::LocalTime(t) => Stored::LocalTime(t),
        PropertyValue::LocalDateTime(t) => Stored::LocalDateTime(t),
        PropertyValue::ZonedDateTime { micros, offset, tz } => Stored::ZonedDateTime(ZonedTime { micros, offset, tz: tz@ }),
        PropertyValue::Duration(d) => Stored::Duration(d),
        PropertyValue::Point2D { crs, x, y } => Stored::Point2D(crs, x, y),
        PropertyValue::Point3D { crs, x, y, z } => Stored::Point3D(crs, x, y, z),
        PropertyValue::Enum { ty, val } => Stored::Enum(Member { ty: ty@, val: val@ }),
    }
}

impl View for PropertyValue {
    type V = Stored;

    open spec fn view(&self) -> Stored {
        stored_view(*self)
    }
}

/// A text as the interface holds it: one with a zero character cannot be held, and is left empty.
pub open spec fn held_text(s: Seq<char>) -> Seq<char> {
    if s.contains('\0') {
        Seq::empty()
    } else {
        s
    }
}

/// The value that a property value becomes: vertices, edges and paths become null.
pub open spec fn as_value(p: Stored) -> Val
    decreases p, 0nat,
{
    match p {
        Stored::Null => Val::Null,
        Stored::Bool(b) => Val::Bool(b),
        Stored::Int(n) => Val::Int(n),
        Stored::Double(d) => Val::Double(d),
        Stored::Text(s) => Val::Text(held_text(s)),
        Stored::List(items) => Val::List(as_values(items, items.len())),
        Stored::Mapping(items) => Val::Mapping(as_entries(items, items.len())),
        Stored::Vertex(_) => Val::Null,
        Stored::Edge(_) => Val::Null,
        Stored::Path => Val::Null,
        Stored::Date(d) => Val::Date(d),
        Stored::LocalTime(t) => Val::LocalTime(t),
        Stored::LocalDateTime(t) => Val::LocalDateTime(t),
        Stored::ZonedDateTime(z) => Val::ZonedDateTime(ZonedTime { micros: z.micros, offset: z.offset, tz: held_text(z.tz) }),
        Stored::Duration(d) => Val::Duration(d),
        Stored::Point2D(crs, x, y) => Val::Point2D(mgp_point_2d { crs: crs_code(crs), x, y }),
        Stored::Point3D(crs, x, y, z) => Val::Point3D(mgp_point_3d { crs: crs_code(crs), x, y, z }),
        Stored::Enum(m) => Val::Enum(Member { ty: held_text(m.ty), val: held_text(m.val) }),
    }
}

/// The values that the first `k` property values become.
pub open spec fn as_values(items: Seq<Stored>, k: nat) -> Seq<Val>
    decreases items, k,
{
    if k == 0 || k > items.len() {
        Seq::empty()
    } else {
        as_values(items, (k - 1) as nat).push(as_value(items[k - 1]))
    }
}

/// The entries that the first `k` named property values become; a later one takes the place of an
/// earlier one with the same key.
pub open spec fn as_entries(items: Seq<(Seq<char>, Stored)>, k: nat) -> Entries
    decreases items, k,
{
    if k == 0 || k > items.len() {
        Seq::empty()
    } else {
        updated(as_entries(items, (k - 1) as nat), held_text(items[k - 1].0), as_value(items[k - 1].1))
    }
}

/// The property value that a value is stored as: vertices, edges and paths cannot be stored.
pub open spec fn as_stored(v: Val) -> Option<Stored>
    decreases v, 0nat,
{
    match v {
        Val::Null => Some(Stored::Null),
        Val::Bool(b) => Some(Stored::Bool(b)),
        Val::Int(n) => Some(Stored::Int(n)),
        Val::Double(d) => Some(Stored::Double(d)),
        Val::Text(s) => Some(Stored::Text(s)),
        Val::List(items) => Some(Stored::List(as_stored_items(items, items.len()))),
        Val::Mapping(items) => Some(Stored::Mapping(as_stored_entries(items, items.len()))),
        Val::Vertex(_) => None,
        Val::Edge(_) => None,
        Val::Path(_) => None,
        Val::Date(d) => Some(Stored::Date(d)),
        Val::LocalTime(t) => Some(Stored::LocalTime(t)),
        Val::LocalDateTime(t) => Some(Stored::LocalDateTime(t)),
        Val::Duration(d) => Some(Stored::Duration(d)),
        Val::ZonedDateTime(z) => Some(Stored::ZonedDateTime(z)),
        Val::Point2D(p) => Some(Stored::Point2D(crs_of(p.crs, Crs::Cartesian2D), p.x, p.y)),
        Val::Point3D(p) => Some(Stored::Point3D(crs_of(p.crs, Crs::Cartesian3D), p.x, p.y, p.z)),
        Val::Enum(m) => Some(Stored::Enum(m)),
    }
}

/// The property values of those of the first `k` items that can be stored.
pub open spec fn as_stored_items(items: Seq<Val>, k: nat) -> Seq<Stored>
    decreases items, k,
{
    if k == 0 || k > items.len() {
        Seq::empty()
    } else {
        let before = as_stored_items(items, (k - 1) as nat);
        match as_stored(items[k - 1]) {
            Some(p) => before.push(p),
            None => before,
        }
    }
}

/// The named property values of those of the first `k` entries that can be stored.
pub open spec fn as_stored_entries(items: Entries, k: nat) -> Seq<(Seq<char>, Stored)>
    decreases items, k,
{
    if k == 0 || k > items.len() {
        Seq::empty()
    } else {
        let before = as_stored_entries(items, (k - 1) as nat);
        match as_stored(items[k - 1].1) {
            Some(p) => before.push((items[k - 1].0, p)),
            None => before,
        }
    }
}

fn has_zero(s: &str) -> (r: bool)
    ensures
        r == s@.contains('\0'),
{
    let len: usize = s.unicode_len();
    let mut i: usize = 0;
    while i < len
        invariant
            len == s@.len(),
            i <= len,
            forall|j: int| 0 <= j < i ==> s@[j] != '\0',
        decreases len - i,
    {
        if s.get_char(i) == '\0' {
            assert(s@[i as int] == '\0');
            return true;
        }
        i += 1;
    }
    false
}

/// A text as the interface holds it.
pub fn hold_text(s: &str) -> (r: String)
    ensures
        r@ == held_text(s@),
{
    if has_zero(s) {
        let r = "".to_string();
        proof {
            reveal_strlit("");
            assert(r@ =~= Seq::<char>::empty());
        }
        r
    } else {
        s.to_string()
    }
}

proof fn lemma_as_values(items: Seq<Stored>, k: nat)
    requires
        k <= items.len(),
    ensures
        as_values(items, k).len() == k,
        forall|i: int| 0 <= i < k ==> #[trigger] as_values(items, k)[i] == as_value(items[i]),
    decreases k,
{
    if k > 0 {
        lemma_as_values(items, (k - 1) as nat);
    }
}

/// No key occurs twice among the entries.
pub proof fn lemma_as_entries(items: Seq<(Seq<char>, Stored)>, k: nat)
    requires
        k <= items.len(),
    ensures
        keys_differ(as_entries(items, k)),
    decreases k,
{
    if k > 0 {
        lemma_as_entries(items, (k - 1) as nat);
        lemma_updated(as_entries(items, (k - 1) as nat), held_text(items[k - 1].0), as_value(items[k - 1].1));
    }
}

/// An update keeps keys different.
pub proof fn lemma_updated(m: Entries, key: Seq<char>, v: Val)
    requires
        keys_differ(m),
    ensures
        keys_differ(updated(m, key, v)),
{
    if has_key(m, key) {
        replaced_value_is_found(m, key, v, key);
    } else {
        inserted_value_is_found(m, key, v, key);
    }
}

/// The value that a property value becomes.
pub fn property_value_to_mgp_value(pv: &PropertyValue) -> (r: mgp_value)
    ensures
        r@ == as_value(pv@),
    decreases pv,
{
    let inner = match pv {
        PropertyValue::Null => ValueInner::Null,
        PropertyValue::Bool(b) => ValueInner::Bool(*b),
        PropertyValue::Int(n) => ValueInner::Int(*n),
        PropertyValue::Double(d) => ValueInner::Double(*d),
        PropertyValue::String(s) => ValueInner::String(hold_text(s.as_str())),
        PropertyValue::List(items) => {
            let mut out: Vec<mgp_value> = Vec::new();
            let ghost all = pv@->List_0;
            let mut i: usize = 0;
            while i < items.len()
                invariant
                    pv matches PropertyValue::List(k) && k == items,
                    all == pv@->List_0,
                    all.len() == items@.len(),
                    i <= items@.len(),
                    out@.len() == i,
                    forall|j: int| 0 <= j < i ==> value_view(#[trigger] out@[j]) == as_value(all[j]),
                decreases items@.len() - i,
            {
                assert(all[i as int] == stored_view(items@[i as int]));
                out.push(property_value_to_mgp_value(&items[i]));
                i += 1;
            }
            let r = mgp_value { inner: ValueInner::List(mgp_list { items: out }) };
            proof {
                lemma_as_values(all, all.len());
                assert(r@->List_0 =~= as_values(all, all.len()));
            }
            return r;
        },
        PropertyValue::Mapping(items) => {
            let mut map = mgp_map { items: Vec::new() };
            let ghost all = pv@->Mapping_0;
            let mut i: usize = 0;
            assert(map@ =~= as_entries(all, 0));
            while i < items.len()
                invariant
                    pv matches PropertyValue::Mapping(k) && k == items,
                    all == pv@->Mapping_0,
                    all.len() == items@.len(),
                    i <= items@.len(),
                    map@ == as_entries(all, i as nat),
                decreases items@.len() - i,
            {
                proof {
                    lemma_as_entries(all, i as nat);
                    assert(all[i as int] == (items@[i as int].name@, stored_view(items@[i as int].value)));
                }
                let key = hold_text(items[i].name.as_str());
                let value = property_value_to_mgp_value(&items[i].value);
                let ghost before = map@;
                match find_key(&map, key.as_str()) {
                    Some(k) => {
                        map.items.set(k, MapEntry { key, value });
                        assert(map@ =~= before.update(k as int, (key@, value@)));
                    },
                    None => {
                        map.items.push(MapEntry { key, value });
                        assert(map@ =~= before.push((key@, value@)));
                    },
                }
                i += 1;
            }
            let r = mgp_value { inner: ValueInner::Mapping(map) };
            proof {
                lemma_list_value(r);
            }
            return r;
        },
        PropertyValue::Vertex(_) => ValueInner::Null,
        PropertyValue::Edge(_) => ValueInner::Null,
        PropertyValue::Path => ValueInner::Null,
        PropertyValue::Date(d) => ValueInner::Date(*d),
        PropertyValue::LocalTime(t) => ValueInner::LocalTime(*t),
        PropertyValue::LocalDateTime(t) => ValueInner::LocalDateTime(*t),
        PropertyValue::ZonedDateTime { micros, offset, tz } => ValueInner::ZonedDateTime(
            mgp_zoned_date_time { micros: *micros, offset: *offset, tz: hold_text(tz.as_str()) },
        ),
        PropertyValue::Duration(d) => ValueInner::Duration(*d),
        PropertyValue::Point2D { crs, x, y } => ValueInner::Point2D(mgp_point_2d { crs: crs.code(), x: *x, y: *y }),
        PropertyValue::Point3D { crs, x, y, z } => ValueInner::Point3D(mgp_point_3d { crs: crs.code(), x: *x, y: *y, z: *z }),
        PropertyValue::Enum { ty, val } => ValueInner::Enum(
            mgp_enum { ty: hold_text(ty.as_str()), val: hold_text(val.as_str()) },
        ),
    };
    mgp_value { inner }
}

/// The models of a sequence of property values.
pub open spec fn stored_views(items: Seq<PropertyValue>) -> Seq<Stored> {
    Seq::new(items.len(), |i: int| items[i]@)
}

/// The models of a sequence of named property values.
pub open spec fn named_views(items: Seq<NamedValue>) -> Seq<(Seq<char>, Stored)> {
    Seq::new(items.len(), |i: int| (items[i].name@, items[i].value@))
}

fn to_stored(val: &mgp_value) -> (r: Option<PropertyValue>)
    ensures
        opt_view(r) == as_stored(val@),
    decreases val,
{
    match &val.inner {
        ValueInner::Null => Some(PropertyValue::Null),
        ValueInner::Bool(b) => Some(PropertyValue::Bool(*b)),
        ValueInner::Int(n) => Some(PropertyValue::Int(*n)),
        ValueInner::Double(d) => Some(PropertyValue::Double(*d)),
        ValueInner::String(s) => Some(PropertyValue::String(s.clone())),
        ValueInner::List(l) => {
            let mut out: Vec<PropertyValue> = Vec::new();
            let ghost all = val@->List_0;
            let mut i: usize = 0;
            assert(stored_views(out@) =~= as_stored_items(all, 0));
            while i < l.items.len()
                invariant
                    val.inner matches ValueInner::List(k) && k == l,
                    all == val@->List_0,
                    all.len() == l.items@.len(),
                    i <= l.items@.len(),
                    stored_views(out@) == as_stored_items(all, i as nat),
                decreases l.items@.len() - i,
            {
                assert(all[i as int] == value_view(l.items@[i as int]));
                let ghost before = out@;
                match to_stored(&l.items[i]) {
                    Some(p) => {
                        out.push(p);
                        assert(stored_views(out@) =~= stored_views(before).push(p@));
                    },
                    None => {},
                }
                i += 1;
            }
            let r = PropertyValue::List(out);
            assert(r@->List_0 =~= stored_views(out@));
            Some(r)
        },
        ValueInner::Mapping(m) => {
            let mut out: Vec<NamedValue> = Vec::new();
            let ghost all = val@->Mapping_0;
            let mut i: usize = 0;
            assert(named_views(out@) =~= as_stored_entries(all, 0));
            while i < m.items.len()
                invariant
                    val.inner matches ValueInner::Mapping(k) && k == m,
                    all == val@->Mapping_0,
                    all.len() == m.items@.len(),
                    i <= m.items@.len(),
                    named_views(out@) == as_stored_entries(all, i as nat),
                decreases m.items@.len() - i,
            {
                assert(all[i as int] == (m.items@[i as int].key@, value_view(m.items@[i as int].value)));
                let ghost before = out@;
                match to_stored(&m.items[i].value) {
                    Some(p) => {
                        let name = m.items[i].key.clone();
                        out.push(NamedValue { name, value: p });
                        assert(named_views(out@) =~= named_views(before).push((name@, p@)));
                    },
                    None => {},
                }
                i += 1;
            }
            let r = PropertyValue::Mapping(out);
            assert(r@->Mapping_0 =~= named_views(out@));
            Some(r)
        },
        ValueInner::Vertex(_) => None,
        ValueInner::Edge(_) => None,
        ValueInner::Path(_) => None,
        ValueInner::Date(d) => Some(PropertyValue::Date(*d)),
        ValueInner::LocalTime(t) => Some(PropertyValue::LocalTime(*t)),
        ValueInner::LocalDateTime(t) => Some(PropertyValue::LocalDateTime(*t)),
        ValueInner::Duration(d) => Some(PropertyValue::Duration(*d)),
        ValueInner::ZonedDateTime(z) => Some(
            PropertyValue::ZonedDateTime { micros: z.micros, offset: z.offset, tz: z.tz.clone() },
        ),
        ValueInner::Point2D(p) => Some(
            PropertyValue::Point2D { crs: Crs::from_code(p.crs, Crs::Cartesian2D), x: p.x, y: p.y },
        ),
        ValueInner::Point3D(p) => Some(
            PropertyValue::Point3D { crs: Crs::from_code(p.crs, Crs::Cartesian3D), x: p.x, y: p.y, z: p.z },
        ),
        ValueInner::Enum(m) => Some(PropertyValue::Enum { ty: m.ty.clone(), val: m.val.clone() }),
    }
}

/// The property value that a value is stored as; one that is missing is stored as null.
pub fn mgp_value_to_property_value(val: Option<&mgp_value>) -> (r: Option<PropertyValue>)
    ensures
        opt_view(r) == match val {
            Some(v) => as_stored(v@),
            None => Some(Stored::Null),
        },
{
    match val {
        Some(v) => to_stored(v),
        None => Some(PropertyValue::Null),
    }
}

/// Whether the storage gives a value back as it is: it holds no vertex, edge or path, no text in it
/// has a zero character, no key in it occurs twice, and its points have known coordinates.
pub open spec fn is_storable(v: Val) -> bool
    decreases v, 0nat,
{
    match v {
        Val::Text(s) => !s.contains('\0'),
        Val::List(items) => all_storable(items, items.len()),
        Val::Mapping(items) => keys_differ(items) && all_entries_storable(items, items.len()),
        Val::Vertex(_) => false,
        Val::Edge(_) => false,
        Val::Path(_) => false,
        Val::ZonedDateTime(z) => !z.tz.contains('\0'),
        Val::Point2D(p) => crs_code(crs_of(p.crs, Crs::Cartesian2D)) == p.crs,
        Val::Point3D(p) => crs_code(crs_of(p.crs, Crs::Cartesian3D)) == p.crs,
        Val::Enum(m) => !m.ty.contains('\0') && !m.val.contains('\0'),
        _ => true,
    }
}

pub open spec fn all_storable(items: Seq<Val>, k: nat) -> bool
    decreases items, k,
{
    k == 0 || k > items.len() || (all_storable(items, (k - 1) as nat) && is_storable(items[k - 1]))
}

pub open spec fn all_entries_storable(items: Entries, k: nat) -> bool
    decreases items, k,
{
    k == 0 || k > items.len() || (all_entries_storable(items, (k - 1) as nat) && !items[k - 1].0.contains('\0') && is_storable(
        items[k - 1].1,
    ))
}

/// What is written to a property is what is read from it.
pub proof fn stored_value_reads_back(v: Val)
    requires
        is_storable(v),
    ensures
        as_stored(v) is Some,
        as_value(as_stored(v)->0) == v,
    decreases v, 0nat,
{
    match v {
        Val::List(items) => {
            lemma_items_read_back(items, items.len());
            let s = as_stored_items(items, items.len());
            lemma_as_values(s, s.len());
            assert(as_values(s, s.len()) =~= items);
        },
        Val::Mapping(items) => {
            lemma_entries_read_back(items, items.len());
            let s = as_stored_entries(items, items.len());
            assert(as_entries(s, s.len()) =~= items.take(items.len() as int));
            assert(items.take(items.len() as int) =~= items);
        },
        _ => {},
    }
}

proof fn lemma_items_read_back(items: Seq<Val>, k: nat)
    requires
        k <= items.len(),
        all_storable(items, k),
    ensures
        as_stored_items(items, k).len() == k,
        forall|i: int| 0 <= i < k ==> as_value(#[trigger] as_stored_items(items, k)[i]) == items[i],
    decreases items, k,
{
    if k > 0 {
        lemma_items_read_back(items, (k - 1) as nat);
        stored_value_reads_back(items[k - 1]);
    }
}

proof fn lemma_entries_prefix(a: Seq<(Seq<char>, Stored)>, b: Seq<(Seq<char>, Stored)>, k: nat)
    requires
        k <= a.len(),
        k <= b.len(),
        a.take(k as int) == b.take(k as int),
    ensures
        as_entries(a, k) == as_entries(b, k),
    decreases k,
{
    if k > 0 {
        assert(a.take(k - 1) =~= a.take(k as int).take(k - 1));
        assert(b.take(k - 1) =~= b.take(k as int).take(k - 1));
        lemma_entries_prefix(a, b, (k - 1) as nat);
        assert(a[k - 1] == a.take(k as int)[k - 1]);
        assert(b[k - 1] == b.take(k as int)[k - 1]);
    }
}

proof fn lemma_entries_read_back(items: Entries, k: nat)
    requires
        k <= items.len(),
        keys_differ(items),
        all_entries_storable(items, k),
    ensures
        as_stored_entries(items, k).len() == k,
        as_entries(as_stored_entries(items, k), k) == items.take(k as int),
    decreases items, k,
{
    let s = as_stored_entries(items, k);
    if k == 0 {
        assert(as_entries(s, 0) =~= items.take(0));
    } else {
        lemma_entries_read_back(items, (k - 1) as nat);
        stored_value_reads_back(items[k - 1].1);
        let before = as_stored_entries(items, (k - 1) as nat);
        assert(s.take(k - 1) =~= before.take(k - 1));
        lemma_entries_prefix(s, before, (k - 1) as nat);
        let m = items.take(k - 1);
        assert(!has_key(m, items[k - 1].0)) by {
            if has_key(m, items[k - 1].0) {
                let i = key_position(m, items[k - 1].0);
                assert(m[i] == items[i]);
                assert(items[i].0 != items[k - 1].0);
            }
        }
        assert(items.take(k as int) =~= m.push(items[k - 1]));
    }
}

/// The property value under a name among the first `k`; null where there is none.
pub open spec fn property_at(items: Seq<(Seq<char>, Stored)>, name: Seq<char>, k: nat) -> Stored
    decreases k,
{
    if k == 0 || k > items.len() {
        Stored::Null
    } else if items[k - 1].0 == name {
        items[k - 1].1
    } else {
        property_at(items, name, (k - 1) as nat)
    }
}

/// The value of a property among those that the storage holds.
pub fn find_property(items: &Vec<NamedValue>, name: &str) -> (r: mgp_value)
    ensures
        r@ == as_value(property_at(named_views(items@), name@, items@.len())),
{
    let wanted = name.to_string();
    let ghost all = named_views(items@);
    let mut i: usize = items.len();
    while i > 0
        invariant
            wanted@ == name@,
            all == named_views(items@),
            i <= items@.len(),
            property_at(all, name@, items@.len()) == property_at(all, name@, i as nat),
        decreases i,
    {
        assert(all[i - 1] == (items@[i - 1].name@, items@[i - 1].value@));
        if items[i - 1].name == wanted {
            return property_value_to_mgp_value(&items[i - 1].value);
        }
        i -= 1;
    }
    mgp_value { inner: ValueInner::Null }
}

} // verus!
