//! Points and members of enumerations.
use vstd::prelude::*;

use crate::procedure::codes::MgpError;
use crate::procedure::entities::given;
use crate::procedure::memory::mgp_memory;
use crate::procedure::value::{
    flag, mgp_enum, mgp_point_2d, mgp_point_3d, mgp_value, mgp_value_make_point_2d, mgp_value_make_point_3d, opt_view, to_flag,
    Member, Val,
};

verus! {

/// The bit pattern of a double without its sign.
pub open spec fn magnitude(bits: u64) -> int {
    if bits >= 0x8000_0000_0000_0000 {
        bits - 0x8000_0000_0000_0000
    } else {
        bits as int
    }
}

/// Whether a bit pattern stands for no number.
pub open spec fn is_nan(bits: u64) -> bool {
    magnitude(bits) > 0x7ff0_0000_0000_0000
}

/// Whether two bit patterns stand for the same number: zero has two, and what is no number equals
/// nothing.
pub open spec fn same_number(a: u64, b: u64) -> bool {
    !is_nan(a) && !is_nan(b) && (a == b || (magnitude(a) == 0 && magnitude(b) == 0))
}

/// Being the same number is an equivalence among numbers.
pub proof fn same_number_is_equivalence(a: u64, b: u64, c: u64)
    ensures
        same_number(a, a) <==> !is_nan(a),
        same_number(a, b) ==> same_number(b, a),
        same_number(a, b) && same_number(b, c) ==> same_number(a, c),
{
}

fn find_magnitude(bits: u64) -> (r: u64)
    ensures
        r == magnitude(bits),
{
    if bits >= 0x8000_0000_0000_0000 {
        bits - 0x8000_0000_0000_0000
    } else {
        bits
    }
}

fn are_same_number(a: u64, b: u64) -> (r: bool)
    ensures
        r == same_number(a, b),
{
    let m: u64 = find_magnitude(a);
    let n: u64 = find_magnitude(b);
    m <= 0x7ff0_0000_0000_0000 && n <= 0x7ff0_0000_0000_0000 && (a == b || (m == 0 && n == 0))
}

/// Makes a point in the plane.
pub fn mgp_point_2d_make(crs: u16, x: u64, y: u64, memory: Option<&mgp_memory>, result: Option<&mut Option<mgp_value>>) -> (e: MgpError)
    ensures
        e == given(result is None),
        result matches Some(r) ==> opt_view(*final(r)) == Some(Val::Point2D(mgp_point_2d { crs, x, y })),
{
    mgp_value_make_point_2d(crs, x, y, memory, result)
}

/// Tells the x coordinate of a point in the plane.
pub fn mgp_point_2d_get_x(p: Option<&mgp_point_2d>, result: Option<&mut u64>) -> (e: MgpError)
    ensures
        e == given(p is None || result is None),
        result matches Some(r) ==> *final(r) == match p {
            Some(x) => x.x,
            None => *r,
        },
{
    match (p, result) {
        (Some(x), Some(r)) => {
            *r = x.x;
            MgpError::NoError
        },
        _ => MgpError::InvalidArgument,
    }
}

/// Tells the y coordinate of a point in the plane.
pub fn mgp_point_2d_get_y(p: Option<&mgp_point_2d>, result: Option<&mut u64>) -> (e: MgpError)
    ensures
        e == given(p is None || result is None),
        result matches Some(r) ==> *final(r) == match p {
            Some(x) => x.y,
            None => *r,
        },
{
    match (p, result) {
        (Some(x), Some(r)) => {
            *r = x.y;
            MgpError::NoError
        },
        _ => MgpError::InvalidArgument,
    }
}

/// Tells the reference system of a point in the plane.
pub fn mgp_point_2d_get_srid(p: Option<&mgp_point_2d>, result: Option<&mut u16>) -> (e: MgpError)
    ensures
        e == given(p is None || result is None),
        result matches Some(r) ==> *final(r) == match p {
            Some(x) => x.crs,
            None => *r,
        },
{
    match (p, result) {
        (Some(x), Some(r)) => {
            *r = x.crs;
            MgpError::NoError
        },
        _ => MgpError::InvalidArgument,
    }
}

/// Copies a point in the plane.
pub fn mgp_point_2d_copy(p: Option<&mgp_point_2d>, _memory: Option<&mgp_memory>, result: Option<&mut Option<mgp_point_2d>>) -> (e: MgpError)
    ensures
        e == given(p is None || result is None),
        result matches Some(r) ==> *final(r) == match p {
            Some(x) => Some(*x),
            None => *r,
        },
{
    match (p, result) {
        (Some(x), Some(r)) => {
            *r = Some(*x);
            MgpError::NoError
        },
        _ => MgpError::InvalidArgument,
    }
}

/// Tells whether two points in the plane are the same.
pub fn mgp_point_2d_equal(p1: Option<&mgp_point_2d>, p2: Option<&mgp_point_2d>, result: Option<&mut i32>) -> (e: MgpError)
    ensures
        e == given(p1 is None || p2 is None || result is None),
        result matches Some(r) ==> *final(r) == match (p1, p2) {
            (Some(a), Some(b)) => flag(a.crs == b.crs && same_number(a.x, b.x) && same_number(a.y, b.y)),
            _ => *r,
        },
{
    match (p1, p2, result) {
        (Some(a), Some(b), Some(r)) => {
            *r = to_flag(a.crs == b.crs && are_same_number(a.x, b.x) && are_same_number(a.y, b.y));
            MgpError::NoError
        },
        _ => MgpError::InvalidArgument,
    }
}

/// Makes a point in space.
pub fn mgp_point_3d_make(crs: u16, x: u64, y: u64, z: u64, memory: Option<&mgp_memory>, result: Option<&mut Option<mgp_value>>) -> (e: MgpError)
    ensures
        e == given(result is None),
        result matches Some(r) ==> opt_view(*final(r)) == Some(Val::Point3D(mgp_point_3d { crs, x, y, z })),
{
    mgp_value_make_point_3d(crs, x, y, z, memory, result)
}

/// Tells the x coordinate of a point in space.
pub fn mgp_point_3d_get_x(p: Option<&mgp_point_3d>, result: Option<&mut u64>) -> (e: MgpError)
    ensures
        e == given(p is None || result is None),
        result matches Some(r) ==> *final(r) == match p {
            Some(x) => x.x,
            None => *r,
        },
{
    match (p, result) {
        (Some(x), Some(r)) => {
            *r = x.x;
            MgpError::NoError
        },
        _ => MgpError::InvalidArgument,
    }
}

/// Tells the y coordinate of a point in space.
pub fn mgp_point_3d_get_y(p: Option<&mgp_point_3d>, result: Option<&mut u64>) -> (e: MgpError)
    ensures
        e == given(p is None || result is None),
        result matches Some(r) ==> *final(r) == match p {
            Some(x) => x.y,
            None => *r,
        },
{
    match (p, result) {
        (Some(x), Some(r)) => {
            *r = x.y;
            MgpError::NoError
        },
        _ => MgpError::InvalidArgument,
    }
}

/// Tells the z coordinate of a point in space.
pub fn mgp_point_3d_get_z(p: Option<&mgp_point_3d>, result: Option<&mut u64>) -> (e: MgpError)
    ensures
        e == given(p is None || result is None),
        result matches Some(r) ==> *final(r) == match p {
            Some(x) => x.z,
            None => *r,
        },
{
    match (p, result) {
        (Some(x), Some(r)) => {
            *r = x.z;
            MgpError::NoError
        },
        _ => MgpError::InvalidArgument,
    }
}

/// Tells the reference system of a point in space.
pub fn mgp_point_3d_get_srid(p: Option<&mgp_point_3d>, result: Option<&mut u16>) -> (e: MgpError)
    ensures
        e == given(p is None || result is None),
        result matches Some(r) ==> *final(r) == match p {
            Some(x) => x.crs,
            None => *r,
        },
{
    match (p, result) {
        (Some(x), Some(r)) => {
            *r = x.crs;
            MgpError::NoError
        },
        _ => MgpError::InvalidArgument,
    }
}

/// Copies a point in space.
pub fn mgp_point_3d_copy(p: Option<&mgp_point_3d>, _memory: Option<&mgp_memory>, result: Option<&mut Option<mgp_point_3d>>) -> (e: MgpError)
    ensures
        e == given(p is None || result is None),
        result matches Some(r) ==> *final(r) == match p {
            Some(x) => Some(*x),
            None => *r,
        },
{
    match (p, result) {
        (Some(x), Some(r)) => {
            *r = Some(*x);
            MgpError::NoError
        },
        _ => MgpError::InvalidArgument,
    }
}

/// Tells whether two points in space are the same.
pub fn mgp_point_3d_equal(p1: Option<&mgp_point_3d>, p2: Option<&mgp_point_3d>, result: Option<&mut i32>) -> (e: MgpError)
    ensures
        e == given(p1 is None || p2 is None || result is None),
        result matches Some(r) ==> *final(r) == match (p1, p2) {
            (Some(a), Some(b)) => flag(a.crs == b.crs && same_number(a.x, b.x) && same_number(a.y, b.y) && same_number(a.z, b.z)),
            _ => *r,
        },
{
    match (p1, p2, result) {
        (Some(a), Some(b), Some(r)) => {
            *r = to_flag(a.crs == b.crs && are_same_number(a.x, b.x) && are_same_number(a.y, b.y) && are_same_number(a.z, b.z));
            MgpError::NoError
        },
        _ => MgpError::InvalidArgument,
    }
}

/// Makes a member of an enumeration.
pub fn mgp_enum_make(
    enum_type: Option<&str>,
    value: Option<&str>,
    _memory: Option<&mgp_memory>,
    result: Option<&mut Option<mgp_enum>>,
) -> (e: MgpError)
    ensures
        e == given(enum_type is None || value is None || result is None),
        result matches Some(r) ==> opt_view(*final(r)) == match (enum_type, value) {
            (Some(t), Some(v)) => Some(Member { ty: t@, val: v@ }),
            _ => opt_view(*r),
        },
{
    match (enum_type, value, result) {
        (Some(t), Some(v), Some(r)) => {
            *r = Some(mgp_enum { ty: t.to_string(), val: v.to_string() });
            MgpError::NoError
        },
        _ => MgpError::InvalidArgument,
    }
}

/// Hands out the name of an enumeration.
pub fn mgp_enum_get_type_name(member: Option<&mgp_enum>, result: Option<&mut Option<String>>) -> (e: MgpError)
    ensures
        e == given(member is None || result is None),
        result matches Some(r) ==> opt_view(*final(r)) == match member {
            Some(x) => Some(x@.ty),
            None => opt_view(*r),
        },
{
    match (member, result) {
        (Some(x), Some(r)) => {
            *r = Some(x.ty.clone());
            MgpError::NoError
        },
        _ => MgpError::InvalidArgument,
    }
}

/// Hands out the name of a member of an enumeration.
pub fn mgp_enum_get_value_name(member: Option<&mgp_enum>, result: Option<&mut Option<String>>) -> (e: MgpError)
    ensures
        e == given(member is None || result is None),
        result matches Some(r) ==> opt_view(*final(r)) == match member {
            Some(x) => Some(x@.val),
            None => opt_view(*r),
        },
{
    match (member, result) {
        (Some(x), Some(r)) => {
            *r = Some(x.val.clone());
            MgpError::NoError
        },
        _ => MgpError::InvalidArgument,
    }
}

/// Copies a member of an enumeration.
pub fn mgp_enum_copy(member: Option<&mgp_enum>, _memory: Option<&mgp_memory>, result: Option<&mut Option<mgp_enum>>) -> (e: MgpError)
    ensures
        e == given(member is None || result is None),
        result matches Some(r) ==> opt_view(*final(r)) == match member {
            Some(x) => Some(x@),
            None => opt_view(*r),
        },
{
    match (member, result) {
        (Some(x), Some(r)) => {
            *r = Some(x.clone());
            MgpError::NoError
        },
        _ => MgpError::InvalidArgument,
    }
}

/// Tells whether two members are the same, of the same enumeration.
pub fn mgp_enum_equal(e1: Option<&mgp_enum>, e2: Option<&mgp_enum>, result: Option<&mut i32>) -> (e: MgpError)
    ensures
        e == given(e1 is None || e2 is None || result is None),
        result matches Some(r) ==> *final(r) == match (e1, e2) {
            (Some(a), Some(b)) => flag(a@ == b@),
            _ => *r,
        },
{
    match (e1, e2, result) {
        (Some(a), Some(b), Some(r)) => {
            *r = to_flag(a.ty == b.ty && a.val == b.val);
            MgpError::NoError
        },
        _ => MgpError::InvalidArgument,
    }
}

} // verus!
