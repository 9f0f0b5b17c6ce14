//! Identifiers that stand for the names of labels, properties and edge types.
use vstd::prelude::*;

verus! {

/// The identifier of a vertex label.
#[derive(Clone, Copy, Debug, PartialEq, Eq, Structural)]
pub struct LabelId {
    pub id: u32,
}

/// The identifier of a property key.
#[derive(Clone, Copy, Debug, PartialEq, Eq, Structural)]
pub struct PropertyId {
    pub id: u32,
}

/// The identifier of an edge type.
#[derive(Clone, Copy, Debug, PartialEq, Eq, Structural)]
pub struct EdgeTypeId {
    pub id: u32,
}

impl LabelId {
    pub fn new(id: u32) -> (r: Self)
        ensures
            r == (LabelId { id }),
    {
        LabelId { id }
    }

    pub fn as_uint(&self) -> (r: u32)
        ensures
            r == self.id,
    {
        self.id
    }
}

impl PropertyId {
    pub fn new(id: u32) -> (r: Self)
        ensures
            r == (PropertyId { id }),
    {
        PropertyId { id }
    }

    pub fn as_uint(&self) -> (r: u32)
        ensures
            r == self.id,
    {
        self.id
    }
}

impl EdgeTypeId {
    pub fn new(id: u32) -> (r: Self)
        ensures
            r == (EdgeTypeId { id }),
    {
        EdgeTypeId { id }
    }

    pub fn as_uint(&self) -> (r: u32)
        ensures
            r == self.id,
    {
        self.id
    }
}

} // verus!
