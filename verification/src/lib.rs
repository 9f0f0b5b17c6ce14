//! A query planner for property graphs, graph algorithms, and the interface of query modules.
use vstd::prelude::*;

pub mod division;
pub mod graph;
pub mod planner;
pub mod procedure;
pub mod quantity;
pub mod text;

verus! {

}
