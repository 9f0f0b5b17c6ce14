use vstd::prelude::*;

pub mod cache;
pub mod clauses;
pub mod cost;
pub mod egraph;
pub mod estimate_laws;
pub mod explain;
pub mod expression;
pub mod fold;
pub mod generate;
pub mod ids;
pub mod laws;
pub mod logical;
pub mod matching;
pub mod meaning;
pub mod optimizing;
pub mod physical;
pub mod preservation;
pub mod query;
pub mod rules;
pub mod stats;
pub mod value;

verus! {

}
