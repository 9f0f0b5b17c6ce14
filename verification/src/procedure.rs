//! The interface that query modules are written against: values, lists, maps, paths, temporal
//! values, the registration of procedures and functions, and the results that they hand back.
//!
//! Every function answers with an [`codes::MgpError`] and writes what it yields through its
//! `result` argument. An argument that a caller may leave out is an `Option`; so is a result that
//! may be absent.
#![allow(non_camel_case_types)]

pub mod calendar;
pub mod codes;
pub mod collections;
pub mod duration;
pub mod entities;
pub mod execution;
pub mod indices;
pub mod laws;
pub mod memory;
pub mod modules;
pub mod points;
pub mod property;
pub mod registration;
pub mod search;
pub mod stream;
pub mod temporal;
pub mod value;

use vstd::prelude::*;

verus! {

}
