//! seastamp: stamp longitude/latitude points with sea attributes.
//!
//! This crate holds the decisions behind the tool: which tabular format a file
//! name selects and what an output file is called, which region a `--region`
//! name resolves to and what is suggested for a near miss, which output columns
//! each module appends, and how the input is reduced to unique locations and
//! joined back. The geometry and all reading and writing of data belong to the
//! application around it.
use vstd::prelude::*;

pub mod cli;
pub mod config;
pub mod geo;
pub mod io;
pub mod modules;
pub mod pipeline;
pub mod text;

verus! {
} // verus!
