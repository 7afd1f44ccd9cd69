//! Nearest location in a second table: the columns it appends.
use vstd::prelude::*;

use crate::modules::{output, spec_columns};
use crate::pipeline::{OutputKind, OutputSpec};

verus! {

/// The columns `nearest` appends: the nearest location's name, then the
/// distance to it.
pub fn nearest_outputs(name_column: &str, dist_column: &str) -> (r: Vec<OutputSpec>)
    ensures
        spec_columns(r@) == seq![(name_column@, OutputKind::Text), (dist_column@, OutputKind::Float)],
{
    let mut v: Vec<OutputSpec> = Vec::new();
    v.push(output(name_column, OutputKind::Text));
    v.push(output(dist_column, OutputKind::Float));
    assert(spec_columns(v@) =~= seq![
        (name_column@, OutputKind::Text),
        (dist_column@, OutputKind::Float),
    ]);
    v
}

} // verus!
