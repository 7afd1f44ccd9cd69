//! Bathymetric depth: the columns it appends.
use vstd::prelude::*;

use crate::cli::DepthArgs;
use crate::modules::{output, spec_columns};
use crate::pipeline::{OutputKind, OutputSpec};
use vstd::string::StringExecFns;

verus! {

/// The columns `depth` appends: the depth itself, and with `--on-land` a
/// boolean `on_land` column after it.
pub open spec fn depth_columns(column: Seq<char>, on_land: bool) -> Seq<(Seq<char>, OutputKind)> {
    if on_land {
        seq![(column, OutputKind::Float), ("on_land"@, OutputKind::Bool)]
    } else {
        seq![(column, OutputKind::Float)]
    }
}

/// The columns `depth` appends.
pub fn depth_outputs(column: &str, on_land: bool) -> (r: Vec<OutputSpec>)
    ensures
        spec_columns(r@) == depth_columns(column@, on_land),
{
    let mut v: Vec<OutputSpec> = Vec::new();
    v.push(output(column, OutputKind::Float));
    if on_land {
        v.push(output("on_land", OutputKind::Bool));
    }
    assert(spec_columns(v@) =~= depth_columns(column@, on_land));
    v
}

/// The error `depth` stops with when no bathymetry file was given.
pub open spec fn missing_data_message() -> Seq<char> {
    "depth requires --data <GEBCO NetCDF file>"@
}

/// What `depth` settles before it reads anything: a GEBCO file must have been
/// given, and the columns it will append follow from `--column` and
/// `--on-land`. The application reads the input, looks every location up in
/// the grid and writes the result.
pub fn run(args: &DepthArgs) -> (r: Result<Vec<OutputSpec>, String>)
    ensures
        args.data is None <==> r is Err,
        r matches Err(e) ==> e@ == missing_data_message(),
        r matches Ok(v) ==> spec_columns(v@) == depth_columns(args.column@, args.on_land),
{
    if args.data.is_none() {
        return Err(String::from_str("depth requires --data <GEBCO NetCDF file>"));
    }
    Ok(depth_outputs(args.column.as_str(), args.on_land))
}

} // verus!
