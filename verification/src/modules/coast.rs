//! Distance to the nearest coast: the column it appends and how a GSHHG
//! shoreline file is recognized in a data directory.
use vstd::prelude::*;
use std::path::PathBuf;
use vstd::string::StringExecFns;

use crate::modules::{output, spec_columns};
use crate::pipeline::{OutputKind, OutputSpec};
use crate::text::{chars_of, ends_with, ends_with_chars, starts_with, starts_with_chars};

verus! {

/// A GSHHG L1 (land/ocean boundary) shoreline file name: `GSHHS_*_L1.shp`.
pub open spec fn is_l1_shoreline_name(name: Seq<char>) -> bool {
    starts_with(name, "GSHHS_"@) && ends_with(name, "_L1.shp"@)
}

/// Whether a file name in a GSHHG resolution directory is the L1 shoreline
/// shapefile, the one `coast` measures against.
pub fn is_l1_shoreline(file_name: &str) -> (r: bool)
    ensures
        r == is_l1_shoreline_name(file_name@),
{
    let n = chars_of(file_name);
    starts_with_chars(n.as_slice(), chars_of("GSHHS_").as_slice()) && ends_with_chars(
        n.as_slice(),
        chars_of("_L1.shp").as_slice(),
    )
}

/// The single float column `coast` appends.
pub fn coast_outputs(column: &str) -> (r: Vec<OutputSpec>)
    ensures
        spec_columns(r@) == seq![(column@, OutputKind::Float)],
{
    let mut v: Vec<OutputSpec> = Vec::new();
    v.push(output(column, OutputKind::Float));
    assert(spec_columns(v@) =~= seq![(column@, OutputKind::Float)]);
    v
}

/// The error `coast` stops with when no shoreline data was given.
pub open spec fn coast_missing_data_message() -> Seq<char> {
    "coast requires --data <GSHHG shapefile directory or a GSHHS_*_L1.shp file>"@
}

/// What `coast` settles before it reads anything: shoreline data must have been
/// given, and it appends the one distance column. The application resolves the
/// region, reads the input and the shapefile and measures the distances.
pub fn run(data: &Option<PathBuf>, column: &str) -> (r: Result<Vec<OutputSpec>, String>)
    ensures
        data is None <==> r is Err,
        r matches Err(e) ==> e@ == coast_missing_data_message(),
        r matches Ok(v) ==> spec_columns(v@) == seq![(column@, OutputKind::Float)],
{
    if data.is_none() {
        return Err(
            String::from_str("coast requires --data <GSHHG shapefile directory or a GSHHS_*_L1.shp file>"),
        );
    }
    Ok(coast_outputs(column))
}

} // verus!
