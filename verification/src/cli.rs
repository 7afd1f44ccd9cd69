//! The command-line argument values the library works with.
//!
//! These are the plain data behind the `seastamp` command line. The parser
//! itself lives with the application, which fills these in; the library only
//! reads them.
use std::path::PathBuf;
use vstd::prelude::*;

use vstd::string::StringExecFns;
use crate::config::{iho_names, known_names, preset_names, IhoEntry, AUTO_REGION};

verus! {

/// A path on disk, carried through unchanged.
#[verifier::external_type_specification]
#[verifier::external_body]
pub struct ExPathBuf(PathBuf);

/// Input / output tabular format. `Auto` infers from the file extension and
/// falls back to Parquet when the extension is unknown.
#[derive(Clone, Copy, Debug, PartialEq, Eq, Structural)]
pub enum Format {
    Auto,
    Parquet,
    Csv,
    Tsv,
    CsvGz,
    TsvGz,
}

/// Unit for a distance-valued output column.
#[derive(Clone, Copy, Debug, PartialEq, Eq, Structural)]
pub enum DistUnit {
    Km,
    M,
}

/// Options every module shares: input, output, format, coordinate columns, and
/// the rounding/threading knobs that drive de-duplication and parallelism.
#[derive(Debug)]
pub struct CommonArgs {
    /// Input file (parquet, csv, tsv, csv.gz, tsv.gz)
    pub input: PathBuf,
    /// Output file (default: `<input stem>.<module>.<input format>` beside the input)
    pub output: Option<PathBuf>,
    /// TOML config file. CLI flags override individual fields.
    pub config: Option<PathBuf>,
    /// Input format (default: inferred from the extension, else parquet)
    pub in_format: Format,
    /// Output format (default: inferred from the output path, else parquet)
    pub out_format: Format,
    /// Overwrite input columns that clash with the output columns
    pub overwrite: bool,
    /// Longitude column name
    pub lon_col: String,
    /// Latitude column name
    pub lat_col: String,
    /// Decimal places longitude/latitude are rounded to before de-duplicating
    pub decimals: u32,
    /// Worker threads (default: all logical cores)
    pub threads: Option<usize>,
}

/// Arguments of the `depth` command.
#[derive(Debug)]
pub struct DepthArgs {
    pub common: CommonArgs,
    /// GEBCO bathymetry NetCDF file
    pub data: Option<PathBuf>,
    /// Report depth as positive below sea level
    pub positive: bool,
    /// Append an `on_land` boolean column
    pub on_land: bool,
    /// Output column name
    pub column: String,
}

/// Arguments of the `regions` listing, which takes no input table.
#[derive(Debug)]
pub struct RegionsArgs {
    /// IHO Sea Areas polygons (GeoJSON or shapefile); the presets when absent
    pub data: Option<PathBuf>,
    /// Property / attribute field holding the area name
    pub name_field: String,
    /// Keep only areas whose name contains this text (case-insensitive)
    pub name: Option<String>,
    /// Also write the list to a file
    pub output: Option<PathBuf>,
    /// Output format (default: inferred from the output path, else parquet)
    pub out_format: Format,
    /// Do not print the table, only write it
    pub quiet: bool,
}

/// Arguments of the `nearest` command.
#[derive(Debug)]
pub struct NearestArgs {
    pub common: CommonArgs,
    /// Reference table: the second set of locations to measure the distance to
    pub to: PathBuf,
    /// Format of the reference table (default: inferred from the extension)
    pub to_format: Format,
    /// Longitude column in the reference table
    pub to_lon_col: String,
    /// Latitude column in the reference table
    pub to_lat_col: String,
    /// Column in the reference table holding each location's name
    pub name_field: String,
    /// Distance unit for the output distance column
    pub unit: DistUnit,
    /// Output column for the nearest location's name
    pub name_column: String,
    /// Output column for the distance to the nearest location
    pub dist_column: String,
}

/// Every name `--region` offers, in order: `auto`, then the presets, then the
/// IHO Sea Areas of `iho`.
pub open spec fn offered_region_names(iho: Seq<IhoEntry>) -> Seq<Seq<char>> {
    seq![AUTO_REGION@] + preset_names() + iho_names(iho)
}

/// Every name `--region` understands: `auto`, then the presets, then the IHO
/// Sea Areas. The antimeridian crossers are in the list even though they cannot
/// serve as a crop box, because the error they raise names the workaround.
pub fn region_names(iho: &[IhoEntry]) -> (r: Vec<String>)
    ensures
        r@.map_values(|s: String| s@) == offered_region_names(iho@),
{
    let mut out: Vec<String> = Vec::new();
    out.push(String::from_str(AUTO_REGION));
    let mut rest = known_names(iho);
    let ghost first = out@;
    let ghost tail = rest@;
    out.append(&mut rest);
    assert(out@ == first + tail);
    assert(first.map_values(|s: String| s@) =~= seq![AUTO_REGION@]);
    assert((first + tail).map_values(|s: String| s@) =~= first.map_values(|s: String| s@)
        + tail.map_values(|s: String| s@));
    assert(out@.map_values(|s: String| s@) =~= offered_region_names(iho@));
    out
}

} // verus!
