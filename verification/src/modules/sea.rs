//! Sea / ocean name: the column it appends, which files it reads, and how a
//! feature's name is cleaned.
use vstd::prelude::*;
use std::path::PathBuf;
use vstd::string::StringExecFns;

use crate::modules::{output, spec_columns};
use crate::pipeline::{OutputKind, OutputSpec};
use crate::text::{ascii_lower_seq, chars_of, lower_ascii, same_chars, to_text, trim_chars, trimmed};

verus! {

/// The single text column `sea` appends.
pub fn sea_outputs(column: &str) -> (r: Vec<OutputSpec>)
    ensures
        spec_columns(r@) == seq![(column@, OutputKind::Text)],
{
    let mut v: Vec<OutputSpec> = Vec::new();
    v.push(output(column, OutputKind::Text));
    assert(spec_columns(v@) =~= seq![(column@, OutputKind::Text)]);
    v
}

/// The kinds of polygon file the sea data can come in.
#[derive(Clone, Copy, Debug, PartialEq, Eq, Structural)]
pub enum FeatureFormat {
    GeoJson,
    Shapefile,
}

/// The polygon file kind an extension names, ASCII case-insensitively:
/// `.geojson` and `.json` are GeoJSON, `.shp` a shapefile, anything else
/// unsupported.
pub open spec fn feature_format_of(extension: Seq<char>) -> Option<FeatureFormat> {
    let e = ascii_lower_seq(extension);
    if e == "geojson"@ || e == "json"@ {
        Some(FeatureFormat::GeoJson)
    } else if e == "shp"@ {
        Some(FeatureFormat::Shapefile)
    } else {
        None
    }
}

/// The polygon file kind for a data path's extension (empty when it has none).
pub fn feature_format(extension: &str) -> (r: Option<FeatureFormat>)
    ensures
        r == feature_format_of(extension@),
{
    let e = lower_ascii(chars_of(extension).as_slice());
    if same_chars(e.as_slice(), chars_of("geojson").as_slice()) || same_chars(
        e.as_slice(),
        chars_of("json").as_slice(),
    ) {
        Some(FeatureFormat::GeoJson)
    } else if same_chars(e.as_slice(), chars_of("shp").as_slice()) {
        Some(FeatureFormat::Shapefile)
    } else {
        None
    }
}

/// A feature's name with surrounding white space removed, or nothing when that
/// leaves it empty. Features without a usable name are skipped.
pub fn clean_name(raw: &str) -> (r: Option<String>)
    ensures
        match r {
            Some(s) => s@ == trimmed(raw@) && s@.len() > 0,
            None => trimmed(raw@).len() == 0,
        },
{
    let t = trim_chars(chars_of(raw).as_slice());
    if t.len() == 0 {
        None
    } else {
        Some(to_text(t.as_slice()))
    }
}

/// The error `sea` stops with when no sea polygons were given.
pub open spec fn sea_missing_data_message() -> Seq<char> {
    "sea requires --data <IHO Sea Areas GeoJSON or shapefile>"@
}

/// What `sea` settles before it reads anything: a sea-areas file must have
/// been given, and it appends the one name column. The application resolves
/// the region, reads the input and the polygons and locates the points.
pub fn run(data: &Option<PathBuf>, column: &str) -> (r: Result<Vec<OutputSpec>, String>)
    ensures
        data is None <==> r is Err,
        r matches Err(e) ==> e@ == sea_missing_data_message(),
        r matches Ok(v) ==> spec_columns(v@) == seq![(column@, OutputKind::Text)],
{
    if data.is_none() {
        return Err(String::from_str("sea requires --data <IHO Sea Areas GeoJSON or shapefile>"));
    }
    Ok(sea_outputs(column))
}

} // verus!
