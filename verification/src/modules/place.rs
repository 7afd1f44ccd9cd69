//! Nearest country and municipality: the columns it appends and how an
//! attribute value is picked from a list of candidate fields.
use vstd::prelude::*;
use std::path::PathBuf;
use vstd::string::StringExecFns;

use crate::modules::{output, spec_columns};
use crate::pipeline::{OutputKind, OutputSpec};
use crate::text::{chars_of, same_chars, to_text, trim_chars, trimmed};

verus! {

/// Candidate attribute fields for the country name, tried in order per record.
pub const COUNTRY_NAME_FIELDS: [&'static str; 4] = ["NAME", "ADMIN", "NAME_EN", "NAME_LONG"];

/// Candidate attribute fields for the ISO alpha-3 code. Natural Earth stores
/// "-99" where a country has no agreed code; that placeholder is skipped.
pub const COUNTRY_CODE_FIELDS: [&'static str; 3] = ["ISO_A3", "ADM0_A3", "ISO_A3_EH"];

/// Candidate attribute fields for the municipality name (GISCO LAU).
pub const LAU_NAME_FIELDS: [&'static str; 3] = ["LAU_NAME", "LAU_LABEL", "NAME"];

/// A candidate value is usable when, trimmed, it is neither empty nor the
/// "-99" missing-code placeholder.
pub open spec fn usable(value: Option<String>) -> bool {
    match value {
        Some(s) => trimmed(s@).len() > 0 && trimmed(s@) != "-99"@,
        None => false,
    }
}

/// The first usable candidate value, trimmed. `values[i]` is the record's text
/// value in the `i`-th candidate field, or nothing when the field is absent or
/// holds no text.
pub fn field_string(values: &[Option<String>]) -> (r: Option<String>)
    ensures
        match r {
            Some(s) => exists|i: int|
                0 <= i < values.len() && usable(values@[i]) && (forall|j: int|
                    0 <= j < i ==> !usable(#[trigger] values@[j])) && s@ == trimmed(
                    values@[i]->0@,
                ),
            None => forall|i: int| 0 <= i < values.len() ==> !usable(#[trigger] values@[i]),
        },
{
    let missing = chars_of("-99");
    let mut i: usize = 0;
    while i < values.len()
        invariant
            i <= values.len(),
            missing@ == "-99"@,
            forall|j: int| 0 <= j < i ==> !usable(#[trigger] values@[j]),
        decreases values.len() - i,
    {
        match &values[i] {
            Some(s) => {
                let t = trim_chars(chars_of(s.as_str()).as_slice());
                if t.len() > 0 && !same_chars(t.as_slice(), missing.as_slice()) {
                    assert(usable(values@[i as int]));
                    return Some(to_text(t.as_slice()));
                }
            },
            None => {},
        }
        i = i + 1;
    }
    None
}

/// The columns `place` appends: country, country code and municipality, and
/// the distance to the municipality only when a municipality set is given.
pub open spec fn place_columns(has_municipalities: bool) -> Seq<(Seq<char>, OutputKind)> {
    let base = seq![
        ("country"@, OutputKind::Text),
        ("country_code"@, OutputKind::Text),
        ("municipality"@, OutputKind::Text),
    ];
    if has_municipalities {
        base.push(("municipality_dist"@, OutputKind::Float))
    } else {
        base
    }
}

/// The columns `place` appends.
pub fn place_outputs(has_municipalities: bool) -> (r: Vec<OutputSpec>)
    ensures
        spec_columns(r@) == place_columns(has_municipalities),
        has_municipalities ==> spec_columns(r@) == seq![
            ("country"@, OutputKind::Text),
            ("country_code"@, OutputKind::Text),
            ("municipality"@, OutputKind::Text),
            ("municipality_dist"@, OutputKind::Float),
        ],
        !has_municipalities ==> spec_columns(r@) == seq![
            ("country"@, OutputKind::Text),
            ("country_code"@, OutputKind::Text),
            ("municipality"@, OutputKind::Text),
        ],
{
    let mut v: Vec<OutputSpec> = Vec::new();
    v.push(output("country", OutputKind::Text));
    v.push(output("country_code", OutputKind::Text));
    v.push(output("municipality", OutputKind::Text));
    if has_municipalities {
        v.push(output("municipality_dist", OutputKind::Float));
    }
    assert(spec_columns(v@) =~= place_columns(has_municipalities));
    v
}

/// The error `place` stops with when no country polygons were given.
pub open spec fn place_missing_countries_message() -> Seq<char> {
    "place requires --countries <Natural Earth countries shapefile>"@
}

/// What `place` settles before it reads anything: a countries shapefile must
/// have been given, and the columns it appends turn on whether a municipality
/// set was given too. The application resolves the region, reads the input and
/// the shapefiles and locates the points.
pub fn run(countries: &Option<PathBuf>, municipalities: &Option<PathBuf>) -> (r: Result<
    Vec<OutputSpec>,
    String,
>)
    ensures
        countries is None <==> r is Err,
        r matches Err(e) ==> e@ == place_missing_countries_message(),
        r matches Ok(v) ==> spec_columns(v@) == place_columns(municipalities is Some),
{
    if countries.is_none() {
        return Err(String::from_str("place requires --countries <Natural Earth countries shapefile>"));
    }
    Ok(place_outputs(municipalities.is_some()))
}


/// `place` appends the country, its code and the municipality as text, and,
/// only when a municipality set is given, the distance to the municipality as
/// a number after them.
pub proof fn lemma_place_columns_are_documented(has_municipalities: bool)
    ensures
        has_municipalities ==> place_columns(has_municipalities) == seq![
            ("country"@, OutputKind::Text),
            ("country_code"@, OutputKind::Text),
            ("municipality"@, OutputKind::Text),
            ("municipality_dist"@, OutputKind::Float),
        ],
        !has_municipalities ==> place_columns(has_municipalities) == seq![
            ("country"@, OutputKind::Text),
            ("country_code"@, OutputKind::Text),
            ("municipality"@, OutputKind::Text),
        ],
        place_columns(true) == place_columns(false).push(("municipality_dist"@, OutputKind::Float)),
{
    assert(place_columns(true) =~= place_columns(false).push(("municipality_dist"@, OutputKind::Float)));
}

} // verus!
