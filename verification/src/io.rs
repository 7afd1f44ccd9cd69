//! The supported tabular formats and how a file name selects one.
use vstd::prelude::*;

use crate::cli::Format;
use crate::text::{ascii_lower_seq, chars_of, ends_with, ends_with_chars, lower_ascii};

verus! {

/// The format a file name implies, going by its extension, case-insensitively.
/// Unknown extensions fall back to Parquet, the project default.
pub open spec fn format_of_name(name: Seq<char>) -> Format {
    let n = ascii_lower_seq(name);
    if ends_with(n, ".parquet"@) || ends_with(n, ".pq"@) {
        Format::Parquet
    } else if ends_with(n, ".tsv.gz"@) {
        Format::TsvGz
    } else if ends_with(n, ".csv.gz"@) {
        Format::CsvGz
    } else if ends_with(n, ".tsv"@) {
        Format::Tsv
    } else if ends_with(n, ".csv"@) {
        Format::Csv
    } else {
        Format::Parquet
    }
}

/// What [`resolve_format`] returns: an explicit format wins, `Auto` goes by the
/// file name.
pub open spec fn resolved_format(name: Seq<char>, explicit: Format) -> Format {
    if explicit != Format::Auto {
        explicit
    } else {
        format_of_name(name)
    }
}

/// The canonical extension of a format; `Auto` maps to parquet.
pub open spec fn ext_of(fmt: Format) -> Seq<char> {
    match fmt {
        Format::Parquet | Format::Auto => "parquet"@,
        Format::Csv => "csv"@,
        Format::Tsv => "tsv"@,
        Format::CsvGz => "csv.gz"@,
        Format::TsvGz => "tsv.gz"@,
    }
}

/// Resolve `Auto` to a concrete format from the file name (the last component
/// of the path, empty when there is none). Unknown extensions fall back to
/// Parquet, the project default.
pub fn resolve_format(file_name: &str, explicit: Format) -> (r: Format)
    ensures
        r == resolved_format(file_name@, explicit),
        r != Format::Auto,
{
    if explicit != Format::Auto {
        return explicit;
    }
    let name = lower_ascii(chars_of(file_name).as_slice());
    let n = name.as_slice();
    if ends_with_chars(n, chars_of(".parquet").as_slice()) || ends_with_chars(
        n,
        chars_of(".pq").as_slice(),
    ) {
        Format::Parquet
    } else if ends_with_chars(n, chars_of(".tsv.gz").as_slice()) {
        Format::TsvGz
    } else if ends_with_chars(n, chars_of(".csv.gz").as_slice()) {
        Format::CsvGz
    } else if ends_with_chars(n, chars_of(".tsv").as_slice()) {
        Format::Tsv
    } else if ends_with_chars(n, chars_of(".csv").as_slice()) {
        Format::Csv
    } else {
        Format::Parquet
    }
}

/// The canonical file extension for a format, used to build default output
/// names. `Auto` has no extension of its own and maps to parquet.
pub fn format_ext(fmt: Format) -> (r: &'static str)
    ensures
        r@ == ext_of(fmt),
{
    match fmt {
        Format::Parquet | Format::Auto => "parquet",
        Format::Csv => "csv",
        Format::Tsv => "tsv",
        Format::CsvGz => "csv.gz",
        Format::TsvGz => "tsv.gz",
    }
}

/// Whether a format is tab separated.
pub fn is_tab(fmt: Format) -> (r: bool)
    ensures
        r == (fmt == Format::Tsv || fmt == Format::TsvGz),
{
    matches!(fmt, Format::Tsv | Format::TsvGz)
}

/// Whether a format is gzip compressed.
pub fn is_gz(fmt: Format) -> (r: bool)
    ensures
        r == (fmt == Format::CsvGz || fmt == Format::TsvGz),
{
    matches!(fmt, Format::CsvGz | Format::TsvGz)
}


/// Format inference ignores ASCII case: two file names that agree after ASCII
/// lower-casing select the same format, whatever format was asked for.
pub proof fn lemma_format_ignores_ascii_case(a: Seq<char>, b: Seq<char>, explicit: Format)
    requires
        ascii_lower_seq(a) == ascii_lower_seq(b),
    ensures
        resolved_format(a, explicit) == resolved_format(b, explicit),
{
}

} // verus!
