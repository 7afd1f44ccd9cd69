use seastamp::cli::Format;
use seastamp::io::{format_ext, is_gz, is_tab, resolve_format};

#[test]
fn resolve_format_reads_the_extension() {
    assert_eq!(resolve_format("cores.parquet", Format::Auto), Format::Parquet);
    assert_eq!(resolve_format("cores.PQ", Format::Auto), Format::Parquet);
    assert_eq!(resolve_format("cores.tsv.gz", Format::Auto), Format::TsvGz);
    assert_eq!(resolve_format("cores.CSV.GZ", Format::Auto), Format::CsvGz);
    assert_eq!(resolve_format("cores.tsv", Format::Auto), Format::Tsv);
    assert_eq!(resolve_format("cores.csv", Format::Auto), Format::Csv);
    // unknown, missing and misleading extensions fall back to parquet
    assert_eq!(resolve_format("cores.dat", Format::Auto), Format::Parquet);
    assert_eq!(resolve_format("", Format::Auto), Format::Parquet);
    assert_eq!(resolve_format("csv", Format::Auto), Format::Parquet);
    assert_eq!(resolve_format("cores.gz", Format::Auto), Format::Parquet);
}

#[test]
fn an_explicit_format_wins() {
    assert_eq!(resolve_format("cores.csv", Format::Tsv), Format::Tsv);
    assert_eq!(resolve_format("cores.parquet", Format::CsvGz), Format::CsvGz);
}

#[test]
fn format_extensions_and_layout() {
    assert_eq!(format_ext(Format::Auto), "parquet");
    assert_eq!(format_ext(Format::Parquet), "parquet");
    assert_eq!(format_ext(Format::Csv), "csv");
    assert_eq!(format_ext(Format::Tsv), "tsv");
    assert_eq!(format_ext(Format::CsvGz), "csv.gz");
    assert_eq!(format_ext(Format::TsvGz), "tsv.gz");
    assert!(is_tab(Format::Tsv) && is_tab(Format::TsvGz) && !is_tab(Format::Csv));
    assert!(is_gz(Format::CsvGz) && is_gz(Format::TsvGz) && !is_gz(Format::Tsv));
}
