use seastamp::cli::Format;
use seastamp::io::resolve_format;
use seastamp::modules::coast::{coast_outputs, is_l1_shoreline};
use seastamp::modules::default_output;
use seastamp::cli::{CommonArgs, DepthArgs};
use seastamp::modules::depth::{depth_outputs, run};
use seastamp::modules::nearest::nearest_outputs;
use seastamp::modules::place::{field_string, place_outputs};
use seastamp::modules::regions::{group_by_name, name_matches, name_width};
use seastamp::modules::sea::{clean_name, feature_format, sea_outputs, FeatureFormat};
use seastamp::pipeline::{OutputKind, OutputSpec};

fn columns(specs: &[OutputSpec]) -> Vec<(String, OutputKind)> {
    specs.iter().map(|s| (s.name.clone(), s.kind)).collect()
}

/// The default output path for an input path, with the name the library
/// gives it placed beside the input.
fn d(path: &str, fmt: Format) -> String {
    let p = std::path::Path::new(path);
    let name = default_output(
        p.file_name().and_then(|s| s.to_str()),
        p.file_stem().and_then(|s| s.to_str()),
        "sea",
        fmt,
    );
    match p.parent() {
        Some(dir) if !dir.as_os_str().is_empty() => dir.join(name).to_string_lossy().into_owned(),
        _ => name,
    }
}

#[test]
fn default_output_follows_input_format() {
    assert_eq!(d("dir/cores.parquet", Format::Auto), "dir/cores.sea.parquet");
    assert_eq!(d("cores.parquet", Format::Auto), "cores.sea.parquet");
    assert_eq!(d("cores.csv", Format::Auto), "cores.sea.csv");
    assert_eq!(d("cores.tsv", Format::Auto), "cores.sea.tsv");
    // the whole ".csv.gz" is replaced: no stray ".csv" in the stem
    assert_eq!(d("cores.csv.gz", Format::Auto), "cores.sea.csv.gz");
    // ".pq" reads as parquet and normalizes to the canonical extension
    assert_eq!(d("cores.pq", Format::Auto), "cores.sea.parquet");
    // an explicit --in-format wins over the extension
    assert_eq!(d("cores.dat", Format::Tsv), "cores.sea.tsv");
    // unrecognized extension: parquet, the project default
    assert_eq!(d("cores.dat", Format::Auto), "cores.sea.parquet");
}

#[test]
fn default_output_edge_cases() {
    // the recognized extension is stripped case-insensitively, keeping the stem's case
    assert_eq!(d("Cores.CSV.GZ", Format::Auto), "Cores.coast.csv.gz".replace("coast", "sea"));
    // no usable file name at all
    assert_eq!(default_output(None, None, "depth", Format::Auto), "output.depth.parquet");
    // the default output reads back as the input's format
    for name in ["a.csv", "a.tsv.gz", "a.pq", "a.dat", "a.CSV"] {
        let out = d(name, Format::Auto);
        assert_eq!(resolve_format(&out, Format::Auto), resolve_format(name, Format::Auto));
    }
}

#[test]
fn module_output_columns() {
    assert_eq!(columns(&coast_outputs("dist_to_coast")), vec![("dist_to_coast".to_string(), OutputKind::Float)]);
    assert_eq!(columns(&sea_outputs("sea_name")), vec![("sea_name".to_string(), OutputKind::Text)]);
    assert_eq!(
        columns(&depth_outputs("bathymetry", true)),
        vec![("bathymetry".to_string(), OutputKind::Float), ("on_land".to_string(), OutputKind::Bool)]
    );
    assert_eq!(columns(&depth_outputs("bathymetry", false)).len(), 1);
    assert_eq!(
        columns(&nearest_outputs("nearest_name", "nearest_dist")),
        vec![("nearest_name".to_string(), OutputKind::Text), ("nearest_dist".to_string(), OutputKind::Float)]
    );
    let place: Vec<String> = place_outputs(true).iter().map(|s| s.name.clone()).collect();
    assert_eq!(place, vec!["country", "country_code", "municipality", "municipality_dist"]);
    assert_eq!(place_outputs(false).len(), 3);
}

#[test]
fn gshhg_l1_files_are_recognized() {
    assert!(is_l1_shoreline("GSHHS_f_L1.shp"));
    assert!(!is_l1_shoreline("GSHHS_f_L2.shp"));
    assert!(!is_l1_shoreline("gshhs_f_L1.shp"));
    assert!(!is_l1_shoreline("GSHHS_f_L1.dbf"));
}

#[test]
fn sea_data_kind_and_names() {
    assert_eq!(feature_format("geojson"), Some(FeatureFormat::GeoJson));
    assert_eq!(feature_format("JSON"), Some(FeatureFormat::GeoJson));
    assert_eq!(feature_format("shp"), Some(FeatureFormat::Shapefile));
    assert_eq!(feature_format("gpkg"), None);
    assert_eq!(feature_format(""), None);
    assert_eq!(clean_name("  North Sea \t"), Some("North Sea".to_string()));
    assert_eq!(clean_name(" \u{3000} "), None);
    assert_eq!(clean_name(""), None);
}

#[test]
fn place_fields_skip_empty_and_placeholder_values() {
    let v = |s: &str| Some(s.to_string());
    assert_eq!(field_string(&[None, v("  "), v(" Sweden ")]), Some("Sweden".to_string()));
    assert_eq!(field_string(&[v("-99"), v("SWE")]), Some("SWE".to_string()));
    assert_eq!(field_string(&[v(" -99 "), None]), None);
    assert_eq!(field_string(&[]), None);
}

#[test]
fn region_listing_helpers() {
    assert!(name_matches("Bering Sea", "bering"));
    assert!(name_matches("Bering Sea", "SEA"));
    assert!(!name_matches("Bering Sea", "baltic"));
    assert_eq!(name_width(&[]), 4);
    assert_eq!(name_width(&["abc".to_string()]), 4);
    assert_eq!(name_width(&["Sea of Okhotsk".to_string(), "Kara".to_string()]), 14);
    assert_eq!(name_width(&["Åland".to_string()]), 5);
}

#[test]
fn one_group_per_name_sorted() {
    let names: Vec<String> = ["Pacific Ocean", "Adriatic Sea", "Pacific Ocean", "Southern Ocean", "Adriatic Sea"]
        .iter()
        .map(|s| s.to_string())
        .collect();
    let groups = group_by_name(&names);
    let listed: Vec<(&str, Vec<usize>)> =
        groups.iter().map(|g| (g.name.as_str(), g.members.clone())).collect();
    assert_eq!(
        listed,
        vec![
            ("Adriatic Sea", vec![1, 4]),
            ("Pacific Ocean", vec![0, 2]),
            ("Southern Ocean", vec![3]),
        ]
    );
    // byte order, as `String`'s own ordering: capitals before lower case, a
    // prefix before its extensions
    let names: Vec<String> = ["sea", "Sea", "Se", "Åland", "Zed"].iter().map(|s| s.to_string()).collect();
    let order: Vec<String> = group_by_name(&names).into_iter().map(|g| g.name).collect();
    let mut expected = names.clone();
    expected.sort();
    assert_eq!(order, expected);
    assert!(group_by_name(&[]).is_empty());
}

fn depth_args(data: Option<&str>, on_land: bool) -> DepthArgs {
    DepthArgs {
        common: CommonArgs {
            input: "cores.parquet".into(),
            output: None,
            config: None,
            in_format: Format::Auto,
            out_format: Format::Auto,
            overwrite: false,
            lon_col: "longitude".to_string(),
            lat_col: "latitude".to_string(),
            decimals: 4,
            threads: None,
        },
        data: data.map(|d| d.into()),
        positive: false,
        on_land,
        column: "depth_m".to_string(),
    }
}

#[test]
fn depth_needs_its_data_file() {
    let err = run(&depth_args(None, false)).unwrap_err();
    assert_eq!(err, "depth requires --data <GEBCO NetCDF file>");
    let cols = run(&depth_args(Some("gebco.nc"), true)).unwrap();
    assert_eq!(
        columns(&cols),
        vec![("depth_m".to_string(), OutputKind::Float), ("on_land".to_string(), OutputKind::Bool)]
    );
}

#[test]
fn coast_sea_and_place_need_their_data() {
    let err = seastamp::modules::coast::run(&None, "dist_to_coast").unwrap_err();
    assert_eq!(err, "coast requires --data <GSHHG shapefile directory or a GSHHS_*_L1.shp file>");
    let cols = seastamp::modules::coast::run(&Some("gshhg".into()), "dist_to_coast").unwrap();
    assert_eq!(columns(&cols), vec![("dist_to_coast".to_string(), OutputKind::Float)]);

    let err = seastamp::modules::sea::run(&None, "sea_name").unwrap_err();
    assert_eq!(err, "sea requires --data <IHO Sea Areas GeoJSON or shapefile>");
    let cols = seastamp::modules::sea::run(&Some("iho.geojson".into()), "sea_name").unwrap();
    assert_eq!(columns(&cols), vec![("sea_name".to_string(), OutputKind::Text)]);

    let err = seastamp::modules::place::run(&None, &Some("lau.shp".into())).unwrap_err();
    assert_eq!(err, "place requires --countries <Natural Earth countries shapefile>");
    let cols = seastamp::modules::place::run(&Some("ne.shp".into()), &None).unwrap();
    assert_eq!(cols.len(), 3);
    let cols = seastamp::modules::place::run(&Some("ne.shp".into()), &Some("lau.shp".into())).unwrap();
    assert_eq!(cols[3].name, "municipality_dist");
}

#[test]
fn name_filter_lower_cases_both_sides() {
    assert!(name_matches("Barentsz Sea", "BARENTSZ"));
    assert!(name_matches("SEA OF OKHOTSK", "okhotsk"));
    assert!(name_matches("Ægean", "æg"));
}
