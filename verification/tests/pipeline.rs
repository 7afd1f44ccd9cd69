use seastamp::geo::partition::owners;
use seastamp::pipeline::{check_clashes, gather, reduce_keys, OutputKind, OutputSpec};

fn spec(name: &str) -> OutputSpec {
    OutputSpec { name: name.to_string(), kind: OutputKind::Float }
}

#[test]
fn existing_output_column_errors_without_overwrite() {
    let cols = vec!["longitude".to_string(), "latitude".to_string(), "val".to_string()];
    let err = check_clashes(&cols, &[spec("val")], false).expect_err("a clashing column must fail");
    assert!(err.contains("--overwrite"), "unexpected error: {err}");
    assert!(err.contains("'val'"), "unexpected error: {err}");
    assert!(check_clashes(&cols, &[spec("val")], true).is_ok());
    assert!(check_clashes(&cols, &[spec("other")], false).is_ok());
}

#[test]
fn every_clash_is_named() {
    let cols = vec!["a".to_string(), "b".to_string()];
    let err = check_clashes(&cols, &[spec("b"), spec("c"), spec("a")], false).unwrap_err();
    assert_eq!(
        err,
        "the input already has output column(s) 'b', 'a'; pass --overwrite to replace them"
    );
}

#[test]
fn rows_reduce_to_unique_locations_in_order() {
    let keys = [
        Some((18000, 59000)),
        Some((24000, 60000)),
        None,
        Some((18000, 59000)),
        Some((i64::MIN, i64::MAX)),
        Some((24000, 60000)),
    ];
    let r = reduce_keys(&keys);
    assert_eq!(r.first_row, vec![0, 1, 4]);
    assert_eq!(r.row_slot, vec![Some(0), Some(1), None, Some(0), Some(2), Some(1)]);
}

#[test]
fn keys_that_differ_in_either_coordinate_stay_apart() {
    let keys = [Some((1, 2)), Some((2, 1)), Some((1, -2)), Some((-1, 2)), Some((1, 2))];
    let r = reduce_keys(&keys);
    assert_eq!(r.first_row, vec![0, 1, 2, 3]);
    assert_eq!(r.row_slot[4], Some(0));
    let empty = reduce_keys(&[None, None]);
    assert!(empty.first_row.is_empty());
    assert_eq!(empty.row_slot, vec![None, None]);
}

#[test]
fn duplicates_and_nulls_are_owned_correctly() {
    // members of the single partition of five locations, two of them unusable
    let parts = vec![vec![0, 1, 4]];
    assert_eq!(owners(&parts, 5), vec![Some(0), Some(0), None, None, Some(0)]);
}

#[test]
fn each_location_is_owned_by_its_partition() {
    let parts = vec![vec![2, 0], vec![1], vec![3, 4]];
    assert_eq!(owners(&parts, 6), vec![Some(0), Some(1), Some(0), Some(2), Some(2), None]);
    // a location listed twice goes to the later partition
    assert_eq!(owners(&[vec![0], vec![0]], 1), vec![Some(1)]);
}

#[test]
fn results_join_back_onto_every_row() {
    let keys = [Some((5, 5)), None, Some((7, 7)), Some((5, 5))];
    let r = reduce_keys(&keys);
    let results = vec!["first".to_string(), "second".to_string()];
    let rows = gather(&results, &r.row_slot);
    assert_eq!(
        rows,
        vec![Some("first".to_string()), None, Some("second".to_string()), Some("first".to_string())]
    );
    let none: Vec<Option<String>> = gather(&results, &[]);
    assert!(none.is_empty());
}
