use seastamp::cli::region_names;
use seastamp::config::{region_bbox, IhoEntry, RegionError};

fn iho_table() -> Vec<IhoEntry> {
    vec![
        IhoEntry { name: "Adriatic Sea".to_string(), crosses: false },
        IhoEntry { name: "Barentsz Sea".to_string(), crosses: false },
        IhoEntry { name: "Bering Sea".to_string(), crosses: true },
    ]
}

#[test]
fn region_names_lists_auto_presets_then_iho() {
    let names = region_names(&iho_table());
    assert_eq!(
        names,
        vec![
            "auto", "global", "baltic", "norway", "arctic", "atlantic", "europe",
            "mediterranean", "Adriatic Sea", "Barentsz Sea", "Bering Sea"
        ]
    );
}

#[test]
fn every_offered_region_name_resolves() {
    let table = iho_table();
    for name in region_names(&table) {
        if name == "auto" {
            continue;
        }
        match region_bbox(&name, &table) {
            Ok(_) | Err(RegionError::CrossesAntimeridian(_)) => {}
            Err(RegionError::Unknown(e)) => panic!("offered region '{name}' does not resolve: {e}"),
        }
    }
}
