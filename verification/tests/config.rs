use seastamp::config::{
    baltic, global, near_miss_hint, preset_bbox, region_bbox, resolve_region, IhoEntry, RegionBox, RegionChoice,
    RegionError, PRESET_NAMES,
};

fn entry(name: &str, crosses: bool) -> IhoEntry {
    IhoEntry { name: name.to_string(), crosses }
}

/// A few IHO Sea Areas v3 names, with the antimeridian flag they carry.
fn iho_table() -> Vec<IhoEntry> {
    vec![
        entry("Adriatic Sea", false),
        entry("Aegean Sea", false),
        entry("Barentsz Sea", false),
        entry("Bering Sea", true),
        entry("Chukchi Sea", true),
        entry("North Pacific Ocean", true),
        entry("Sea of Okhotsk", false),
        entry("South Pacific Ocean", true),
    ]
}

#[test]
fn default_region_is_global() {
    // No preset and no bounds means the whole globe.
    let region_name: Option<&str> = None;
    let b = region_name.and_then(preset_bbox).unwrap_or(global());
    assert_eq!((b.min_lon, b.max_lon, b.min_lat, b.max_lat), (-180, 180, -90, 90));
}

#[test]
fn config_named_presets_resolve() {
    for name in PRESET_NAMES {
        assert!(preset_bbox(name).is_some(), "missing preset '{name}'");
    }
    // case-insensitive; an unknown name is None
    assert!(preset_bbox("EUROPE").is_some());
    assert!(preset_bbox("atlantis").is_none());
}

#[test]
fn mod_named_presets_resolve() {
    for name in PRESET_NAMES {
        assert!(preset_bbox(name).is_some(), "missing preset '{name}'");
    }
    assert!(preset_bbox("EUROPE").is_some()); // case-insensitive
    assert!(preset_bbox("atlantis").is_none());
}

#[test]
fn preset_boxes_have_their_documented_bounds() {
    let b = preset_bbox("Mediterranean").unwrap();
    assert_eq!((b.min_lon, b.max_lon, b.min_lat, b.max_lat), (-6, 37, 30, 46));
    let b = preset_bbox("norway").unwrap();
    assert_eq!((b.min_lon, b.max_lon, b.min_lat, b.max_lat), (-10, 45, 55, 85));
    assert_eq!(preset_bbox("baltic"), Some(baltic()));
    assert_eq!(preset_bbox("GLOBAL"), Some(global()));
}

#[test]
fn iho_names_resolve_by_region() {
    let table = iho_table();
    match region_bbox("Barentsz Sea", &table) {
        Ok(RegionBox::Iho(i)) => assert_eq!(table[i].name, "Barentsz Sea"),
        _ => panic!("a known IHO area"),
    }
    assert!(region_bbox("BARENTSZ SEA", &table).is_ok(), "case-insensitive");
    // presets still win
    match region_bbox("baltic", &table) {
        Ok(RegionBox::Preset(b)) => assert_eq!(b.max_lon, baltic().max_lon),
        _ => panic!("baltic is a preset"),
    }
}

#[test]
fn crossing_iho_areas_are_refused_by_name() {
    let table = iho_table();
    for name in ["Bering Sea", "Chukchi Sea", "North Pacific Ocean", "South Pacific Ocean"] {
        match region_bbox(name, &table) {
            Err(RegionError::CrossesAntimeridian(i)) => assert_eq!(table[i].name, name),
            _ => panic!("a crossing area is not a usable region: {name}"),
        }
    }
}

fn unknown_message(name: &str, table: &[IhoEntry]) -> String {
    match region_bbox(name, table) {
        Err(RegionError::Unknown(msg)) => msg,
        _ => panic!("'{name}' should be unknown"),
    }
}

#[test]
fn unknown_region_errors_and_suggests() {
    let table = iho_table();
    let msg = unknown_message("Barent Sea", &table);
    assert!(msg.contains("Barentsz Sea"), "no suggestion in: {msg}");
    let msg = unknown_message("okhotsk", &table);
    assert!(msg.contains("Sea of Okhotsk"), "no suggestion in: {msg}");
    // nothing close: fall back to telling the user where to look
    let msg = unknown_message("atlantis", &table);
    assert!(msg.contains("seastamp regions"), "no pointer in: {msg}");
}

#[test]
fn unknown_region_message_is_exact() {
    let table = iho_table();
    assert_eq!(
        unknown_message("Barent Sea", &table),
        "unknown region 'Barent Sea'. Did you mean: Barentsz Sea?"
    );
    assert_eq!(
        unknown_message("atlantis", &table),
        "unknown region 'atlantis'. Use a preset (global, baltic, norway, arctic, atlantic, \
         europe, mediterranean), an IHO Sea Areas name, or 'auto'. Run 'seastamp regions' to \
         list them."
    );
}

#[test]
fn generic_words_and_short_words_suggest_nothing_on_their_own() {
    let table = iho_table();
    // "sea" is generic and "xy" too short: only the whole name is matched,
    // and no known name contains "xy sea"
    let msg = unknown_message("xy sea", &table);
    assert!(msg.contains("Use a preset"), "unexpected suggestion in: {msg}");
}

#[test]
fn suggestions_stop_at_five() {
    let table = iho_table();
    // the text "a" is too short to be a word, but the whole of it occurs in
    // most names; only the first five are listed
    let msg = unknown_message("a", &table);
    let listed = msg.split("Did you mean: ").nth(1).expect("a suggestion");
    assert_eq!(listed.trim_end_matches('?').split(", ").count(), 5);
    assert_eq!(listed, "global, baltic, norway, arctic, atlantic?");
}

#[test]
fn auto_and_missing_names_derive_the_region() {
    let table = iho_table();
    assert!(matches!(resolve_region(None, None, &table), Ok(RegionChoice::Auto)));
    assert!(matches!(resolve_region(Some("AUTO"), None, &table), Ok(RegionChoice::Auto)));
    assert!(matches!(resolve_region(None, Some("auto"), &table), Ok(RegionChoice::Auto)));
}

#[test]
fn command_line_region_wins_over_the_config_file() {
    let table = iho_table();
    match resolve_region(Some("europe"), Some("baltic"), &table) {
        Ok(RegionChoice::Named(RegionBox::Preset(b))) => assert_eq!(b.min_lon, -25),
        _ => panic!("the flag should win"),
    }
    match resolve_region(None, Some("baltic"), &table) {
        Ok(RegionChoice::Named(RegionBox::Preset(b))) => assert_eq!(b, baltic()),
        _ => panic!("the config file applies without a flag"),
    }
    assert!(matches!(
        resolve_region(Some("atlantis"), Some("baltic"), &table),
        Err(RegionError::Unknown(_))
    ));
}

#[test]
fn hint_from_lower_cased_text() {
    let cands: Vec<String> = ["Adriatic Sea", "Barentsz Sea", "Sea of Okhotsk"]
        .iter()
        .map(|s| s.to_string())
        .collect();
    assert_eq!(near_miss_hint("barent sea", &cands), " Did you mean: Barentsz Sea?");
    assert_eq!(near_miss_hint("okhotsk", &cands), " Did you mean: Sea of Okhotsk?");
    // "sea" alone is generic, but the whole name still matches as a substring
    assert_eq!(
        near_miss_hint("sea", &cands),
        " Did you mean: Adriatic Sea, Barentsz Sea, Sea of Okhotsk?"
    );
    assert_eq!(
        near_miss_hint("atlantis", &cands),
        " Use a preset (global, baltic, norway, arctic, atlantic, europe, mediterranean), \
an IHO Sea Areas name, or 'auto'. Run 'seastamp regions' to list them."
    );
    let many: Vec<String> = (0..8).map(|i| format!("Gulf {i} Adriatic")).collect();
    assert_eq!(
        near_miss_hint("adriatic", &many),
        " Did you mean: Gulf 0 Adriatic, Gulf 1 Adriatic, Gulf 2 Adriatic, Gulf 3 Adriatic, Gulf 4 Adriatic?"
    );
}
