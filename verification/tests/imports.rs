use cylune::domain::Confidence;
use cylune::error::AppError;
use cylune::imports::{
    import_route, route_state, ImportRoute, ImportState, matching_spools, nearest_loaded_preset_base_spool_ids, parse_rgb_hex, preset_base_spool_ids,
    rgb_distance_squared, suggestion, validate_profiles, FileStability, MAX_COLOR_DISTANCE_SQUARED,
};

fn strings(values: &[&str]) -> Vec<String> {
    values.iter().map(|s| s.to_string()).collect()
}

#[test]
fn file_stability_requires_matching_size_and_modified_time() {
    let first = FileStability {
        size: 123,
        modified_nanos: 456,
    };
    assert!(first.is_same_as(&first));
    assert!(!first.is_same_as(&FileStability {
        size: 124,
        modified_nanos: 456,
    }));
}

#[test]
fn file_stability_also_compares_the_modified_time() {
    let first = FileStability {
        size: 123,
        modified_nanos: 456,
    };
    assert!(!first.is_same_as(&FileStability {
        size: 123,
        modified_nanos: 457,
    }));
}

#[test]
fn colours_parse_as_hash_and_six_hex_digits() {
    assert_eq!(parse_rgb_hex("#FF0080"), Some([255, 0, 128]));
    assert_eq!(parse_rgb_hex("#0a2989"), Some([10, 41, 137]));
    assert_eq!(parse_rgb_hex("FF0080"), None);
    assert_eq!(parse_rgb_hex("#FF008"), None);
    assert_eq!(parse_rgb_hex("#GG0080"), None);
}

#[test]
fn colour_distance_is_the_squared_euclidean_distance() {
    assert_eq!(rgb_distance_squared([0, 0, 0], [3, 4, 0]), 25);
    assert_eq!(rgb_distance_squared([255, 255, 255], [0, 0, 0]), 195_075);
    assert_eq!(rgb_distance_squared([10, 20, 30], [10, 20, 30]), 0);
}

#[test]
fn project_colors_match_the_nearest_loaded_spool_of_the_same_profile() {
    let loaded = vec![
        ("red".to_owned(), "Bambu PLA Basic @BBL A1".to_owned(), "#E94B3C".to_owned()),
        ("white".to_owned(), "Bambu PLA Basic @BBL X1C".to_owned(), "#FFFEFC".to_owned()),
        ("yellow".to_owned(), "Bambu PLA Basic".to_owned(), "#FFFD0D".to_owned()),
        ("matte".to_owned(), "Bambu PLA Matte @BBL A1".to_owned(), "#FFFFFF".to_owned()),
    ];
    assert_eq!(
        nearest_loaded_preset_base_spool_ids("#FFFFFF", "Bambu PLA Basic @BBL A1", &loaded),
        strings(&["white"])
    );
    assert_eq!(
        nearest_loaded_preset_base_spool_ids("#C12E1F", "Bambu PLA Basic @BBL P1S", &loaded),
        strings(&["red"])
    );
    assert_eq!(
        nearest_loaded_preset_base_spool_ids("#0A2989", "Bambu PLA Basic @BBL A1", &loaded),
        Vec::<String>::new()
    );
    assert_eq!(
        nearest_loaded_preset_base_spool_ids("not a colour", "Bambu PLA Basic", &loaded),
        Vec::<String>::new()
    );
}

#[test]
fn equally_near_spools_are_all_candidates_in_row_order() {
    let loaded = vec![
        ("a".to_owned(), "Bambu PLA Basic".to_owned(), "#000000".to_owned()),
        ("b".to_owned(), "Bambu PLA Basic".to_owned(), "#000000".to_owned()),
    ];
    let found = nearest_loaded_preset_base_spool_ids("#000001", "Bambu PLA Basic", &loaded);
    assert_eq!(found, strings(&["a", "b"]));
    assert_eq!(MAX_COLOR_DISTANCE_SQUARED, 10_000);
}

#[test]
fn same_base_rows_keep_their_order() {
    let rows = vec![
        ("one".to_owned(), "Bambu PLA Basic @BBL X1C".to_owned()),
        ("two".to_owned(), "Bambu PETG HF".to_owned()),
        ("three".to_owned(), "Bambu PLA Basic @base".to_owned()),
    ];
    assert_eq!(
        preset_base_spool_ids("Bambu PLA Basic @BBL A1", &rows),
        strings(&["one", "three"])
    );
}

#[test]
fn matching_spools_prioritizes_exact_then_preset_base_then_nearest_then_legacy() {
    let exact = strings(&["exact"]);
    let base = strings(&["base"]);
    let nearest = strings(&["nearest"]);
    let legacy = strings(&["legacy"]);
    assert_eq!(
        matching_spools(exact.clone(), base.clone(), nearest.clone(), legacy.clone()),
        exact
    );
    assert_eq!(
        matching_spools(vec![], base.clone(), nearest.clone(), legacy.clone()),
        base
    );
    assert_eq!(
        matching_spools(vec![], vec![], nearest.clone(), legacy.clone()),
        nearest
    );
    assert_eq!(matching_spools(vec![], vec![], vec![], legacy.clone()), legacy);
}

#[test]
fn unique_candidate_is_suggested_and_others_need_confirmation() {
    assert_eq!(
        suggestion(&strings(&["only"])),
        (Some("only".to_owned()), Confidence::Exact)
    );
    assert_eq!(
        suggestion(&strings(&["a", "b"])),
        (None, Confidence::NeedsConfirmation)
    );
    assert_eq!(suggestion(&vec![]), (None, Confidence::NeedsConfirmation));
}

#[test]
fn profiles_with_a_repeated_tool_are_refused() {
    assert!(validate_profiles(&vec![0, 1, 2]).is_ok());
    assert!(matches!(
        validate_profiles(&vec![0, 1, 0]),
        Err(AppError::InvalidMapping)
    ));
}

#[test]
fn standalone_gcode_without_profiles_never_creates_a_job() {
    assert_eq!(
        import_route("/tmp/single_color.gcode", false, false, false),
        Err(AppError::StandaloneGcodeProfilesRequired)
    );
    assert_eq!(
        import_route("/tmp/PLATE.GCODE", true, true, true),
        Err(AppError::StandaloneGcodeProfilesRequired)
    );
}

#[test]
fn imports_follow_what_is_known_of_the_source() {
    assert_eq!(import_route("/tmp/a.3mf", false, true, true), Ok(ImportRoute::ParseAndCreate));
    assert_eq!(import_route("/tmp/a.3mf", true, true, true), Ok(ImportRoute::ContinuePending));
    assert_eq!(import_route("/tmp/a.3mf", true, false, true), Ok(ImportRoute::ConfirmNewPrint));
    assert_eq!(import_route("/tmp/a.gcode.3mf", true, false, false), Ok(ImportRoute::ProjectFromCache));
    assert_eq!(route_state(ImportRoute::ContinuePending), ImportState::ExistingPending);
    assert_eq!(
        route_state(ImportRoute::ConfirmNewPrint),
        ImportState::NewPrintConfirmationRequired
    );
    assert_eq!(route_state(ImportRoute::ParseAndCreate), ImportState::New);
}
