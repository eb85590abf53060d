use cylune::error::AppError;
use cylune::parser::gcode::{
    classify_command, comment_of, layer_marker, parse_estimated_seconds, parse_u32,
    require_extrusion, GcodeCommand, GcodeScan, GcodeSummary,
};
use cylune::parser::preset_base;
use cylune::parser::three_mf::{
    entry_kind, is_filament_config, normalize_preset, order_plate_entries, plate_estimated_seconds,
    plate_gcode_index, plate_json_index, plate_metadata_value, slice_predictions,
    thumbnail_entries, xml_attribute, EntryKind,
};

fn scan(text: &str) -> (GcodeScan, Vec<GcodeCommand>) {
    let mut state = GcodeScan::new();
    let mut commands = Vec::new();
    for line in text.lines() {
        commands.push(state.step(line));
    }
    (state, commands)
}

#[test]
fn removes_only_the_machine_suffix_from_a_preset() {
    assert_eq!(preset_base("Bambu PLA Basic @BBL A1"), "Bambu PLA Basic");
    assert_eq!(preset_base("Bambu PLA Basic"), "Bambu PLA Basic");
}

#[test]
fn records_declared_time_and_total_layers() {
    let (state, _) = scan("; total estimated time: 5h 5m 7s\n; total layer number: 14\nM83\n; LAYER:0\nG1 E2\nG1 E-1\n");
    let summary = state.summary();
    assert_eq!(summary.declared_estimated_seconds, Some(18_307));
    assert_eq!(summary.declared_total_layers, Some(14));
    assert_eq!(summary.max_layer, 1);
    assert!(!state.absolute_extrusion);
}

#[test]
fn declared_total_is_the_display_count_without_layer_markers() {
    let (state, _) = scan("; total layer number: 14\nM83\nG1 E2\n");
    let summary = state.summary();
    assert_eq!(summary.max_layer, 0);
    assert_eq!(summary.display_layer_count(), 14);
}

#[test]
fn display_count_falls_back_to_the_markers() {
    let summary = GcodeSummary {
        max_layer: 3,
        declared_estimated_seconds: None,
        declared_total_layers: Some(0),
    };
    assert_eq!(summary.display_layer_count(), 3);
}

#[test]
fn recognizes_bambu_one_based_layer_progress_comments() {
    let (state, _) = scan("M83\n; layer num/total_layer_count: 1/3\nG1 E2\n; layer num/total_layer_count: 2/3\nG1 E3\n; layer num/total_layer_count: 3/3\nG1 E4\n");
    assert_eq!(state.summary().max_layer, 3);
    assert_eq!(state.current_layer, Some(2));
}

#[test]
fn recognizes_bambu_x2d_sequential_change_layer_comments() {
    let (state, _) = scan("M83\n; CHANGE_LAYER\n; Z_HEIGHT: 0.2\nG1 E2\n; CHANGE_LAYER\n; Z_HEIGHT: 0.4\nG1 E3\n; CHANGE_LAYER\n; Z_HEIGHT: 0.6\nG1 E4\n");
    assert_eq!(state.summary().max_layer, 3);
    assert_eq!(state.current_layer, Some(2));
}

#[test]
fn recognizes_crlf_layer_comments_and_skips_unknown_commands() {
    let (state, commands) = scan("; LAYER:0\r\nM83\r\nM900 K0.05\r\nG1 E1.25\r\n");
    assert_eq!(state.summary().max_layer, 1);
    assert_eq!(commands[2], GcodeCommand::Nothing);
    assert_eq!(commands[3], GcodeCommand::Extrude(vec!["1.25".to_owned()]));
}

#[test]
fn tracks_bambu_2_8_m1020_filament_switches() {
    let (_, commands) = scan("M83\nM1020 S0 H0\nG1 E2\nM1020 S2 H0\nG1 E3\nM1020 S1 H0\nG1 E4\n");
    assert_eq!(commands[0], GcodeCommand::RelativeExtrusion);
    assert_eq!(commands[1], GcodeCommand::SelectTool(0));
    assert_eq!(commands[3], GcodeCommand::SelectTool(2));
    assert_eq!(commands[5], GcodeCommand::SelectTool(1));
}

#[test]
fn tool_changes_and_position_resets_are_classified() {
    assert_eq!(classify_command("M82"), GcodeCommand::AbsoluteExtrusion);
    assert_eq!(classify_command("T1"), GcodeCommand::SelectTool(1));
    assert_eq!(classify_command("G92 E0"), GcodeCommand::ResetPosition(vec!["0".to_owned()]));
    assert_eq!(classify_command("G1 X10 Y10"), GcodeCommand::Extrude(vec![]));
    assert_eq!(classify_command("; only a comment"), GcodeCommand::Nothing);
    let (state, _) = scan("M82\nT0\nG1 E10\nT1\nG92 E0\n");
    assert_eq!(state.current_tool, 1);
    assert!(state.absolute_extrusion);
}

#[test]
fn returns_unknown_gcode_without_an_extrusion_command() {
    assert!(matches!(require_extrusion(false), Err(AppError::UnknownGcode)));
    assert!(require_extrusion(true).is_ok());
}

#[test]
fn comment_and_number_helpers() {
    assert_eq!(comment_of("G1 E1 ; hello "), Some("hello"));
    assert_eq!(comment_of("G1 E1"), None);
    assert_eq!(parse_u32("42"), Some(42));
    assert_eq!(parse_u32("-1"), None);
    assert_eq!(layer_marker("; LAYER:7", 0), Some(7));
    assert_eq!(layer_marker("; CHANGE_LAYER", 4), Some(4));
    assert_eq!(layer_marker("G1 E1", 4), None);
    assert_eq!(parse_estimated_seconds("5h 5m 7s"), Some(18_307));
    assert_eq!(parse_estimated_seconds("1d 1s"), None);
    assert_eq!(parse_estimated_seconds("25h"), Some(90_000));
    assert_eq!(parse_estimated_seconds(""), None);
}

#[test]
fn reads_bambu_nested_plate_prediction_metadata() {
    let predictions = slice_predictions(
        r#"<config><plate><metadata key="index" value="1"/><metadata key="prediction" value="18307"/></plate></config>"#,
    );

    assert_eq!(plate_estimated_seconds(&predictions, 1, None), Some(18_307));
}

#[test]
fn later_plate_predictions_win_and_missing_ones_fall_back() {
    let predictions = slice_predictions(
        r#"<plate index="1" prediction="10"/><plate index="2" prediction="20"/><plate index="1" prediction="30"/>"#,
    );
    assert_eq!(predictions, vec![(1, 10), (2, 20), (1, 30)]);
    assert_eq!(plate_estimated_seconds(&predictions, 1, Some(5)), Some(30));
    assert_eq!(plate_estimated_seconds(&predictions, 3, Some(5)), Some(5));
}

#[test]
fn xml_helpers_read_attributes_and_metadata() {
    assert_eq!(xml_attribute(r#"<a index="3" b='x'"#, "index"), Some("3"));
    assert_eq!(xml_attribute(r#"<a index="3""#, "missing"), None);
    assert_eq!(
        plate_metadata_value(r#"<metadata key="index" value="4"/>"#, "index"),
        Some("4")
    );
}

#[test]
fn multi_plate_projects_prioritize_each_plates_own_thumbnail() {
    let names: Vec<String> = [
        "Auxiliaries/.thumbnails/thumbnail_middle.png",
        "Auxiliaries/.thumbnails/thumbnail_3mf.png",
        "Metadata/plate_1.png",
        "Metadata/plate_2.png",
    ]
    .iter()
    .map(|s| s.to_string())
    .collect();
    assert_eq!(
        thumbnail_entries(1, &names, false),
        [
            "Metadata/plate_1.png",
            "Auxiliaries/.thumbnails/thumbnail_middle.png",
            "Auxiliaries/.thumbnails/thumbnail_3mf.png",
        ]
    );
    assert_eq!(
        thumbnail_entries(2, &names, false),
        [
            "Metadata/plate_2.png",
            "Auxiliaries/.thumbnails/thumbnail_middle.png",
            "Auxiliaries/.thumbnails/thumbnail_3mf.png",
        ]
    );
    assert_eq!(
        thumbnail_entries(1, &names, true),
        [
            "Auxiliaries/.thumbnails/thumbnail_middle.png",
            "Auxiliaries/.thumbnails/thumbnail_3mf.png",
            "Metadata/plate_1.png",
        ]
    );
}

#[test]
fn archive_entries_are_sorted_by_kind() {
    assert!(is_filament_config("Metadata/filament_settings_1.config"));
    assert_eq!(entry_kind("Metadata/slice_info.config"), EntryKind::SliceInfo);
    assert_eq!(entry_kind("Metadata/plate_2.json"), EntryKind::PlateJson(2));
    assert_eq!(entry_kind("Metadata/plate_3.gcode"), EntryKind::PlateGcode(3));
    assert_eq!(entry_kind("3D/3dmodel.model"), EntryKind::Other);
    assert_eq!(plate_gcode_index("Metadata/plate_12.gcode"), Some(12));
    assert_eq!(plate_json_index("Metadata/plate_x.json"), None);
}

#[test]
fn plate_entries_come_in_plate_order() {
    let ordered = order_plate_entries(vec![(2, "b".to_owned()), (1, "a".to_owned())]).unwrap();
    assert_eq!(ordered, vec![(1, "a".to_owned()), (2, "b".to_owned())]);
    assert!(matches!(order_plate_entries(vec![]), Err(AppError::UnslicedProject)));
    assert!(matches!(
        order_plate_entries(vec![(1, "a".to_owned()), (1, "b".to_owned())]),
        Err(AppError::InvalidFile)
    ));
}

#[test]
fn presets_keep_their_material() {
    let (preset, material) = normalize_preset("Bambu PLA Basic @BBL A1", "PLA");
    assert_eq!(preset, "Bambu Lab");
    assert_eq!(material, "Basic");
    let (brand, series) = normalize_preset("Generic PLA", "PLA");
    assert_eq!(brand, "");
    assert_eq!(series, "Generic PLA");
}
