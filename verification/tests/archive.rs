use cylune::error::AppError;
use cylune::parser::archive::{read_project_archive, JsonItem, JsonValue};
use cylune::parser::gcode::GcodeScan;
use cylune::parser::three_mf::plate_estimated_seconds;
use std::io::{Cursor, Write};
use zip::write::FileOptions;
use zip::ZipWriter;

const CONFIG: &str = r##"{"filament_settings_id":["Bambu PLA Basic @BBL A1","Bambu PLA Matte @BBL A1"],"filament_type":["PLA","PLA"],"filament_colour":["#FF0000","#00FF00"],"filament_diameter":["1.75","1.75"],"filament_density":["1.24","1.25"],"filament_start_gcode":["; tool 0","; tool 1"],"nozzle":0.4}"##;

fn archive(entries: &[(&str, &[u8])]) -> Vec<u8> {
    let mut writer = ZipWriter::new(Cursor::new(Vec::new()));
    for (name, contents) in entries {
        writer.start_file(*name, FileOptions::default()).unwrap();
        writer.write_all(contents).unwrap();
    }
    writer.finish().unwrap().into_inner()
}

fn declared_seconds(gcode: &[u8]) -> Option<u32> {
    let mut scan = GcodeScan::new();
    for line in std::str::from_utf8(gcode).unwrap().lines() {
        scan.step(line);
    }
    scan.summary().declared_estimated_seconds
}

#[test]
fn an_archive_yields_its_filaments_and_plates_in_order() {
    let bytes = archive(&[
        ("Metadata/project_settings.config", CONFIG.as_bytes()),
        ("Metadata/slice_info.config", br#"<config><plate><metadata key="index" value="3"/><metadata key="prediction" value="7200"/></plate><plate><metadata key="index" value="1"/><metadata key="prediction" value="3600"/></plate></config>"#),
        ("Metadata/plate_3.gcode", b"M83\nG1 E7\n"),
        ("Metadata/plate_1.gcode", b"M83\nG1 E3\n"),
        ("Metadata/plate_3.json", br#"{"plate_name":"  Third  "}"#),
    ]);
    let project = read_project_archive(&bytes).unwrap();
    assert_eq!(project.filaments.len(), 2);
    let first = &project.filaments[0];
    assert_eq!(first.tool, 0);
    assert_eq!(first.preset_id, "Bambu PLA Basic @BBL A1");
    assert_eq!(first.brand, "Bambu Lab");
    assert_eq!(first.series, "Basic");
    assert_eq!(first.diameter, "1.75");
    assert_eq!(project.filaments[1].series, "Matte");
    assert_eq!(project.filaments[1].density, "1.25");
    assert_eq!(
        first.unknown_fields,
        vec![
            ("filament_start_gcode".to_owned(), JsonValue::Text("; tool 0".to_owned())),
            ("nozzle".to_owned(), JsonValue::Other("0.4".to_owned())),
        ]
    );
    let indices: Vec<u32> = project.plates.iter().map(|plate| plate.plate_index).collect();
    assert_eq!(indices, vec![1, 3]);
    assert_eq!(project.plates[0].gcode, b"M83\nG1 E3\n".to_vec());
    assert_eq!(project.plates[1].gcode_name, "Metadata/plate_3.gcode");
    assert_eq!(project.plates[0].display_name, None);
    assert_eq!(project.plates[1].display_name.as_deref(), Some("Third"));
    assert_eq!(project.predictions, vec![(3, 7200), (1, 3600)]);
    assert_eq!(plate_estimated_seconds(&project.predictions, 1, None), Some(3600));
}

#[test]
fn a_plate_without_a_prediction_keeps_its_name_thumbnails_and_declared_time() {
    let gcode: &[u8] = b"; total estimated time: 5h 5m 7s\nM83\n; LAYER:0\nG1 E1\n";
    let bytes = archive(&[
        ("Metadata/filament_settings.config", CONFIG.as_bytes()),
        ("Metadata/slice_info.config", b"<config><plate index=\"2\" /></config>"),
        ("Metadata/plate_2.json", br#"{"name":"Detailed plate"}"#),
        ("Auxiliaries/.thumbnails/thumbnail_middle.png", b"image"),
        ("Auxiliaries/.thumbnails/thumbnail_3mf.png", b"image"),
        ("Metadata/plate_2.png", b"image"),
        ("Metadata/plate_2_small.png", b"image"),
        ("Metadata/plate_no_light_2.png", b"image"),
        ("Metadata/plate_2.gcode", gcode),
    ]);
    let project = read_project_archive(&bytes).unwrap();
    let plate = &project.plates[0];
    assert_eq!(plate.display_name.as_deref(), Some("Detailed plate"));
    assert_eq!(
        plate_estimated_seconds(&project.predictions, 2, declared_seconds(&plate.gcode)),
        Some(18_307)
    );
    assert_eq!(
        plate.thumbnail_entries,
        vec![
            "Auxiliaries/.thumbnails/thumbnail_middle.png",
            "Auxiliaries/.thumbnails/thumbnail_3mf.png",
            "Metadata/plate_2.png",
            "Metadata/plate_2_small.png",
            "Metadata/plate_no_light_2.png",
        ]
    );
}

#[test]
fn each_of_several_plates_prefers_its_own_thumbnail() {
    let bytes = archive(&[
        ("Metadata/project_settings.config", CONFIG.as_bytes()),
        ("Auxiliaries/.thumbnails/thumbnail_middle.png", b"image"),
        ("Auxiliaries/.thumbnails/thumbnail_3mf.png", b"image"),
        ("Metadata/plate_1.png", b"image"),
        ("Metadata/plate_2.png", b"image"),
        ("Metadata/plate_1.gcode", b"M83\nG1 E1\n"),
        ("Metadata/plate_2.gcode", b"M83\nG1 E1\n"),
    ]);
    let project = read_project_archive(&bytes).unwrap();
    assert_eq!(
        project.plates[1].thumbnail_entries,
        [
            "Metadata/plate_2.png",
            "Auxiliaries/.thumbnails/thumbnail_middle.png",
            "Auxiliaries/.thumbnails/thumbnail_3mf.png",
        ]
    );
}

#[test]
fn archives_that_cannot_be_read_are_refused() {
    assert_eq!(read_project_archive(b"not a zip").unwrap_err(), AppError::InvalidFile);
    let unsliced = archive(&[
        ("Metadata/project_settings.config", CONFIG.as_bytes()),
        ("Metadata/plate_one.gcode", b"M83\nG1 E1\n"),
    ]);
    assert_eq!(read_project_archive(&unsliced).unwrap_err(), AppError::UnslicedProject);
    let no_json = archive(&[
        ("Metadata/project_settings.config", b"{not json"),
        ("Metadata/plate_1.gcode", b"M83\n"),
    ]);
    assert_eq!(read_project_archive(&no_json).unwrap_err(), AppError::InvalidFile);
    let not_text = archive(&[
        ("Metadata/slice_info.config", &[0xff, 0xfe][..]),
        ("Metadata/plate_1.gcode", b"M83\n"),
    ]);
    assert!(matches!(read_project_archive(&not_text), Err(AppError::Io(_))));
    let no_filament = archive(&[("Metadata/plate_1.gcode", b"M83\n")]);
    assert_eq!(read_project_archive(&no_filament).unwrap_err(), AppError::InvalidFile);
    let bad_plate_name = archive(&[
        ("Metadata/project_settings.config", CONFIG.as_bytes()),
        ("Metadata/plate_1.json", b"oops"),
        ("Metadata/plate_1.gcode", b"M83\n"),
    ]);
    assert_eq!(read_project_archive(&bad_plate_name).unwrap_err(), AppError::InvalidFile);
}

#[test]
fn incomplete_filament_settings_are_refused() {
    for config in [
        r##"{"filament_type":["PLA"],"filament_colour":["#FFFFFF"],"filament_diameter":["1.75"],"filament_density":["1.24"]}"##,
        r##"{"filament_settings_id":["Bambu PLA Basic"],"filament_type":["PLA"],"filament_diameter":["1.75"],"filament_density":["1.24"]}"##,
        r##"{"filament_settings_id":["Bambu PLA Basic"],"filament_type":["PLA"],"filament_colour":[17],"filament_diameter":["1.75"],"filament_density":["1.24"]}"##,
        r##"{"filament_settings_id":["Bambu PLA Basic"],"filament_type":["PLA"],"filament_colour":["#FFFFFF"],"filament_diameter":["1.75"]}"##,
        r##"{"filament_settings_id":["Bambu PLA Basic"],"filament_type":["  "],"filament_colour":["#FFFFFF"],"filament_diameter":["1.75"],"filament_density":["1.24"]}"##,
    ] {
        let bytes = archive(&[
            ("Metadata/filament_settings.config", config.as_bytes()),
            ("Metadata/plate_1.gcode", b"M83\nG1 E1\n"),
        ]);
        assert_eq!(read_project_archive(&bytes).unwrap_err(), AppError::InvalidFile);
    }
}

#[test]
fn array_members_yield_their_item_for_each_filament() {
    let config = r##"{"filament_settings_id":["A","B"],"filament_type":["PLA","PETG"],"filament_colour":["#1","#2"],"filament_diameter":["1.75","1.75"],"filament_density":["1.2","1.3"],"extra":[1],"flags":[true,"x"]}"##;
    let bytes = archive(&[
        ("Metadata/filament_settings_1.config", config.as_bytes()),
        ("Metadata/plate_1.gcode", b"M83\n"),
    ]);
    let project = read_project_archive(&bytes).unwrap();
    assert_eq!(
        project.filaments[1].unknown_fields,
        vec![
            ("extra".to_owned(), JsonValue::List(vec![JsonItem::Other("1".to_owned())])),
            ("flags".to_owned(), JsonValue::Text("x".to_owned())),
        ]
    );
    assert_eq!(project.filaments[0].unknown_fields[0].1, JsonValue::Other("1".to_owned()));
}

#[test]
fn entries_the_project_does_not_need_are_not_read() {
    let mut writer = ZipWriter::new(Cursor::new(Vec::new()));
    let stored = FileOptions::default().compression_method(zip::CompressionMethod::Stored);
    writer.start_file("Metadata/project_settings.config", stored).unwrap();
    writer.write_all(CONFIG.as_bytes()).unwrap();
    writer.start_file("3D/3dmodel.model", stored).unwrap();
    writer.write_all(b"MODEL-DATA-MODEL-DATA").unwrap();
    writer.start_file("Metadata/plate_1.gcode", stored).unwrap();
    writer.write_all(b"M83\nG1 E1\n").unwrap();
    let mut bytes = writer.finish().unwrap().into_inner();
    let at = bytes
        .windows(10)
        .position(|window| window == b"MODEL-DATA")
        .unwrap();
    bytes[at] = b'X';
    let project = read_project_archive(&bytes).unwrap();
    assert_eq!(project.plates.len(), 1);
    assert_eq!(project.plates[0].gcode, b"M83\nG1 E1\n".to_vec());
}
