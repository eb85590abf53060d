use cylune::error::AppError;
use cylune::machines::{group_models, machine_catalog, machine_documents, official_plate_keys};

fn files(texts: &[&str]) -> Vec<Vec<u8>> {
    texts.iter().map(|text| text.as_bytes().to_vec()).collect()
}

#[test]
fn printers_inherit_their_settings_and_list_their_plates() {
    let documents = machine_documents(&files(&[
        r#"{"name":"fdm_machine_common","nozzle_diameter":["0.4"],"printer_model":"Generic"}"#,
        r#"{"name":"Bambu Lab A1 0.4 nozzle","type":"machine","instantiation":"true","inherits":"fdm_bbl_a1","nozzle_diameter":["0.4"]}"#,
        r#"{"name":"fdm_bbl_a1","inherits":"fdm_machine_common","printer_model":"Bambu Lab A1","supported_bed_types":"Cool Plate;Textured PEI Plate"}"#,
        r#"{"name":"Template","type":"machine","instantiation":false,"printer_model":"Bambu Lab X"}"#,
        r#"{"name":"Other 0.6","type":"machine","instantiation":true,"printer_model":"Voron","nozzle_diameter":"0.6"}"#,
    ]))
    .unwrap();
    assert_eq!(documents.len(), 5);
    let official = official_plate_keys(None).unwrap();
    let machines = machine_catalog(&documents, &official).unwrap();
    assert_eq!(machines.len(), 1);
    assert_eq!(machines[0].model_key, "Bambu Lab A1");
    assert_eq!(machines[0].nozzle_diameters, vec!["0.4"]);
    let mut plates = machines[0].plate_keys.clone();
    plates.sort();
    assert_eq!(plates, vec!["Cool Plate", "Textured PEI Plate"]);
}

#[test]
fn the_common_filament_settings_name_the_known_plates() {
    let common = br#"{"hot_plate_temp":["55"],"cool_plate_temp":["35"],"name":"fdm_filament_common"}"#;
    assert_eq!(
        official_plate_keys(Some(common)).unwrap(),
        vec!["Cool Plate", "Smooth PEI Plate / High Temp Plate"]
    );
    assert_eq!(official_plate_keys(Some(b"[1]")).unwrap_err(), AppError::SlicerIncompatible);
}

#[test]
fn broken_machine_documents_are_refused() {
    for texts in [
        vec!["{oops"],
        vec![r#"{"type":"machine"}"#],
        vec![r#"{"name":"A"}"#, r#"{"name":"A"}"#],
        vec!["[]"],
    ] {
        assert_eq!(machine_documents(&files(&texts)).unwrap_err(), AppError::SlicerIncompatible);
    }
    assert_eq!(
        machine_documents(&vec![vec![0xff, 0x7b]]).unwrap_err(),
        AppError::SlicerIncompatible
    );
}

#[test]
fn a_printer_without_nozzles_or_parent_is_refused() {
    let official = vec!["Cool Plate".to_owned()];
    let missing_parent = machine_documents(&files(&[
        r#"{"name":"P","type":"machine","instantiation":true,"inherits":"nowhere","printer_model":"Bambu Lab P1S","nozzle_diameter":["0.4"]}"#,
    ]))
    .unwrap();
    assert_eq!(machine_catalog(&missing_parent, &official).unwrap_err(), AppError::SlicerIncompatible);
    let no_nozzle = machine_documents(&files(&[
        r#"{"name":"P","type":"machine","instantiation":true,"printer_model":"Bambu Lab P1S"}"#,
    ]))
    .unwrap();
    assert_eq!(machine_catalog(&no_nozzle, &official).unwrap_err(), AppError::SlicerIncompatible);
    let fine = machine_documents(&files(&[
        r#"{"name":"P","type":"machine","instantiation":true,"printer_model":"Bambu Lab P1S","nozzle_diameter":["0.4","0.6"]}"#,
    ]))
    .unwrap();
    let machines = machine_catalog(&fine, &official).unwrap();
    assert_eq!(machines[0].nozzle_diameters, vec!["0.4", "0.6"]);
    assert_eq!(machines[0].plate_keys, vec!["Cool Plate"]);
}

#[test]
fn printers_of_one_model_are_gathered_with_all_their_plates() {
    let documents = machine_documents(&files(&[
        r#"{"name":"X1 0.4","type":"machine","instantiation":true,"printer_model":"Bambu Lab X1","nozzle_diameter":"0.4","plate_keys":"Textured PEI Plate;Cool Plate"}"#,
        r#"{"name":"A1 0.4","type":"machine","instantiation":true,"printer_model":"Bambu Lab A1","nozzle_diameter":"0.4","plate_keys":"Cool Plate"}"#,
        r#"{"name":"X1 0.6","type":"machine","instantiation":true,"printer_model":"Bambu Lab X1","nozzle_diameter":"0.6","plate_keys":"Engineering Plate;Cool Plate"}"#,
    ]))
    .unwrap();
    let machines = machine_catalog(&documents, &Vec::new()).unwrap();
    let groups = group_models(&machines);
    assert_eq!(groups.len(), 2);
    assert_eq!(groups[0].model_key, "Bambu Lab A1");
    assert_eq!(groups[0].members, vec![1]);
    assert_eq!(groups[1].model_key, "Bambu Lab X1");
    assert_eq!(groups[1].members, vec![0, 2]);
    assert_eq!(
        groups[1].plate_keys,
        vec!["Cool Plate", "Engineering Plate", "Textured PEI Plate"]
    );
}
