use cylune::error::AppError;
use cylune::printers::{
    inheritance_chain, plate_keys_for, printer_text_ok, setting_list, validate_printer_texts,
};

fn strings(values: &[&str]) -> Vec<String> {
    values.iter().map(|s| s.to_string()).collect()
}

fn document(name: &str, inherits: Option<&str>) -> (String, Option<String>) {
    (name.to_owned(), inherits.map(str::to_owned))
}

fn sorted(mut values: Vec<String>) -> Vec<String> {
    values.sort();
    values
}

#[test]
fn chinese_display_names_use_character_not_byte_limits() {
    let name = "我的打印机".repeat(10);
    assert!(printer_text_ok(&name, 80));
    assert!(validate_printer_texts(&name, "Bambu Lab P2S", "Textured PEI Plate", "AMS").is_ok());
    assert!(!printer_text_ok(&"我".repeat(81), 80));
}

#[test]
fn printer_names_are_trimmed_nonempty_and_free_of_control_characters() {
    assert!(printer_text_ok("  P2S  ", 3));
    assert!(!printer_text_ok("   ", 80));
    assert!(!printer_text_ok("a\u{7}b", 80));
    assert!(!printer_text_ok("a\u{85}b", 80));
    assert_eq!(
        validate_printer_texts("Desk", "", "Plate", "AMS"),
        Err(AppError::InvalidFile)
    );
}

#[test]
fn settings_split_on_semicolons_and_drop_empty_items() {
    assert_eq!(
        setting_list(" Cool Plate ; ;Textured PEI Plate;"),
        strings(&["Cool Plate", "Textured PEI Plate"])
    );
    assert_eq!(setting_list(""), Vec::<String>::new());
}

#[test]
fn resolves_inherited_profiles_child_first() {
    let documents = vec![
        document("base", None),
        document("Bambu Lab P2S 0.4 nozzle", Some("base")),
    ];
    assert_eq!(
        inheritance_chain(&documents, "Bambu Lab P2S 0.4 nozzle"),
        Ok(vec![1, 0])
    );
    assert_eq!(inheritance_chain(&documents, "base"), Ok(vec![0]));
}

#[test]
fn rejects_inheritance_cycles_in_instantiable_bambu_profiles() {
    let documents = vec![document("first", Some("second")), document("second", Some("first"))];
    assert_eq!(
        inheritance_chain(&documents, "first"),
        Err(AppError::SlicerIncompatible)
    );
    let missing = vec![document("child", Some("absent"))];
    assert_eq!(
        inheritance_chain(&missing, "child"),
        Err(AppError::SlicerIncompatible)
    );
    assert_eq!(
        inheritance_chain(&missing, "nobody"),
        Err(AppError::SlicerIncompatible)
    );
}

#[test]
fn explicit_plate_keys_win() {
    let keys = plate_keys_for(
        &strings(&["Textured PEI Plate", "Supertack Plate", "Textured PEI Plate"]),
        &strings(&["Cool Plate"]),
        &vec![],
        None,
        &vec![],
    )
    .unwrap();
    assert_eq!(sorted(keys), strings(&["Supertack Plate", "Textured PEI Plate"]));
}

#[test]
fn derives_official_plate_keys_and_removes_model_exclusions() {
    let official = strings(&[
        "Cool Plate",
        "Engineering Plate",
        "Smooth PEI Plate / High Temp Plate",
        "Supertack Plate",
        "Textured PEI Plate",
    ]);
    let keys = plate_keys_for(
        &vec![],
        &official,
        &vec![],
        Some("Textured PEI Plate"),
        &strings(&["Cool Plate"]),
    )
    .unwrap();
    assert_eq!(
        sorted(keys),
        strings(&[
            "Engineering Plate",
            "Smooth PEI Plate / High Temp Plate",
            "Supertack Plate",
            "Textured PEI Plate",
        ])
    );
}

#[test]
fn a_machine_without_plates_is_refused() {
    assert_eq!(
        plate_keys_for(&vec![], &vec![], &vec![], None, &vec![]),
        Err(AppError::SlicerIncompatible)
    );
    assert_eq!(
        plate_keys_for(&vec![], &strings(&["Cool Plate"]), &vec![], None, &strings(&["Cool Plate"])),
        Err(AppError::SlicerIncompatible)
    );
}
