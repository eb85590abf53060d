use cylune::error::AppError;
use cylune::slots::SlotTable;

fn table(values: [Option<&str>; 4]) -> SlotTable {
    SlotTable::from_assignments(values.iter().map(|v| v.map(str::to_owned)).collect()).unwrap()
}

#[test]
fn mounting_replaces_the_slot_occupant() {
    let mut slots = SlotTable::new();
    assert_eq!(slots.mount(1, "old", false), Ok(None));
    assert_eq!(slots.mount(1, "replacement", false), Ok(Some("old".to_owned())));
    assert_eq!(slots.slot_spool(1), Ok(Some("replacement".to_owned())));
    assert!(!slots.is_mounted("old"));
}

#[test]
fn mounting_refuses_bad_slots_archived_and_already_mounted_spools() {
    let mut slots = table([Some("a"), None, None, None]);
    assert_eq!(slots.mount(0, "b", false), Err(AppError::InvalidSlot));
    assert_eq!(slots.mount(5, "b", false), Err(AppError::InvalidSlot));
    assert_eq!(slots.mount(2, "b", true), Err(AppError::ArchivedSpool));
    assert_eq!(slots.mount(2, "a", false), Err(AppError::SlotConflict));
    assert_eq!(slots.slot_spool(2), Ok(None));
}

#[test]
fn unmounting_returns_the_spool_to_the_library() {
    let mut slots = SlotTable::new();
    slots.mount(3, "spool", false).unwrap();
    assert_eq!(slots.unmount(3), Ok(Some("spool".to_owned())));
    assert_eq!(slots.slot_spool(3), Ok(None));
    assert!(!slots.is_mounted("spool"));
    assert_eq!(slots.unmount(9), Err(AppError::InvalidSlot));
}

#[test]
fn moving_to_an_occupied_slot_swaps_the_two_spools() {
    let mut slots = table([Some("first"), Some("second"), None, None]);
    assert_eq!(slots.move_spool("first", 2), Ok(Some("second".to_owned())));
    assert_eq!(slots.slot_spool(1), Ok(Some("second".to_owned())));
    assert_eq!(slots.slot_spool(2), Ok(Some("first".to_owned())));
    slots.move_spool("first", 1).unwrap();
    assert_eq!(slots.slot_spool(1), Ok(Some("first".to_owned())));
    assert_eq!(slots.slot_spool(2), Ok(Some("second".to_owned())));
}

#[test]
fn moving_needs_a_mounted_spool_and_an_existing_slot() {
    let mut slots = table([Some("first"), None, None, None]);
    assert_eq!(slots.move_spool("absent", 2), Err(AppError::SlotConflict));
    assert_eq!(slots.move_spool("first", 7), Err(AppError::InvalidSlot));
    assert_eq!(slots.move_spool("first", 1), Ok(None));
    assert_eq!(slots.move_spool("first", 4), Ok(None));
    assert_eq!(slots.slot_spool(4), Ok(Some("first".to_owned())));
}

#[test]
fn archiving_a_loaded_spool_fails_without_changing_its_slot() {
    let slots = table([None, None, None, Some("spool")]);
    assert_eq!(slots.check_archivable("spool"), Err(AppError::SlotConflict));
    assert_eq!(slots.slot_spool(4), Ok(Some("spool".to_owned())));
    assert_eq!(slots.check_archivable("other"), Ok(()));
}

#[test]
fn stored_assignments_must_be_four_distinct_spools() {
    assert!(SlotTable::from_assignments(vec![None, None, None]).is_none());
    assert!(SlotTable::from_assignments(vec![
        Some("a".to_owned()),
        None,
        Some("a".to_owned()),
        None
    ])
    .is_none());
}
