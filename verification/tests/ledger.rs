use cylune::domain::{Confidence, SpoolStatus};
use cylune::error::AppError;
use cylune::inventory::{
    plan_calibration, colors_from_decoded, initial_color_hexes, stored_color_hexes, confidence_name, event_type_name, parse_confidence, spool_status, status_for, status_name,
    LedgerEventType,
};
use cylune::settlement::{
    check_mapping, check_mapping_count, check_spool_chargeable, group_charges, plan_reversal,
    plan_settlement,
    repeat_settlement, reversal_key,
    settlement_key, usage_source, OutcomeKind, UsageSource,
};

#[test]
fn status_is_derived_from_archival_mapping_and_balance() {
    assert_eq!(status_for(true, true, true), "archived");
    assert_eq!(status_for(false, true, true), "empty");
    assert_eq!(status_for(false, true, false), "assigned");
    assert_eq!(status_for(false, false, false), "available");
}

#[test]
fn stored_names_read_back() {
    for status in [
        SpoolStatus::Available,
        SpoolStatus::Assigned,
        SpoolStatus::Empty,
        SpoolStatus::Archived,
    ] {
        assert_eq!(spool_status(status_name(status)), Some(status));
    }
    for confidence in [
        Confidence::Exact,
        Confidence::Estimated,
        Confidence::NeedsConfirmation,
    ] {
        assert_eq!(parse_confidence(confidence_name(confidence)), Some(confidence));
    }
    assert_eq!(spool_status("lost"), None);
    assert_eq!(event_type_name(LedgerEventType::Reversal), "reversal");
}

#[test]
fn outcomes_select_their_usage() {
    let layers = vec![0, 1, 2, 3];
    assert_eq!(usage_source(&layers, OutcomeKind::Success), Ok(UsageSource::Totals));
    assert_eq!(usage_source(&layers, OutcomeKind::StoppedAt(2)), Ok(UsageSource::Layer(2)));
    assert_eq!(usage_source(&layers, OutcomeKind::StoppedAt(9)), Err(AppError::InvalidJob));
    assert_eq!(usage_source(&layers, OutcomeKind::EstimatedAt(3)), Ok(UsageSource::Layer(3)));
    assert_eq!(usage_source(&layers, OutcomeKind::EstimatedAt(4)), Err(AppError::InvalidJob));
    assert_eq!(usage_source(&vec![], OutcomeKind::EstimatedAt(0)), Err(AppError::InvalidJob));
}

#[test]
fn mappings_must_cover_every_used_tool_and_profile() {
    assert!(check_mapping_count(2, 2).is_ok());
    assert_eq!(check_mapping_count(1, 2), Err(AppError::InvalidMapping));
    assert!(check_mapping(&vec![0, 1], &vec![1, 0], &vec![0]).is_ok());
    assert_eq!(
        check_mapping(&vec![0, 1], &vec![0], &vec![0]),
        Err(AppError::InvalidMapping)
    );
    assert_eq!(
        check_mapping(&vec![0], &vec![0, 2], &vec![2]),
        Err(AppError::InvalidMapping)
    );
    assert_eq!(
        check_mapping(&vec![0, 0], &vec![0], &vec![]),
        Err(AppError::InvalidMapping)
    );
}

#[test]
fn archived_or_missing_spools_cannot_be_charged() {
    assert!(check_spool_chargeable(Some("assigned")).is_ok());
    assert_eq!(check_spool_chargeable(Some("archived")), Err(AppError::InvalidMapping));
    assert_eq!(check_spool_chargeable(None), Err(AppError::InvalidMapping));
}

#[test]
fn repeating_a_settlement_needs_the_same_outcome() {
    assert!(repeat_settlement(true).is_ok());
    assert_eq!(repeat_settlement(false), Err(AppError::DuplicateJob));
}

#[test]
fn event_keys_name_kind_job_version_and_spool() {
    assert_eq!(settlement_key("job", 12, "spool"), "settlement-job-12-spool");
    assert_eq!(reversal_key("job", 0, "spool"), "reversal-job-0-spool");
    assert_ne!(settlement_key("job", 1, "spool"), reversal_key("job", 1, "spool"));
}

#[test]
fn error_codes_are_stable() {
    assert_eq!(AppError::InvalidFile.code(), "invalid_file");
    assert_eq!(AppError::UnslicedProject.code(), "unsliced_project");
    assert_eq!(AppError::UnknownGcode.code(), "unknown_gcode");
    assert_eq!(
        AppError::StandaloneGcodeProfilesRequired.code(),
        "standalone_gcode_profiles_required"
    );
    assert_eq!(AppError::SlotConflict.code(), "slot_conflict");
    assert_eq!(AppError::InvalidSlot.code(), "invalid_slot");
    assert_eq!(AppError::ArchivedSpool.code(), "archived_spool");
    assert_eq!(AppError::DuplicateJob.code(), "duplicate_job");
    assert_eq!(AppError::FileNotStable.code(), "file_not_stable");
    assert_eq!(AppError::InvalidJob.code(), "invalid_job");
    assert_eq!(AppError::InvalidMapping.code(), "invalid_mapping");
    assert_eq!(AppError::InsufficientFilament.code(), "insufficient_filament");
    assert_eq!(AppError::InvalidPetSettings.code(), "invalid_pet_settings");
    assert_eq!(
        AppError::Database("unable to open /Users/robin/data.db".to_owned()).code(),
        "database"
    );
    assert_eq!(AppError::Io("disk".to_owned()).code(), "io");
}

#[test]
fn new_spools_without_colours_keep_their_primary_colour() {
    assert_eq!(initial_color_hexes(vec![], "#000000"), vec!["#000000".to_owned()]);
    assert_eq!(
        initial_color_hexes(vec!["#8EC9E9".to_owned(), "#E7C1D5".to_owned()], "#8EC9E9"),
        vec!["#8EC9E9".to_owned(), "#E7C1D5".to_owned()]
    );
}

#[test]
fn legacy_missing_invalid_or_empty_color_hexes_fall_back_to_primary_color() {
    for stored in [None, Some("not-json"), Some("[]")] {
        assert_eq!(stored_color_hexes(stored, "#000000"), vec!["#000000".to_owned()]);
    }
    assert_eq!(
        stored_color_hexes(Some(r##"["#8EC9E9","#E7C1D5"]"##), "#000000"),
        vec!["#8EC9E9".to_owned(), "#E7C1D5".to_owned()]
    );
    assert_eq!(
        colors_from_decoded(Some(vec![]), "#FFFFFF"),
        vec!["#FFFFFF".to_owned()]
    );
}

const GRAM_UNIT: i64 = 1_000_000_000;
const SPOOL_A: &str = "11111111-1111-4111-8111-111111111111";
const SPOOL_B: &str = "22222222-2222-4222-8222-222222222222";

#[test]
fn charges_are_grouped_by_spool_in_spool_order() {
    let charges = vec![
        (SPOOL_B.to_owned(), 3 * GRAM_UNIT, Some(3)),
        (SPOOL_A.to_owned(), 2 * GRAM_UNIT, Some(1)),
        (SPOOL_B.to_owned(), GRAM_UNIT, Some(4)),
        (SPOOL_A.to_owned(), 0, Some(2)),
    ];
    let grouped = group_charges(&charges);
    assert_eq!(
        grouped,
        vec![
            (SPOOL_A.to_owned(), 2 * GRAM_UNIT as i128, Some(1)),
            (SPOOL_B.to_owned(), 4 * GRAM_UNIT as i128, Some(3)),
        ]
    );
}

#[test]
fn a_settlement_is_refused_when_a_spool_cannot_take_its_charge() {
    let charges = vec![
        (SPOOL_A.to_owned(), 2 * GRAM_UNIT, Some(1)),
        (SPOOL_B.to_owned(), 5 * GRAM_UNIT, Some(3)),
    ];
    let ready = vec![
        (SPOOL_A.to_owned(), Some("active".to_owned()), 10 * GRAM_UNIT),
        (SPOOL_B.to_owned(), Some("active".to_owned()), 5 * GRAM_UNIT - 1),
    ];
    assert_eq!(plan_settlement(&charges, &ready).unwrap().len(), 2);
    let short = vec![
        (SPOOL_A.to_owned(), Some("active".to_owned()), 10 * GRAM_UNIT),
        (SPOOL_B.to_owned(), Some("active".to_owned()), 5 * GRAM_UNIT - 2),
    ];
    assert_eq!(plan_settlement(&charges, &short), Err(AppError::InsufficientFilament));
    let archived = vec![
        (SPOOL_A.to_owned(), Some("archived".to_owned()), 10 * GRAM_UNIT),
        (SPOOL_B.to_owned(), Some("active".to_owned()), 1),
    ];
    assert_eq!(plan_settlement(&charges, &archived), Err(AppError::InvalidMapping));
    let missing = vec![(SPOOL_A.to_owned(), Some("active".to_owned()), 10 * GRAM_UNIT)];
    assert_eq!(plan_settlement(&charges, &missing), Err(AppError::InvalidMapping));
}

#[test]
fn calibration_adjusts_by_the_difference() {
    assert_eq!(
        plan_calibration("available", 10 * GRAM_UNIT, 7 * GRAM_UNIT, true),
        Ok((Some(-3 * GRAM_UNIT as i128), SpoolStatus::Assigned))
    );
    assert_eq!(
        plan_calibration("assigned", 5, 5, false),
        Ok((None, SpoolStatus::Available))
    );
    assert_eq!(plan_calibration("available", 5, 0, true), Ok((Some(-5), SpoolStatus::Empty)));
    assert_eq!(plan_calibration("archived", 5, 7, false), Err(AppError::ArchivedSpool));
}

#[test]
fn a_negative_spool_weight_is_refused() {
    assert!(matches!(
        plan_calibration("available", 650 * GRAM_UNIT, -GRAM_UNIT, false),
        Err(AppError::Database(_))
    ));
    assert_eq!(plan_calibration("archived", 5, -1, false), Err(AppError::ArchivedSpool));
}

#[test]
fn a_reversal_gives_each_charge_back_once() {
    let settlements = vec![
        (SPOOL_A.to_owned(), "e1".to_owned(), -2 * GRAM_UNIT),
        (SPOOL_B.to_owned(), "e2".to_owned(), -GRAM_UNIT),
    ];
    let events = plan_reversal(false, "job", 1, &settlements).unwrap();
    assert_eq!(events.len(), 2);
    assert_eq!(events[0].delta, 2 * GRAM_UNIT as i128);
    assert_eq!(events[1].reverses_event_id, "e2");
    assert_eq!(events[0].idempotency_key, format!("reversal-job-1-{SPOOL_A}"));
    assert!(plan_reversal(true, "job", 1, &settlements).is_none());
}
