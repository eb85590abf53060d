use cylune::domain::PlateStatus;
use cylune::error::AppError;
use cylune::history::{first_pending_plate, plate_status_for_kind, status_for_job};

#[test]
fn job_state_maps_to_the_six_plate_status_words() {
    assert_eq!(
        status_for_job(None, 0, 1).unwrap(),
        PlateStatus::PendingMapping
    );
    assert_eq!(status_for_job(None, 1, 1).unwrap(), PlateStatus::Ready);
    assert_eq!(
        status_for_job(Some(r#"{"kind":"success"}"#), 0, 1).unwrap(),
        PlateStatus::Success
    );
    assert_eq!(
        status_for_job(Some(r#"{"kind":"failed","stop_layer":2}"#), 0, 1).unwrap(),
        PlateStatus::Failed
    );
    assert_eq!(
        status_for_job(Some(r#"{"kind":"cancelled","stop_layer":2}"#), 0, 1).unwrap(),
        PlateStatus::Cancelled
    );
    assert_eq!(
        status_for_job(Some(r#"{"kind":"skipped"}"#), 0, 1).unwrap(),
        PlateStatus::Skipped
    );
}

#[test]
fn unreadable_outcomes_are_database_errors() {
    let error = status_for_job(Some("not json"), 0, 1).unwrap_err();
    assert_eq!(error, AppError::Database("invalid job outcome".to_owned()));
    assert_eq!(error.code(), "database");
    assert!(status_for_job(Some(r#"{"kind":"exploded"}"#), 0, 1).is_err());
    assert!(status_for_job(Some(r#"{"stop_layer":2}"#), 0, 1).is_err());
}

#[test]
fn kinds_map_to_statuses() {
    assert_eq!(plate_status_for_kind(Some("skipped")), Ok(PlateStatus::Skipped));
    assert!(plate_status_for_kind(None).is_err());
}

#[test]
fn the_first_plate_waiting_to_print_is_chosen() {
    let statuses = vec![
        PlateStatus::Success,
        PlateStatus::Skipped,
        PlateStatus::Ready,
        PlateStatus::PendingMapping,
    ];
    assert_eq!(first_pending_plate(&statuses), Ok(2));
    assert_eq!(
        first_pending_plate(&vec![PlateStatus::Failed, PlateStatus::Cancelled]),
        Err(AppError::InvalidJob)
    );
}
