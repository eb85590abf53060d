use cylune::backup::parsed::{
    validate_cached_parse, validate_parsed, CachedParseRecord, GcodeRecord, LayerRecord,
    ParsedRecord, ProfileRecord, ProjectPlateRecord,
};
use cylune::backup::restore::{legacy_imported_at, restore_ledger_order, text_less};
use cylune::backup::snapshot::{
    validate, BackupSnapshot, ConsumptionRecord, JobRecord, LedgerRecord, MappingRecord,
    MediaRecord, ParseRecord, PlateRecord, ProjectRecord, SettingRecord, SlotRecord, SpoolRecord,
};
use cylune::backup::{
    contains_sensitive, job_outcome_ok, media_archive_name, media_extension, unsafe_setting,
    unsafe_stamp, valid_confidence, valid_hash, validate_header, validate_media_row, outcome_shape, OutcomeShape,
    BACKUP_SCHEMA_VERSION,
};
use cylune::error::AppError;

const GRAM: i64 = 1_000_000_000;
const SPOOL: &str = "11111111-1111-4111-8111-111111111111";
const PROJECT: &str = "22222222-2222-4222-8222-222222222222";
const PLATE: &str = "33333333-3333-4333-8333-333333333333";
const JOB: &str = "44444444-4444-4444-8444-444444444444";
const CREATED: &str = "55555555-5555-4555-8555-555555555555";
const SETTLED: &str = "66666666-6666-4666-8666-666666666666";
const REVERSED: &str = "77777777-7777-4777-8777-777777777777";
const STAMP: &str = "2024-05-01T10:00:00Z";

fn hash() -> String {
    "a".repeat(64)
}

fn parsed() -> ParsedRecord {
    ParsedRecord {
        filaments: vec![ProfileRecord {
            tool: 0,
            diameter_mm: Some(1_750_000_000),
            density_g_cm3: Some(1_240_000_000),
        }],
        gcode: GcodeRecord {
            layers: vec![
                LayerRecord {
                    layer: 0,
                    cumulative_mm: vec![(0, Some(5 * GRAM))],
                },
                LayerRecord {
                    layer: 1,
                    cumulative_mm: vec![(0, Some(10 * GRAM))],
                },
            ],
            totals_mm: vec![(0, Some(10 * GRAM))],
            max_layer: 2,
        },
    }
}

fn event(
    id: &str,
    kind: &str,
    delta: i64,
    job: Option<&str>,
    version: Option<u32>,
    reverses: Option<&str>,
) -> LedgerRecord {
    LedgerRecord {
        event_id: id.to_owned(),
        idempotency_key: format!("{kind}-{id}"),
        spool_id: SPOOL.to_owned(),
        job_id: job.map(str::to_owned),
        settlement_version: version,
        event_type: kind.to_owned(),
        delta_grams: Some(delta),
        confidence: "exact".to_owned(),
        reverses_event_id: reverses.map(str::to_owned),
        created_at: STAMP.to_owned(),
    }
}

/// A version 3 backup: one spool in slot 1, one project with one plate, one
/// settled job that used 12 g of the spool.
fn settled_backup() -> BackupSnapshot {
    BackupSnapshot {
        schema_version: BACKUP_SCHEMA_VERSION,
        media_files_included: false,
        spools: vec![SpoolRecord {
            spool_id: SPOOL.to_owned(),
            remaining_grams: Some(988 * GRAM),
            status: "assigned".to_owned(),
            created_at: STAMP.to_owned(),
        }],
        slots: vec![
            SlotRecord {
                slot_number: 1,
                spool_id: Some(SPOOL.to_owned()),
            },
            SlotRecord {
                slot_number: 2,
                spool_id: None,
            },
            SlotRecord {
                slot_number: 3,
                spool_id: None,
            },
            SlotRecord {
                slot_number: 4,
                spool_id: None,
            },
        ],
        parse_cache: vec![ParseRecord {
            source_hash: hash(),
            parsed: CachedParseRecord::Project {
                version: 2,
                plates: vec![ProjectPlateRecord {
                    plate_index: 1,
                    parsed: parsed(),
                }],
            },
            parse_count: 1,
            created_at: STAMP.to_owned(),
        }],
        media: vec![],
        projects: vec![ProjectRecord {
            project_id: PROJECT.to_owned(),
            source_hash: hash(),
            imported_at: STAMP.to_owned(),
            plate_count: 1,
            cover_asset_id: None,
        }],
        plates: vec![PlateRecord {
            plate_id: PLATE.to_owned(),
            project_id: PROJECT.to_owned(),
            plate_index: 1,
            thumbnail_asset_id: None,
            max_layer: 2,
            parsed: parsed(),
        }],
        jobs: vec![JobRecord {
            job_id: JOB.to_owned(),
            source_hash: hash(),
            outcome: Some("{\"kind\":\"success\"}".to_owned()),
            outcome_readable: true,
            settlement_version: 1,
            created_at: STAMP.to_owned(),
            plate_id: Some(PLATE.to_owned()),
        }],
        mappings: vec![MappingRecord {
            job_id: JOB.to_owned(),
            tool: 0,
            spool_id: SPOOL.to_owned(),
            slot_number: Some(1),
        }],
        consumption: vec![ConsumptionRecord {
            job_id: JOB.to_owned(),
            spool_id: SPOOL.to_owned(),
            settlement_version: 1,
            consumed_grams: Some(12 * GRAM),
            confidence: "exact".to_owned(),
            slot_number: Some(1),
        }],
        ledger: vec![
            event(CREATED, "creation", 1000 * GRAM, None, None, None),
            event(SETTLED, "settlement", -12 * GRAM, Some(JOB), Some(1), None),
        ],
        settings: vec![SettingRecord {
            key: "theme".to_owned(),
            value: "dark".to_owned(),
        }],
    }
}

#[test]
fn a_consistent_backup_is_accepted() {
    assert!(validate(&settled_backup()).is_ok());
}

#[test]
fn an_empty_older_backup_with_four_slots_is_accepted() {
    let mut backup = settled_backup();
    backup.schema_version = 1;
    backup.spools.clear();
    for slot in backup.slots.iter_mut() {
        slot.spool_id = None;
    }
    backup.parse_cache.clear();
    backup.projects.clear();
    backup.plates.clear();
    backup.jobs.clear();
    backup.mappings.clear();
    backup.consumption.clear();
    backup.ledger.clear();
    assert!(validate(&backup).is_ok());
}

#[test]
fn older_backups_cannot_carry_projects() {
    let mut backup = settled_backup();
    backup.schema_version = 2;
    assert!(matches!(validate(&backup), Err(AppError::InvalidFile)));
}

#[test]
fn a_backup_needs_exactly_four_numbered_slots() {
    let mut backup = settled_backup();
    backup.slots.pop();
    assert!(validate(&backup).is_err());
    let mut backup = settled_backup();
    backup.slots.swap(1, 2);
    assert!(validate(&backup).is_err());
}

#[test]
fn unknown_versions_are_refused() {
    let mut backup = settled_backup();
    backup.schema_version = 4;
    assert!(validate(&backup).is_err());
}

#[test]
fn a_spool_may_not_sit_in_two_slots() {
    let mut backup = settled_backup();
    backup.slots[2].spool_id = Some(SPOOL.to_owned());
    assert!(validate(&backup).is_err());
}

#[test]
fn identities_must_be_unique() {
    let mut backup = settled_backup();
    let mut again = event(CREATED, "adjustment", GRAM, None, None, None);
    again.idempotency_key = "other".to_owned();
    backup.ledger.push(again);
    backup.spools[0].remaining_grams = Some(989 * GRAM);
    assert!(validate(&backup).is_err());
}

#[test]
fn ids_must_be_uuids_in_a_form_the_parser_takes() {
    let mut backup = settled_backup();
    backup.ledger[0].event_id = "not-a-uuid".to_owned();
    assert!(validate(&backup).is_err());
    let mut backup = settled_backup();
    backup.ledger[0].event_id = "{55555555-5555-4555-8555-555555555555}".to_owned();
    assert!(validate(&backup).is_ok());
    let mut backup = settled_backup();
    backup.ledger[0].event_id = "URN:uuid:55555555-5555-4555-8555-55555555555A".to_owned();
    assert!(validate(&backup).is_ok());
    let mut backup = settled_backup();
    backup.ledger[0].event_id = "55555555555545558555555555555555".to_owned();
    assert!(validate(&backup).is_ok());
}

#[test]
fn the_balance_must_match_the_ledger_within_a_microgram() {
    let mut backup = settled_backup();
    backup.spools[0].remaining_grams = Some(988 * GRAM + 1000);
    assert!(validate(&backup).is_ok());
    backup.spools[0].remaining_grams = Some(988 * GRAM + 1001);
    assert!(validate(&backup).is_err());
}

#[test]
fn the_status_must_follow_from_slot_and_balance() {
    let mut backup = settled_backup();
    backup.spools[0].status = "available".to_owned();
    assert!(validate(&backup).is_err());
    let mut backup = settled_backup();
    backup.slots[0].spool_id = None;
    backup.mappings[0].slot_number = Some(1);
    assert!(validate(&backup).is_err());
    backup.spools[0].status = "available".to_owned();
    assert!(validate(&backup).is_ok());
}

#[test]
fn consumption_needs_its_settlement_event() {
    let mut backup = settled_backup();
    backup.consumption[0].consumed_grams = Some(13 * GRAM);
    assert!(validate(&backup).is_err());
    let mut backup = settled_backup();
    backup.consumption[0].confidence = "estimated".to_owned();
    assert!(validate(&backup).is_err());
}

#[test]
fn a_reversal_must_undo_a_settlement_of_the_same_spool() {
    let mut backup = settled_backup();
    backup.ledger.push(event(
        REVERSED,
        "reversal",
        12 * GRAM,
        Some(JOB),
        Some(1),
        Some(SETTLED),
    ));
    backup.spools[0].remaining_grams = Some(1000 * GRAM);
    assert!(validate(&backup).is_ok());
    backup.ledger[2].delta_grams = Some(11 * GRAM);
    backup.spools[0].remaining_grams = Some(999 * GRAM);
    assert!(validate(&backup).is_err());
    backup.ledger[2].delta_grams = Some(12 * GRAM);
    backup.ledger[2].reverses_event_id = Some(CREATED.to_owned());
    backup.spools[0].remaining_grams = Some(1000 * GRAM);
    assert!(validate(&backup).is_err());
}

#[test]
fn event_types_fix_their_links_and_signs() {
    let mut backup = settled_backup();
    backup.ledger[0].delta_grams = Some(-GRAM);
    backup.spools[0].remaining_grams = Some(-13 * GRAM);
    assert!(validate(&backup).is_err());
    let mut backup = settled_backup();
    backup.ledger[1].event_type = "refund".to_owned();
    assert!(validate(&backup).is_err());
    let mut backup = settled_backup();
    backup.ledger[1].delta_grams = None;
    assert!(validate(&backup).is_err());
}

#[test]
fn a_skipped_job_has_no_usage() {
    let mut backup = settled_backup();
    backup.jobs[0].outcome = Some("{\"kind\":\"skipped\"}".to_owned());
    backup.jobs[0].outcome_readable = false;
    backup.jobs[0].settlement_version = 0;
    backup.consumption.clear();
    assert!(validate(&backup).is_err());
    backup.ledger.pop();
    backup.spools[0].remaining_grams = Some(1000 * GRAM);
    assert!(validate(&backup).is_ok());
}

#[test]
fn a_mapping_must_name_a_tool_of_the_jobs_parse() {
    let mut backup = settled_backup();
    backup.mappings[0].tool = 1;
    assert!(validate(&backup).is_err());
    let mut backup = settled_backup();
    backup.mappings.push(backup.mappings[0].clone());
    assert!(validate(&backup).is_err());
}

#[test]
fn a_version_three_job_must_name_its_plate() {
    let mut backup = settled_backup();
    backup.jobs[0].plate_id = None;
    assert!(validate(&backup).is_err());
}

#[test]
fn plate_counts_must_match() {
    let mut backup = settled_backup();
    backup.projects[0].plate_count = 2;
    assert!(validate(&backup).is_err());
}

#[test]
fn only_safe_settings_are_restored() {
    let mut backup = settled_backup();
    backup.settings.push(SettingRecord {
        key: "api_token".to_owned(),
        value: "x".to_owned(),
    });
    assert!(validate(&backup).is_err());
    let mut backup = settled_backup();
    backup.settings[0].value = "sepia".to_owned();
    assert!(validate(&backup).is_err());
}

#[test]
fn parses_need_monotone_lengths_within_their_totals() {
    assert!(validate_parsed(&parsed()).is_ok());
    let mut shrinking = parsed();
    shrinking.gcode.layers[1].cumulative_mm = vec![(0, Some(5 * GRAM - 2))];
    assert!(matches!(validate_parsed(&shrinking), Err(AppError::InvalidFile)));
    let mut slack = parsed();
    slack.gcode.layers[1].cumulative_mm = vec![(0, Some(5 * GRAM - 1))];
    assert!(validate_parsed(&slack).is_ok());
    let mut over = parsed();
    over.gcode.totals_mm = vec![(0, Some(9 * GRAM))];
    assert!(validate_parsed(&over).is_err());
    let mut numbering = parsed();
    numbering.gcode.layers[1].layer = 2;
    assert!(validate_parsed(&numbering).is_err());
    let mut unknown_tool = parsed();
    unknown_tool.gcode.totals_mm = vec![(0, Some(10 * GRAM)), (1, Some(GRAM))];
    assert!(validate_parsed(&unknown_tool).is_err());
    let mut bad_profile = parsed();
    bad_profile.filaments[0].density_g_cm3 = None;
    assert!(validate_parsed(&bad_profile).is_err());
}

#[test]
fn cached_projects_need_distinct_nonzero_plates() {
    let plate = ProjectPlateRecord {
        plate_index: 1,
        parsed: parsed(),
    };
    let two = CachedParseRecord::Project {
        version: 2,
        plates: vec![plate.clone(), plate.clone()],
    };
    assert!(validate_cached_parse(&two).is_err());
    let wrong_version = CachedParseRecord::Project {
        version: 1,
        plates: vec![plate.clone()],
    };
    assert!(validate_cached_parse(&wrong_version).is_err());
    assert!(validate_cached_parse(&CachedParseRecord::Legacy(parsed())).is_ok());
}

#[test]
fn row_helpers() {
    assert!(contains_sensitive("My_PassWord"));
    assert!(!contains_sensitive("theme"));
    assert!(valid_hash(&hash()));
    assert!(!valid_hash(&"A".repeat(64)));
    assert!(valid_confidence("needs_confirmation"));
    assert!(!valid_confidence("sure"));
    assert!(unsafe_stamp(""));
    assert!(unsafe_stamp("2024/01/01"));
    assert!(!unsafe_stamp(STAMP));
    assert!(!unsafe_setting("locale", "zh-TW"));
    assert!(unsafe_setting("locale", "fr"));
    assert!(job_outcome_ok(OutcomeShape::Absent, 0));
    assert!(!job_outcome_ok(OutcomeShape::Settled, 0));
    assert!(!job_outcome_ok(OutcomeShape::Unreadable, 1));
    assert!(validate_header(3, true, 4).is_ok());
    assert!(validate_header(2, true, 4).is_err());
}

#[test]
fn outcome_shapes_come_from_the_stored_text() {
    assert_eq!(outcome_shape(None, false), OutcomeShape::Absent);
    assert_eq!(outcome_shape(Some("{\"kind\":\"skipped\"}"), false), OutcomeShape::Skipped);
    assert_eq!(outcome_shape(Some("{\"kind\":\"skipped\"}"), true), OutcomeShape::Skipped);
    assert_eq!(outcome_shape(Some("{\"kind\":\"success\"}"), true), OutcomeShape::Settled);
    assert_eq!(outcome_shape(Some("not json"), false), OutcomeShape::Unreadable);
    assert_eq!(outcome_shape(Some("{\"kind\":\"warped\"}"), false), OutcomeShape::Unreadable);
}

#[test]
fn media_rows_point_at_their_own_file() {
    let id = "b".repeat(64);
    let path = format!("media/bb/{id}.png");
    assert_eq!(media_extension(&path).unwrap(), "png");
    assert_eq!(media_archive_name(&id, &path).unwrap(), format!("media/{id}.png"));
    assert!(validate_media_row(&id, &path, "image/png", 10, STAMP, Some(4), Some(3)).is_ok());
    let elsewhere = format!("media/cc/{id}.png");
    assert!(validate_media_row(&id, &elsewhere, "image/png", 10, STAMP, None, None).is_err());
    assert!(validate_media_row(&id, &path, "image/png", 10, STAMP, Some(0), None).is_err());
    assert!(media_extension("media/bb/noext").is_err());
}

#[test]
fn media_rows_are_checked_inside_a_backup() {
    let mut backup = settled_backup();
    let id = "b".repeat(64);
    backup.media.push(MediaRecord {
        asset_id: id.clone(),
        relative_path: format!("media/bb/{id}.png"),
        mime_type: "image/png".to_owned(),
        byte_size: 10,
        width: Some(4),
        height: Some(3),
        created_at: STAMP.to_owned(),
    });
    backup.projects[0].cover_asset_id = Some(id.clone());
    assert!(validate(&backup).is_ok());
    backup.projects[0].cover_asset_id = Some("c".repeat(64));
    assert!(validate(&backup).is_err());
}

#[test]
fn two_identical_spools_keep_independent_balances() {
    const TWIN: &str = "88888888-8888-4888-8888-888888888888";
    const TWIN_CREATED: &str = "99999999-9999-4999-8999-999999999999";
    let mut backup = settled_backup();
    backup.spools.push(SpoolRecord {
        spool_id: TWIN.to_owned(),
        remaining_grams: Some(1000 * GRAM),
        status: "available".to_owned(),
        created_at: STAMP.to_owned(),
    });
    let mut created = event(TWIN_CREATED, "creation", 1000 * GRAM, None, None, None);
    created.spool_id = TWIN.to_owned();
    backup.ledger.push(created);
    assert!(validate(&backup).is_ok());
    backup.spools[1].remaining_grams = Some(988 * GRAM);
    assert!(validate(&backup).is_err());
}

#[test]
fn reversals_are_restored_after_the_events_they_undo() {
    let ledger = vec![
        event("a", "reversal", GRAM, Some(JOB), Some(1), Some("b")),
        event("b", "settlement", -GRAM, Some(JOB), Some(1), None),
        event("c", "initial", GRAM, None, None, None),
        event("d", "reversal", GRAM, Some(JOB), Some(2), Some("c")),
    ];
    assert_eq!(restore_ledger_order(&ledger), vec![1, 2, 0, 3]);
    assert!(restore_ledger_order(&Vec::new()).is_empty());
}

#[test]
fn an_older_project_is_imported_when_its_first_job_was() {
    let mut backup = settled_backup();
    let mut second = backup.jobs[0].clone();
    second.created_at = "2024-04-30T09:00:00Z".to_owned();
    backup.jobs.push(second);
    let mut other = backup.jobs[0].clone();
    other.source_hash = "f".repeat(64);
    other.created_at = "2023-01-01T00:00:00Z".to_owned();
    backup.jobs.push(other);
    assert_eq!(
        legacy_imported_at(&backup.jobs, &hash(), "2025-01-01T00:00:00Z"),
        "2024-04-30T09:00:00Z"
    );
    assert_eq!(
        legacy_imported_at(&backup.jobs, &"0".repeat(64), "2025-01-01T00:00:00Z"),
        "2025-01-01T00:00:00Z"
    );
}

#[test]
fn texts_sort_character_by_character() {
    assert!(text_less("2024-01-01", "2024-01-02"));
    assert!(!text_less("2024-01-02", "2024-01-01"));
    assert!(text_less("2024", "2024-01"));
    assert!(!text_less("2024", "2024"));
    assert!(text_less("", "a"));
    assert!(!text_less("b", ""));
}
