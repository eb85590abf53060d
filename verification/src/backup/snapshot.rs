//! A backup as the check reads it, row by row, and the check itself: the
//! backup replaces the database only where every rule of `backup_ok` holds.
//!
//! Gram amounts are carried as whole billionths of a gram (`Some(n)` stands
//! for `n / 10^9` g); `None` stands for a stored number that is not finite.
use crate::backup::parsed::{
    amount, has_profile, cached_parse_ok, cached_parse_wf, finite_nonnegative, parsed_ok, parsed_wf,
    profiles_have_tool, validate_cached_parse, validate_parsed, CachedParseRecord, ParsedRecord,
    ProfileRecord,
};
use crate::backup::{
    all_distinct, contains_text, distinct_texts, texts, contains_sensitive, header_ok, job_outcome_ok, job_outcome_ok_spec, media_row_ok,
    setting_allowed_spec, unsafe_setting, unsafe_stamp, unsafe_stamp_spec, valid_confidence,
    valid_hash, valid_hash_spec, validate_media_row, outcome_shape, outcome_shape_spec, OutcomeShape, BACKUP_SCHEMA_VERSION,
};
use crate::error::AppError;
use crate::inventory::{confidence_spec, spool_status_spec, status_for_spec, status_text};
use crate::text::{ascii_lower_seq, str_eq};
use vstd::prelude::*;

verus! {

/// The slack, in billionths of a gram, allowed where two amounts must agree.
pub const GRAM_SLACK: i64 = 1000;

#[derive(Debug, Clone)]
pub struct SpoolRecord {
    pub spool_id: String,
    pub remaining_grams: Option<i64>,
    pub status: String,
    pub created_at: String,
}

#[derive(Debug, Clone)]
pub struct SlotRecord {
    pub slot_number: u8,
    pub spool_id: Option<String>,
}

#[derive(Debug, Clone)]
pub struct ParseRecord {
    pub source_hash: String,
    pub parsed: CachedParseRecord,
    pub parse_count: u32,
    pub created_at: String,
}

#[derive(Debug, Clone)]
pub struct MediaRecord {
    pub asset_id: String,
    pub relative_path: String,
    pub mime_type: String,
    pub byte_size: u64,
    pub width: Option<u32>,
    pub height: Option<u32>,
    pub created_at: String,
}

#[derive(Debug, Clone)]
pub struct ProjectRecord {
    pub project_id: String,
    pub source_hash: String,
    pub imported_at: String,
    pub plate_count: u32,
    pub cover_asset_id: Option<String>,
}

#[derive(Debug, Clone)]
pub struct PlateRecord {
    pub plate_id: String,
    pub project_id: String,
    pub plate_index: u32,
    pub thumbnail_asset_id: Option<String>,
    pub max_layer: u32,
    pub parsed: ParsedRecord,
}

/// A print job; `outcome` is its stored outcome text, and `outcome_readable`
/// says whether that text reads as a settlement outcome.
#[derive(Debug, Clone)]
pub struct JobRecord {
    pub job_id: String,
    pub source_hash: String,
    pub outcome: Option<String>,
    pub outcome_readable: bool,
    pub settlement_version: u32,
    pub created_at: String,
    pub plate_id: Option<String>,
}

#[derive(Debug, Clone)]
pub struct MappingRecord {
    pub job_id: String,
    pub tool: u8,
    pub spool_id: String,
    pub slot_number: Option<u8>,
}

#[derive(Debug, Clone)]
pub struct ConsumptionRecord {
    pub job_id: String,
    pub spool_id: String,
    pub settlement_version: u32,
    pub consumed_grams: Option<i64>,
    pub confidence: String,
    pub slot_number: Option<u8>,
}

#[derive(Debug, Clone)]
pub struct LedgerRecord {
    pub event_id: String,
    pub idempotency_key: String,
    pub spool_id: String,
    pub job_id: Option<String>,
    pub settlement_version: Option<u32>,
    pub event_type: String,
    pub delta_grams: Option<i64>,
    pub confidence: String,
    pub reverses_event_id: Option<String>,
    pub created_at: String,
}

#[derive(Debug, Clone)]
pub struct SettingRecord {
    pub key: String,
    pub value: String,
}

/// Everything a backup holds.
#[derive(Debug, Clone)]
pub struct BackupSnapshot {
    pub schema_version: u32,
    pub media_files_included: bool,
    pub spools: Vec<SpoolRecord>,
    pub slots: Vec<SlotRecord>,
    pub parse_cache: Vec<ParseRecord>,
    pub media: Vec<MediaRecord>,
    pub projects: Vec<ProjectRecord>,
    pub plates: Vec<PlateRecord>,
    pub jobs: Vec<JobRecord>,
    pub mappings: Vec<MappingRecord>,
    pub consumption: Vec<ConsumptionRecord>,
    pub ledger: Vec<LedgerRecord>,
    pub settings: Vec<SettingRecord>,
}

pub open spec fn opt_text(o: Option<String>) -> Option<Seq<char>> {
    match o {
        Some(s) => Some(s@),
        None => None,
    }
}

/// The shape of a job's stored outcome.
pub open spec fn job_shape(j: JobRecord) -> OutcomeShape {
    outcome_shape_spec(opt_text(j.outcome), j.outcome_readable)
}

fn job_shape_of(j: &JobRecord) -> (r: OutcomeShape)
    ensures
        r == job_shape(*j),
{
    let text = match &j.outcome {
        Some(t) => Some(t.as_str()),
        None => None,
    };
    outcome_shape(text, j.outcome_readable)
}

pub open spec fn any_hex_digit(c: char) -> bool {
    ('0' <= c <= '9') || ('a' <= c <= 'f') || ('A' <= c <= 'F')
}

/// 36 characters: hex digits in groups of 8, 4, 4, 4 and 12, joined by hyphens.
pub open spec fn hyphenated_uuid(s: Seq<char>) -> bool {
    &&& s.len() == 36
    &&& s[8] == '-' && s[13] == '-' && s[18] == '-' && s[23] == '-'
    &&& forall|i: int|
        0 <= i < 36 && i != 8 && i != 13 && i != 18 && i != 23 ==> any_hex_digit(#[trigger] s[i])
}

/// The texts `Uuid::parse_str` accepts: 32 hex digits; the hyphenated form;
/// the hyphenated form in braces; or `urn:uuid:` in any ASCII case followed
/// by the hyphenated form. Hex digits may be of either case.
pub open spec fn uuid_text_ok(s: Seq<char>) -> bool {
    ||| s.len() == 32 && forall|i: int| 0 <= i < 32 ==> any_hex_digit(#[trigger] s[i])
    ||| hyphenated_uuid(s)
    ||| s.len() == 38 && s[0] == '{' && s[37] == '}' && hyphenated_uuid(s.subrange(1, 37))
    ||| s.len() == 45 && ascii_lower_seq(s.take(9)) == "urn:uuid:"@ && hyphenated_uuid(s.skip(9))
}

/// Whether `Uuid::parse_str` accepts the text: the contract restates which
/// texts the `uuid` parser takes (see `uuid_text_ok`).
#[verifier::external_body]
fn valid_uuid(value: &str) -> (r: bool)
    ensures
        r == uuid_text_ok(value@),
{
    uuid::Uuid::parse_str(value).is_ok()
}

pub open spec fn spool_ids(b: BackupSnapshot) -> Seq<Seq<char>> {
    b.spools@.map_values(|s: SpoolRecord| s.spool_id@)
}

pub open spec fn parse_hashes(b: BackupSnapshot) -> Seq<Seq<char>> {
    b.parse_cache@.map_values(|p: ParseRecord| p.source_hash@)
}

pub open spec fn job_ids(b: BackupSnapshot) -> Seq<Seq<char>> {
    b.jobs@.map_values(|j: JobRecord| j.job_id@)
}

pub open spec fn asset_ids(b: BackupSnapshot) -> Seq<Seq<char>> {
    b.media@.map_values(|m: MediaRecord| m.asset_id@)
}

pub open spec fn media_paths(b: BackupSnapshot) -> Seq<Seq<char>> {
    b.media@.map_values(|m: MediaRecord| m.relative_path@)
}

pub open spec fn project_ids(b: BackupSnapshot) -> Seq<Seq<char>> {
    b.projects@.map_values(|p: ProjectRecord| p.project_id@)
}

pub open spec fn plate_ids(b: BackupSnapshot) -> Seq<Seq<char>> {
    b.plates@.map_values(|p: PlateRecord| p.plate_id@)
}

pub open spec fn event_ids(b: BackupSnapshot) -> Seq<Seq<char>> {
    b.ledger@.map_values(|e: LedgerRecord| e.event_id@)
}

pub open spec fn event_keys(b: BackupSnapshot) -> Seq<Seq<char>> {
    b.ledger@.map_values(|e: LedgerRecord| e.idempotency_key@)
}

pub open spec fn setting_keys(b: BackupSnapshot) -> Seq<Seq<char>> {
    b.settings@.map_values(|s: SettingRecord| s.key@)
}

/// No spool, cached parse, job, media file (by id and by path), project,
/// plate, ledger event (by id and by idempotency key) or setting occurs twice.
pub open spec fn identities_distinct(b: BackupSnapshot) -> bool {
    &&& distinct_texts(spool_ids(b))
    &&& distinct_texts(parse_hashes(b))
    &&& distinct_texts(job_ids(b))
    &&& distinct_texts(asset_ids(b))
    &&& distinct_texts(media_paths(b))
    &&& distinct_texts(project_ids(b))
    &&& distinct_texts(plate_ids(b))
    &&& distinct_texts(event_ids(b))
    &&& distinct_texts(event_keys(b))
    &&& distinct_texts(setting_keys(b))
}

/// Before version 3 a backup has no media, projects or plates, no job names
/// a plate, and every cached parse is a single-plate one.
pub open spec fn older_shape_ok(b: BackupSnapshot) -> bool {
    b.schema_version < 3 ==> {
        &&& b.media@.len() == 0
        &&& b.projects@.len() == 0
        &&& b.plates@.len() == 0
        &&& forall|j: int| 0 <= j < b.jobs@.len() ==> (#[trigger] b.jobs@[j]).plate_id is None
        &&& forall|p: int|
            0 <= p < b.parse_cache@.len() ==> (#[trigger] b.parse_cache@[p]).parsed is Legacy
    }
}

/// Each spool has a UUID, a finite non-negative amount left, a known status and a safe timestamp.
pub open spec fn spools_ok(b: BackupSnapshot) -> bool {
    forall|k: int|
        0 <= k < b.spools@.len() ==> {
            let s = #[trigger] b.spools@[k];
            &&& uuid_text_ok(s.spool_id@)
            &&& finite_nonnegative(s.remaining_grams)
            &&& spool_status_spec(s.status@) is Some
            &&& !unsafe_stamp_spec(s.created_at@)
        }
}

/// The slots are numbered 1, 2, ... in order; each holds a known spool or
/// nothing; no spool sits in two slots.
pub open spec fn slots_ok(b: BackupSnapshot) -> bool {
    &&& forall|i: int| 0 <= i < b.slots@.len() ==> (#[trigger] b.slots@[i]).slot_number as int == i + 1
    &&& forall|i: int|
        0 <= i < b.slots@.len() ==> (opt_text((#[trigger] b.slots@[i]).spool_id) matches Some(id)
            ==> spool_ids(b).contains(id))
    &&& forall|i: int, j: int|
        0 <= i < j < b.slots@.len() ==> (opt_text((#[trigger] b.slots@[i]).spool_id) matches Some(a)
            ==> opt_text((#[trigger] b.slots@[j]).spool_id) != Some(a))
}

/// Each cached parse has a hash for its key, was counted once, has a safe
/// timestamp and holds a sound parse.
pub open spec fn parse_cache_ok(b: BackupSnapshot) -> bool {
    forall|k: int|
        0 <= k < b.parse_cache@.len() ==> {
            let p = #[trigger] b.parse_cache@[k];
            &&& valid_hash_spec(p.source_hash@)
            &&& p.parse_count == 1
            &&& !unsafe_stamp_spec(p.created_at@)
            &&& cached_parse_ok(p.parsed)
        }
}

pub open spec fn media_ok(b: BackupSnapshot) -> bool {
    forall|k: int|
        0 <= k < b.media@.len() ==> {
            let m = #[trigger] b.media@[k];
            media_row_ok(
                m.asset_id@,
                m.relative_path@,
                m.mime_type@,
                m.byte_size,
                m.created_at@,
                m.width,
                m.height,
            )
        }
}

pub open spec fn settings_ok(b: BackupSnapshot) -> bool {
    forall|k: int|
        0 <= k < b.settings@.len() ==> setting_allowed_spec(
            (#[trigger] b.settings@[k]).key@,
            b.settings@[k].value@,
        )
}

/// A project has a UUID, a cached parse for its source, at least one plate, a
/// safe timestamp and, if it names a cover, a cover among the media.
pub open spec fn projects_ok(b: BackupSnapshot) -> bool {
    forall|k: int|
        0 <= k < b.projects@.len() ==> {
            let p = #[trigger] b.projects@[k];
            &&& uuid_text_ok(p.project_id@)
            &&& parse_hashes(b).contains(p.source_hash@)
            &&& p.plate_count != 0
            &&& !unsafe_stamp_spec(p.imported_at@)
            &&& (opt_text(p.cover_asset_id) matches Some(a) ==> asset_ids(b).contains(a))
        }
}

/// A plate has a UUID, a known project, a non-zero number no other plate of
/// its project has, a known thumbnail if any, and a sound parse whose layer
/// count it repeats.
pub open spec fn plates_ok(b: BackupSnapshot) -> bool {
    &&& forall|k: int|
        0 <= k < b.plates@.len() ==> {
            let p = #[trigger] b.plates@[k];
            &&& uuid_text_ok(p.plate_id@)
            &&& project_ids(b).contains(p.project_id@)
            &&& p.plate_index != 0
            &&& (opt_text(p.thumbnail_asset_id) matches Some(a) ==> asset_ids(b).contains(a))
            &&& p.max_layer == p.parsed.gcode.max_layer
            &&& parsed_ok(p.parsed)
        }
    &&& forall|a: int, c: int|
        0 <= a < c < b.plates@.len() ==> !((#[trigger] b.plates@[a]).project_id@ == (
        #[trigger] b.plates@[c]).project_id@ && b.plates@[a].plate_index == b.plates@[c].plate_index)
}

/// How many of `plates` belong to the project `project_id`.
pub open spec fn plates_of(plates: Seq<PlateRecord>, project_id: Seq<char>) -> nat
    decreases plates.len(),
{
    if plates.len() == 0 {
        0
    } else {
        plates_of(plates.drop_last(), project_id) + if plates.last().project_id@ == project_id {
            1nat
        } else {
            0nat
        }
    }
}

/// Each project's plate count is the number of its plates.
pub open spec fn plate_counts_ok(b: BackupSnapshot) -> bool {
    forall|k: int|
        0 <= k < b.projects@.len() ==> (plates_of(b.plates@, (#[trigger] b.projects@[k]).project_id@)
            as u32) == b.projects@[k].plate_count
}

pub open spec fn abs(x: int) -> int {
    if x < 0 {
        -x
    } else {
        x
    }
}

/// A job names a plate of the backup, and that plate's project was parsed
/// from the same source as the job.
pub open spec fn job_plate_ok(b: BackupSnapshot, j: JobRecord) -> bool {
    opt_text(j.plate_id) matches Some(pid) && exists|p: int|
        0 <= p < b.plates@.len() && (#[trigger] b.plates@[p]).plate_id@ == pid && exists|q: int|
            0 <= q < b.projects@.len() && (#[trigger] b.projects@[q]).project_id@
                == b.plates@[p].project_id@ && b.projects@[q].source_hash@ == j.source_hash@
}

/// A job has a UUID, a cached parse for its source and a safe timestamp; from
/// version 3 on it names its plate (see `job_plate_ok`); its outcome agrees
/// with its settlement version.
pub open spec fn jobs_ok(b: BackupSnapshot) -> bool {
    forall|k: int|
        0 <= k < b.jobs@.len() ==> {
            let j = #[trigger] b.jobs@[k];
            &&& uuid_text_ok(j.job_id@)
            &&& parse_hashes(b).contains(j.source_hash@)
            &&& !unsafe_stamp_spec(j.created_at@)
            &&& (b.schema_version == 3 ==> job_plate_ok(b, j))
            &&& job_outcome_ok_spec(job_shape(j), j.settlement_version)
        }
}

pub open spec fn cached_has_tool(c: CachedParseRecord, tool: u8) -> bool {
    match c {
        CachedParseRecord::Legacy(p) => profiles_have_tool(p.filaments@, tool),
        CachedParseRecord::Project { version, plates } => plates@.len() > 0 && profiles_have_tool(
            plates@[0].parsed.filaments@,
            tool,
        ),
    }
}

/// The parse a job was made from has a profile for `tool`: the parse of the
/// job's plate, or else the first plate of the parse cached for its source.
pub open spec fn job_has_tool(b: BackupSnapshot, j: JobRecord, tool: u8) -> bool {
    match opt_text(j.plate_id) {
        Some(pid) => exists|p: int|
            0 <= p < b.plates@.len() && (#[trigger] b.plates@[p]).plate_id@ == pid
                && profiles_have_tool(b.plates@[p].parsed.filaments@, tool),
        None => exists|c: int|
            0 <= c < b.parse_cache@.len() && (#[trigger] b.parse_cache@[c]).source_hash@
                == j.source_hash@ && cached_has_tool(b.parse_cache@[c].parsed, tool),
    }
}

pub open spec fn slot_number_ok(slot: Option<u8>) -> bool {
    slot matches Some(n) ==> 1 <= n <= 4
}

/// A mapping names a known job whose parse has its tool, a known spool and,
/// if any, a slot from 1 to 4; no job maps a tool twice.
pub open spec fn mappings_ok(b: BackupSnapshot) -> bool {
    &&& forall|m: int|
        0 <= m < b.mappings@.len() ==> {
            let x = #[trigger] b.mappings@[m];
            &&& exists|j: int|
                0 <= j < b.jobs@.len() && (#[trigger] b.jobs@[j]).job_id@ == x.job_id@
                    && job_has_tool(b, b.jobs@[j], x.tool)
            &&& spool_ids(b).contains(x.spool_id@)
            &&& slot_number_ok(x.slot_number)
        }
    &&& forall|a: int, c: int|
        0 <= a < c < b.mappings@.len() ==> !((#[trigger] b.mappings@[a]).job_id@ == (
        #[trigger] b.mappings@[c]).job_id@ && b.mappings@[a].tool == b.mappings@[c].tool)
}

/// A consumption row names a known job at a settlement version from 1 up to
/// the job's, a known spool, a finite non-negative amount, a confidence and,
/// if any, a slot from 1 to 4; no job, spool and version occur together twice.
pub open spec fn consumption_ok(b: BackupSnapshot) -> bool {
    &&& forall|c: int|
        0 <= c < b.consumption@.len() ==> {
            let x = #[trigger] b.consumption@[c];
            &&& exists|j: int|
                0 <= j < b.jobs@.len() && (#[trigger] b.jobs@[j]).job_id@ == x.job_id@
                    && x.settlement_version <= b.jobs@[j].settlement_version
            &&& spool_ids(b).contains(x.spool_id@)
            &&& x.settlement_version != 0
            &&& finite_nonnegative(x.consumed_grams)
            &&& confidence_spec(x.confidence@) is Some
            &&& slot_number_ok(x.slot_number)
        }
    &&& forall|a: int, c: int|
        0 <= a < c < b.consumption@.len() ==> !((#[trigger] b.consumption@[a]).job_id@ == (
        #[trigger] b.consumption@[c]).job_id@ && b.consumption@[a].spool_id@
            == b.consumption@[c].spool_id@ && b.consumption@[a].settlement_version
            == b.consumption@[c].settlement_version)
}

/// A skipped job has neither consumption nor ledger events.
pub open spec fn skipped_jobs_clean(b: BackupSnapshot) -> bool {
    forall|j: int|
        0 <= j < b.jobs@.len() && job_shape(#[trigger] b.jobs@[j]) == OutcomeShape::Skipped ==> {
            &&& forall|c: int|
                0 <= c < b.consumption@.len() ==> (#[trigger] b.consumption@[c]).job_id@
                    != b.jobs@[j].job_id@
            &&& forall|e: int|
                0 <= e < b.ledger@.len() ==> opt_text((#[trigger] b.ledger@[e]).job_id) != Some(
                    b.jobs@[j].job_id@,
                )
        }
}

/// `e` undoes the settlement `o`: same spool, job and version, and amounts
/// that cancel within the slack.
pub open spec fn reverses(o: LedgerRecord, e: LedgerRecord) -> bool {
    &&& o.event_type@ == "settlement"@
    &&& o.spool_id@ == e.spool_id@
    &&& opt_text(o.job_id) == opt_text(e.job_id)
    &&& o.settlement_version == e.settlement_version
    &&& abs(amount(o.delta_grams) + amount(e.delta_grams)) <= GRAM_SLACK
}

/// What each type of ledger event must be: a creation adds filament and
/// stands alone; an adjustment changes the amount and stands alone; a
/// settlement takes filament for a known job at a non-zero version; a
/// reversal gives back what a settlement of the backup took. Other types are refused.
pub open spec fn event_links_ok(b: BackupSnapshot, e: LedgerRecord) -> bool {
    if e.event_type@ == "creation"@ {
        e.job_id is None && e.settlement_version is None && e.reverses_event_id is None && amount(
            e.delta_grams,
        ) >= 0
    } else if e.event_type@ == "adjustment"@ {
        e.job_id is None && e.settlement_version is None && e.reverses_event_id is None && amount(
            e.delta_grams,
        ) != 0
    } else if e.event_type@ == "settlement"@ {
        &&& opt_text(e.job_id) matches Some(id) && job_ids(b).contains(id)
        &&& e.settlement_version matches Some(v) && v != 0
        &&& e.reverses_event_id is None
        &&& amount(e.delta_grams) < 0
    } else if e.event_type@ == "reversal"@ {
        &&& opt_text(e.reverses_event_id) matches Some(rid) && exists|o: int|
            0 <= o < b.ledger@.len() && (#[trigger] b.ledger@[o]).event_id@ == rid && reverses(
                b.ledger@[o],
                e,
            )
        &&& amount(e.delta_grams) > 0
    } else {
        false
    }
}

/// A ledger event has a UUID, a known spool, a finite amount, a confidence,
/// a safe timestamp and the links its type requires.
pub open spec fn event_ok(b: BackupSnapshot, e: LedgerRecord) -> bool {
    &&& uuid_text_ok(e.event_id@)
    &&& spool_ids(b).contains(e.spool_id@)
    &&& e.delta_grams is Some
    &&& confidence_spec(e.confidence@) is Some
    &&& !unsafe_stamp_spec(e.created_at@)
    &&& event_links_ok(b, e)
}

pub open spec fn ledger_ok(b: BackupSnapshot) -> bool {
    forall|k: int| 0 <= k < b.ledger@.len() ==> event_ok(b, #[trigger] b.ledger@[k])
}

/// The settlement event `e` took what the consumption row `c` records.
pub open spec fn settles(e: LedgerRecord, c: ConsumptionRecord) -> bool {
    &&& e.event_type@ == "settlement"@
    &&& opt_text(e.job_id) == Some(c.job_id@)
    &&& e.spool_id@ == c.spool_id@
    &&& e.settlement_version == Some(c.settlement_version)
    &&& e.delta_grams is Some
    &&& c.consumed_grams is Some
    &&& abs(amount(e.delta_grams) + amount(c.consumed_grams)) < GRAM_SLACK
    &&& e.confidence@ == c.confidence@
}

pub open spec fn has_settlement(ledger: Seq<LedgerRecord>, c: ConsumptionRecord) -> bool {
    exists|e: int| 0 <= e < ledger.len() && settles(#[trigger] ledger[e], c)
}

/// Every consumption row has its settlement event in the ledger.
pub open spec fn consumption_settled(b: BackupSnapshot) -> bool {
    forall|c: int|
        0 <= c < b.consumption@.len() ==> #[trigger] has_settlement(b.ledger@, b.consumption@[c])
}

/// The sum of the amounts of the events of `ledger` on the spool `spool_id`.
pub open spec fn balance_of(ledger: Seq<LedgerRecord>, spool_id: Seq<char>) -> int
    decreases ledger.len(),
{
    if ledger.len() == 0 {
        0
    } else {
        balance_of(ledger.drop_last(), spool_id) + if ledger.last().spool_id@ == spool_id {
            amount(ledger.last().delta_grams)
        } else {
            0
        }
    }
}

/// Spools keep independent balances: an event on one spool leaves every
/// other spool's balance as it was.
pub proof fn lemma_other_spools_keep_their_balance(
    ledger: Seq<LedgerRecord>,
    event: LedgerRecord,
    spool_id: Seq<char>,
)
    requires
        event.spool_id@ != spool_id,
    ensures
        balance_of(ledger.push(event), spool_id) == balance_of(ledger, spool_id),
{
    assert(ledger.push(event).drop_last() =~= ledger);
}

/// A reversal that gives back exactly what a settlement took leaves the
/// spool's balance where it was before the settlement.
pub proof fn lemma_reversal_restores_the_balance(
    ledger: Seq<LedgerRecord>,
    settlement: LedgerRecord,
    reversal: LedgerRecord,
    spool_id: Seq<char>,
)
    requires
        settlement.spool_id@ == spool_id,
        reversal.spool_id@ == spool_id,
        amount(settlement.delta_grams) + amount(reversal.delta_grams) == 0,
    ensures
        balance_of(ledger.push(settlement).push(reversal), spool_id) == balance_of(ledger, spool_id),
{
    let once = ledger.push(settlement);
    let twice = once.push(reversal);
    assert(twice.drop_last() =~= once);
    assert(once.drop_last() =~= ledger);
    assert(twice.last() == reversal);
    assert(once.last() == settlement);
    assert(balance_of(once, spool_id) == balance_of(ledger, spool_id) + amount(settlement.delta_grams));
    assert(balance_of(twice, spool_id) == balance_of(once, spool_id) + amount(reversal.delta_grams));
}

pub open spec fn mounted(b: BackupSnapshot, spool_id: Seq<char>) -> bool {
    exists|s: int| 0 <= s < b.slots@.len() && opt_text((#[trigger] b.slots@[s]).spool_id) == Some(spool_id)
}

/// Each spool's ledger sums to what it has left, within the slack, and its
/// status is the one its state gives.
pub open spec fn spools_balanced(b: BackupSnapshot) -> bool {
    forall|k: int|
        0 <= k < b.spools@.len() ==> {
            let s = #[trigger] b.spools@[k];
            &&& abs(balance_of(b.ledger@, s.spool_id@) - amount(s.remaining_grams)) <= GRAM_SLACK
            &&& s.status@ == status_text(
                status_for_spec(
                    s.status@ == "archived"@,
                    mounted(b, s.spool_id@),
                    amount(s.remaining_grams) <= 0,
                ),
            )
        }
}

/// A backup that may replace the database.
pub open spec fn backup_ok(b: BackupSnapshot) -> bool {
    &&& header_ok(b.schema_version, b.media_files_included, b.slots@.len())
    &&& identities_distinct(b)
    &&& older_shape_ok(b)
    &&& spools_ok(b)
    &&& slots_ok(b)
    &&& parse_cache_ok(b)
    &&& media_ok(b)
    &&& projects_ok(b)
    &&& plates_ok(b)
    &&& plate_counts_ok(b)
    &&& jobs_ok(b)
    &&& mappings_ok(b)
    &&& consumption_ok(b)
    &&& skipped_jobs_clean(b)
    &&& ledger_ok(b)
    &&& consumption_settled(b)
    &&& spools_balanced(b)
    &&& settings_ok(b)
}

/// The parses of a snapshot keep their per-tool tables as maps do.
pub open spec fn snapshot_wf(b: BackupSnapshot) -> bool {
    &&& forall|k: int|
        0 <= k < b.parse_cache@.len() ==> cached_parse_wf((#[trigger] b.parse_cache@[k]).parsed)
    &&& forall|k: int| 0 <= k < b.plates@.len() ==> parsed_wf((#[trigger] b.plates@[k]).parsed)
}

proof fn lemma_push_texts(before: Seq<String>, x: String)
    ensures
        texts(before.push(x)) =~= texts(before).push(x@),
{
}

fn spool_id_list(b: &BackupSnapshot) -> (r: Vec<String>)
    ensures
        texts(r@) == spool_ids(*b),
{
    let mut r: Vec<String> = Vec::new();
    let mut i: usize = 0;
    while i < b.spools.len()
        invariant
            i <= b.spools@.len(),
            texts(r@) == spool_ids(*b).take(i as int),
        decreases b.spools.len() - i,
    {
        let ghost before = r@;
        r.push(b.spools[i].spool_id.clone());
        proof {
            lemma_push_texts(before, r@[i as int]);
            assert(spool_ids(*b).take(i + 1) =~= spool_ids(*b).take(i as int).push(spool_ids(*b)[i as int]));
        }
        i = i + 1;
    }
    assert(spool_ids(*b).take(i as int) =~= spool_ids(*b));
    r
}

fn parse_hash_list(b: &BackupSnapshot) -> (r: Vec<String>)
    ensures
        texts(r@) == parse_hashes(*b),
{
    let mut r: Vec<String> = Vec::new();
    let mut i: usize = 0;
    while i < b.parse_cache.len()
        invariant
            i <= b.parse_cache@.len(),
            texts(r@) == parse_hashes(*b).take(i as int),
        decreases b.parse_cache.len() - i,
    {
        let ghost before = r@;
        r.push(b.parse_cache[i].source_hash.clone());
        proof {
            lemma_push_texts(before, r@[i as int]);
            assert(parse_hashes(*b).take(i + 1) =~= parse_hashes(*b).take(i as int).push(parse_hashes(*b)[i as int]));
        }
        i = i + 1;
    }
    assert(parse_hashes(*b).take(i as int) =~= parse_hashes(*b));
    r
}

fn job_id_list(b: &BackupSnapshot) -> (r: Vec<String>)
    ensures
        texts(r@) == job_ids(*b),
{
    let mut r: Vec<String> = Vec::new();
    let mut i: usize = 0;
    while i < b.jobs.len()
        invariant
            i <= b.jobs@.len(),
            texts(r@) == job_ids(*b).take(i as int),
        decreases b.jobs.len() - i,
    {
        let ghost before = r@;
        r.push(b.jobs[i].job_id.clone());
        proof {
            lemma_push_texts(before, r@[i as int]);
            assert(job_ids(*b).take(i + 1) =~= job_ids(*b).take(i as int).push(job_ids(*b)[i as int]));
        }
        i = i + 1;
    }
    assert(job_ids(*b).take(i as int) =~= job_ids(*b));
    r
}

fn asset_id_list(b: &BackupSnapshot) -> (r: Vec<String>)
    ensures
        texts(r@) == asset_ids(*b),
{
    let mut r: Vec<String> = Vec::new();
    let mut i: usize = 0;
    while i < b.media.len()
        invariant
            i <= b.media@.len(),
            texts(r@) == asset_ids(*b).take(i as int),
        decreases b.media.len() - i,
    {
        let ghost before = r@;
        r.push(b.media[i].asset_id.clone());
        proof {
            lemma_push_texts(before, r@[i as int]);
            assert(asset_ids(*b).take(i + 1) =~= asset_ids(*b).take(i as int).push(asset_ids(*b)[i as int]));
        }
        i = i + 1;
    }
    assert(asset_ids(*b).take(i as int) =~= asset_ids(*b));
    r
}

fn media_path_list(b: &BackupSnapshot) -> (r: Vec<String>)
    ensures
        texts(r@) == media_paths(*b),
{
    let mut r: Vec<String> = Vec::new();
    let mut i: usize = 0;
    while i < b.media.len()
        invariant
            i <= b.media@.len(),
            texts(r@) == media_paths(*b).take(i as int),
        decreases b.media.len() - i,
    {
        let ghost before = r@;
        r.push(b.media[i].relative_path.clone());
        proof {
            lemma_push_texts(before, r@[i as int]);
            assert(media_paths(*b).take(i + 1) =~= media_paths(*b).take(i as int).push(media_paths(*b)[i as int]));
        }
        i = i + 1;
    }
    assert(media_paths(*b).take(i as int) =~= media_paths(*b));
    r
}

fn project_id_list(b: &BackupSnapshot) -> (r: Vec<String>)
    ensures
        texts(r@) == project_ids(*b),
{
    let mut r: Vec<String> = Vec::new();
    let mut i: usize = 0;
    while i < b.projects.len()
        invariant
            i <= b.projects@.len(),
            texts(r@) == project_ids(*b).take(i as int),
        decreases b.projects.len() - i,
    {
        let ghost before = r@;
        r.push(b.projects[i].project_id.clone());
        proof {
            lemma_push_texts(before, r@[i as int]);
            assert(project_ids(*b).take(i + 1) =~= project_ids(*b).take(i as int).push(project_ids(*b)[i as int]));
        }
        i = i + 1;
    }
    assert(project_ids(*b).take(i as int) =~= project_ids(*b));
    r
}

fn plate_id_list(b: &BackupSnapshot) -> (r: Vec<String>)
    ensures
        texts(r@) == plate_ids(*b),
{
    let mut r: Vec<String> = Vec::new();
    let mut i: usize = 0;
    while i < b.plates.len()
        invariant
            i <= b.plates@.len(),
            texts(r@) == plate_ids(*b).take(i as int),
        decreases b.plates.len() - i,
    {
        let ghost before = r@;
        r.push(b.plates[i].plate_id.clone());
        proof {
            lemma_push_texts(before, r@[i as int]);
            assert(plate_ids(*b).take(i + 1) =~= plate_ids(*b).take(i as int).push(plate_ids(*b)[i as int]));
        }
        i = i + 1;
    }
    assert(plate_ids(*b).take(i as int) =~= plate_ids(*b));
    r
}

fn event_id_list(b: &BackupSnapshot) -> (r: Vec<String>)
    ensures
        texts(r@) == event_ids(*b),
{
    let mut r: Vec<String> = Vec::new();
    let mut i: usize = 0;
    while i < b.ledger.len()
        invariant
            i <= b.ledger@.len(),
            texts(r@) == event_ids(*b).take(i as int),
        decreases b.ledger.len() - i,
    {
        let ghost before = r@;
        r.push(b.ledger[i].event_id.clone());
        proof {
            lemma_push_texts(before, r@[i as int]);
            assert(event_ids(*b).take(i + 1) =~= event_ids(*b).take(i as int).push(event_ids(*b)[i as int]));
        }
        i = i + 1;
    }
    assert(event_ids(*b).take(i as int) =~= event_ids(*b));
    r
}

fn event_key_list(b: &BackupSnapshot) -> (r: Vec<String>)
    ensures
        texts(r@) == event_keys(*b),
{
    let mut r: Vec<String> = Vec::new();
    let mut i: usize = 0;
    while i < b.ledger.len()
        invariant
            i <= b.ledger@.len(),
            texts(r@) == event_keys(*b).take(i as int),
        decreases b.ledger.len() - i,
    {
        let ghost before = r@;
        r.push(b.ledger[i].idempotency_key.clone());
        proof {
            lemma_push_texts(before, r@[i as int]);
            assert(event_keys(*b).take(i + 1) =~= event_keys(*b).take(i as int).push(event_keys(*b)[i as int]));
        }
        i = i + 1;
    }
    assert(event_keys(*b).take(i as int) =~= event_keys(*b));
    r
}

fn setting_key_list(b: &BackupSnapshot) -> (r: Vec<String>)
    ensures
        texts(r@) == setting_keys(*b),
{
    let mut r: Vec<String> = Vec::new();
    let mut i: usize = 0;
    while i < b.settings.len()
        invariant
            i <= b.settings@.len(),
            texts(r@) == setting_keys(*b).take(i as int),
        decreases b.settings.len() - i,
    {
        let ghost before = r@;
        r.push(b.settings[i].key.clone());
        proof {
            lemma_push_texts(before, r@[i as int]);
            assert(setting_keys(*b).take(i + 1) =~= setting_keys(*b).take(i as int).push(setting_keys(*b)[i as int]));
        }
        i = i + 1;
    }
    assert(setting_keys(*b).take(i as int) =~= setting_keys(*b));
    r
}

fn identities_check(b: &BackupSnapshot) -> (r: bool)
    ensures
        r == identities_distinct(*b),
{
    all_distinct(&spool_id_list(b)) && all_distinct(&parse_hash_list(b)) && all_distinct(
        &job_id_list(b),
    ) && all_distinct(&asset_id_list(b)) && all_distinct(&media_path_list(b)) && all_distinct(
        &project_id_list(b),
    ) && all_distinct(&plate_id_list(b)) && all_distinct(&event_id_list(b)) && all_distinct(
        &event_key_list(b),
    ) && all_distinct(&setting_key_list(b))
}

fn older_shape_check(b: &BackupSnapshot) -> (r: bool)
    ensures
        r == older_shape_ok(*b),
{
    if b.schema_version >= 3 {
        return true;
    }
    if b.media.len() != 0 || b.projects.len() != 0 || b.plates.len() != 0 {
        return false;
    }
    let mut j: usize = 0;
    while j < b.jobs.len()
        invariant
            j <= b.jobs@.len(),
            b.schema_version < 3,
            forall|k: int| 0 <= k < j ==> (#[trigger] b.jobs@[k]).plate_id is None,
        decreases b.jobs.len() - j,
    {
        if b.jobs[j].plate_id.is_some() {
            assert(b.jobs@[j as int].plate_id is Some);
            return false;
        }
        j = j + 1;
    }
    let mut p: usize = 0;
    while p < b.parse_cache.len()
        invariant
            p <= b.parse_cache@.len(),
            b.schema_version < 3,
            forall|k: int| 0 <= k < b.jobs@.len() ==> (#[trigger] b.jobs@[k]).plate_id is None,
            forall|k: int| 0 <= k < p ==> (#[trigger] b.parse_cache@[k]).parsed is Legacy,
        decreases b.parse_cache.len() - p,
    {
        match &b.parse_cache[p].parsed {
            CachedParseRecord::Legacy(_) => {},
            CachedParseRecord::Project { .. } => {
                assert(!(b.parse_cache@[p as int].parsed is Legacy));
                return false;
            },
        }
        p = p + 1;
    }
    true
}

fn spools_check(b: &BackupSnapshot) -> (r: bool)
    ensures
        r == spools_ok(*b),
{
    let mut k: usize = 0;
    while k < b.spools.len()
        invariant
            k <= b.spools@.len(),
            forall|i: int|
                0 <= i < k ==> {
                    let s = #[trigger] b.spools@[i];
                    &&& uuid_text_ok(s.spool_id@)
                    &&& finite_nonnegative(s.remaining_grams)
                    &&& spool_status_spec(s.status@) is Some
                    &&& !unsafe_stamp_spec(s.created_at@)
                },
        decreases b.spools.len() - k,
    {
        let s = &b.spools[k];
        let amount_ok = match s.remaining_grams {
            Some(v) => v >= 0,
            None => false,
        };
        if !valid_uuid(s.spool_id.as_str()) || !amount_ok || crate::inventory::spool_status(
            s.status.as_str(),
        ).is_none() || unsafe_stamp(s.created_at.as_str()) {
            assert(b.spools@[k as int] == *s);
            return false;
        }
        k = k + 1;
    }
    true
}

fn slots_check(b: &BackupSnapshot, ids: &Vec<String>) -> (r: bool)
    requires
        texts(ids@) == spool_ids(*b),
    ensures
        r == slots_ok(*b),
{
    let ghost sl = b.slots@;
    let mut mounted: Vec<String> = Vec::new();
    let mut i: usize = 0;
    while i < b.slots.len()
        invariant
            i <= sl.len(),
            sl == b.slots@,
            texts(ids@) == spool_ids(*b),
            forall|a: int| 0 <= a < i ==> (#[trigger] sl[a]).slot_number as int == a + 1,
            forall|a: int|
                0 <= a < i ==> (opt_text((#[trigger] sl[a]).spool_id) matches Some(id)
                    ==> spool_ids(*b).contains(id)),
            forall|a: int, c: int|
                0 <= a < c < i ==> (opt_text((#[trigger] sl[a]).spool_id) matches Some(x)
                    ==> opt_text((#[trigger] sl[c]).spool_id) != Some(x)),
            forall|x: Seq<char>|
                #[trigger] texts(mounted@).contains(x) <==> exists|a: int|
                    0 <= a < i && opt_text((#[trigger] sl[a]).spool_id) == Some(x),
        decreases sl.len() - i,
    {
        let slot = &b.slots[i];
        if slot.slot_number as usize != i + 1 {
            assert(sl[i as int].slot_number as int != i + 1);
            return false;
        }
        match &slot.spool_id {
            Some(id) => {
                assert(opt_text(sl[i as int].spool_id) == Some(id@));
                if !contains_text(ids, id.as_str()) {
                    return false;
                }
                if contains_text(&mounted, id.as_str()) {
                    proof {
                        let a = choose|a: int| 0 <= a < i && opt_text((#[trigger] sl[a]).spool_id) == Some(id@);
                        assert(opt_text(sl[a].spool_id) matches Some(x) && opt_text(sl[i as int].spool_id) == Some(x));
                    }
                    return false;
                }
                let ghost before = mounted@;
                mounted.push(id.clone());
                proof {
                    lemma_push_texts(before, mounted@[before.len() as int]);
                    let t = texts(mounted@);
                    assert forall|x: Seq<char>| #[trigger] t.contains(x) <==> exists|a: int|
                        0 <= a < i + 1 && opt_text((#[trigger] sl[a]).spool_id) == Some(x) by {
                        if t.contains(x) {
                            let m = choose|m: int| 0 <= m < t.len() && t[m] == x;
                            if m < before.len() {
                                assert(texts(before)[m] == x);
                                assert(texts(before).contains(x));
                            }
                        }
                        if exists|a: int| 0 <= a < i + 1 && opt_text((#[trigger] sl[a]).spool_id) == Some(x) {
                            let a = choose|a: int| 0 <= a < i + 1 && opt_text((#[trigger] sl[a]).spool_id) == Some(x);
                            if a == i {
                                assert(t[before.len() as int] == x);
                            } else {
                                let bt = texts(before);
                                assert(bt.contains(x));
                                let m = choose|m: int| 0 <= m < bt.len() && bt[m] == x;
                                assert(t[m] == x);
                            }
                        }
                    }
                }
            },
            None => {
                assert(opt_text(sl[i as int].spool_id) is None);
            },
        }
        i = i + 1;
    }
    true
}

fn parse_cache_check(b: &BackupSnapshot) -> (r: bool)
    requires
        snapshot_wf(*b),
    ensures
        r == parse_cache_ok(*b),
{
    let mut k: usize = 0;
    while k < b.parse_cache.len()
        invariant
            k <= b.parse_cache@.len(),
            snapshot_wf(*b),
            forall|i: int|
                0 <= i < k ==> {
                    let p = #[trigger] b.parse_cache@[i];
                    &&& valid_hash_spec(p.source_hash@)
                    &&& p.parse_count == 1
                    &&& !unsafe_stamp_spec(p.created_at@)
                    &&& cached_parse_ok(p.parsed)
                },
        decreases b.parse_cache.len() - k,
    {
        let p = &b.parse_cache[k];
        assert(b.parse_cache@[k as int] == *p);
        if !valid_hash(p.source_hash.as_str()) || p.parse_count != 1 || unsafe_stamp(
            p.created_at.as_str(),
        ) || validate_cached_parse(&p.parsed).is_err() {
            return false;
        }
        k = k + 1;
    }
    true
}

fn media_check(b: &BackupSnapshot) -> (r: bool)
    ensures
        r == media_ok(*b),
{
    let mut k: usize = 0;
    while k < b.media.len()
        invariant
            k <= b.media@.len(),
            forall|i: int|
                0 <= i < k ==> {
                    let m = #[trigger] b.media@[i];
                    media_row_ok(
                        m.asset_id@,
                        m.relative_path@,
                        m.mime_type@,
                        m.byte_size,
                        m.created_at@,
                        m.width,
                        m.height,
                    )
                },
        decreases b.media.len() - k,
    {
        let m = &b.media[k];
        assert(b.media@[k as int] == *m);
        if validate_media_row(
            m.asset_id.as_str(),
            m.relative_path.as_str(),
            m.mime_type.as_str(),
            m.byte_size,
            m.created_at.as_str(),
            m.width,
            m.height,
        ).is_err() {
            return false;
        }
        k = k + 1;
    }
    true
}

fn settings_check(b: &BackupSnapshot) -> (r: bool)
    ensures
        r == settings_ok(*b),
{
    let mut k: usize = 0;
    while k < b.settings.len()
        invariant
            k <= b.settings@.len(),
            forall|i: int|
                0 <= i < k ==> setting_allowed_spec(
                    (#[trigger] b.settings@[i]).key@,
                    b.settings@[i].value@,
                ),
        decreases b.settings.len() - k,
    {
        let key = b.settings[k].key.as_str();
        let value = b.settings[k].value.as_str();
        let known = str_eq(key, "theme") || str_eq(key, "locale") || str_eq(
            key,
            "notifications_enabled",
        );
        if !known || contains_sensitive(key) || unsafe_setting(key, value) {
            assert(!setting_allowed_spec(b.settings@[k as int].key@, b.settings@[k as int].value@));
            return false;
        }
        k = k + 1;
    }
    true
}

fn projects_check(b: &BackupSnapshot, hashes: &Vec<String>, assets: &Vec<String>) -> (r: bool)
    requires
        texts(hashes@) == parse_hashes(*b),
        texts(assets@) == asset_ids(*b),
    ensures
        r == projects_ok(*b),
{
    let mut k: usize = 0;
    while k < b.projects.len()
        invariant
            k <= b.projects@.len(),
            texts(hashes@) == parse_hashes(*b),
            texts(assets@) == asset_ids(*b),
            forall|i: int|
                0 <= i < k ==> {
                    let p = #[trigger] b.projects@[i];
                    &&& uuid_text_ok(p.project_id@)
                    &&& parse_hashes(*b).contains(p.source_hash@)
                    &&& p.plate_count != 0
                    &&& !unsafe_stamp_spec(p.imported_at@)
                    &&& (opt_text(p.cover_asset_id) matches Some(a) ==> asset_ids(*b).contains(a))
                },
        decreases b.projects.len() - k,
    {
        let p = &b.projects[k];
        assert(b.projects@[k as int] == *p);
        let cover_ok = match &p.cover_asset_id {
            Some(a) => contains_text(assets, a.as_str()),
            None => true,
        };
        if !valid_uuid(p.project_id.as_str()) || !contains_text(hashes, p.source_hash.as_str())
            || p.plate_count == 0 || unsafe_stamp(p.imported_at.as_str()) || !cover_ok {
            return false;
        }
        k = k + 1;
    }
    true
}

fn plates_check(b: &BackupSnapshot, projects: &Vec<String>, assets: &Vec<String>) -> (r: bool)
    requires
        snapshot_wf(*b),
        texts(projects@) == project_ids(*b),
        texts(assets@) == asset_ids(*b),
    ensures
        r == plates_ok(*b),
{
    let ghost pl = b.plates@;
    let mut k: usize = 0;
    while k < b.plates.len()
        invariant
            k <= pl.len(),
            pl == b.plates@,
            snapshot_wf(*b),
            texts(projects@) == project_ids(*b),
            texts(assets@) == asset_ids(*b),
            forall|i: int|
                0 <= i < k ==> {
                    let p = #[trigger] pl[i];
                    &&& uuid_text_ok(p.plate_id@)
                    &&& project_ids(*b).contains(p.project_id@)
                    &&& p.plate_index != 0
                    &&& (opt_text(p.thumbnail_asset_id) matches Some(a) ==> asset_ids(*b).contains(a))
                    &&& p.max_layer == p.parsed.gcode.max_layer
                    &&& parsed_ok(p.parsed)
                },
            forall|a: int, c: int|
                0 <= a < c < k ==> !((#[trigger] pl[a]).project_id@ == (#[trigger] pl[c]).project_id@
                    && pl[a].plate_index == pl[c].plate_index),
        decreases pl.len() - k,
    {
        let p = &b.plates[k];
        assert(pl[k as int] == *p);
        let thumbnail_ok = match &p.thumbnail_asset_id {
            Some(a) => contains_text(assets, a.as_str()),
            None => true,
        };
        if !valid_uuid(p.plate_id.as_str()) || !contains_text(projects, p.project_id.as_str())
            || p.plate_index == 0 || !thumbnail_ok || p.max_layer != p.parsed.gcode.max_layer
            || validate_parsed(&p.parsed).is_err() {
            return false;
        }
        let mut a: usize = 0;
        while a < k
            invariant
                a <= k < pl.len(),
                pl == b.plates@,
                *p == pl[k as int],
                forall|x: int|
                    0 <= x < a ==> !(pl[x].project_id@ == pl[k as int].project_id@ && pl[x].plate_index
                        == pl[k as int].plate_index),
            decreases k - a,
        {
            if str_eq(b.plates[a].project_id.as_str(), p.project_id.as_str()) && b.plates[a].plate_index
                == p.plate_index {
                assert(pl[a as int].project_id@ == pl[k as int].project_id@ && pl[a as int].plate_index
                    == pl[k as int].plate_index);
                return false;
            }
            a = a + 1;
        }
        k = k + 1;
    }
    true
}

proof fn lemma_plates_of_step(plates: Seq<PlateRecord>, i: int, project_id: Seq<char>)
    requires
        0 <= i < plates.len(),
    ensures
        plates_of(plates.take(i + 1), project_id) == plates_of(plates.take(i), project_id) + if plates[i].project_id@
            == project_id {
            1nat
        } else {
            0nat
        },
{
    assert(plates.take(i + 1).drop_last() =~= plates.take(i));
}

fn plate_count(b: &BackupSnapshot, project_id: &str) -> (r: usize)
    ensures
        r as nat == plates_of(b.plates@, project_id@),
{
    let mut n: usize = 0;
    let mut i: usize = 0;
    while i < b.plates.len()
        invariant
            i <= b.plates@.len(),
            n <= i,
            n as nat == plates_of(b.plates@.take(i as int), project_id@),
        decreases b.plates.len() - i,
    {
        proof {
            lemma_plates_of_step(b.plates@, i as int, project_id@);
        }
        if str_eq(b.plates[i].project_id.as_str(), project_id) {
            n = n + 1;
        }
        i = i + 1;
    }
    assert(b.plates@.take(i as int) =~= b.plates@);
    n
}

fn plate_counts_check(b: &BackupSnapshot) -> (r: bool)
    ensures
        r == plate_counts_ok(*b),
{
    let mut k: usize = 0;
    while k < b.projects.len()
        invariant
            k <= b.projects@.len(),
            forall|i: int|
                0 <= i < k ==> (plates_of(b.plates@, (#[trigger] b.projects@[i]).project_id@) as u32)
                    == b.projects@[i].plate_count,
        decreases b.projects.len() - k,
    {
        let n = plate_count(b, b.projects[k].project_id.as_str());
        if n as u32 != b.projects[k].plate_count {
            assert((plates_of(b.plates@, b.projects@[k as int].project_id@) as u32) != b.projects@[k as int].plate_count);
            return false;
        }
        k = k + 1;
    }
    true
}

fn find_plate(b: &BackupSnapshot, id: &str) -> (r: Option<usize>)
    ensures
        r matches Some(k) ==> k < b.plates@.len() && b.plates@[k as int].plate_id@ == id@,
        r is None ==> forall|k: int| 0 <= k < b.plates@.len() ==> (#[trigger] b.plates@[k]).plate_id@ != id@,
{
    let mut k: usize = 0;
    while k < b.plates.len()
        invariant
            k <= b.plates@.len(),
            forall|i: int| 0 <= i < k ==> (#[trigger] b.plates@[i]).plate_id@ != id@,
        decreases b.plates.len() - k,
    {
        if str_eq(b.plates[k].plate_id.as_str(), id) {
            return Some(k);
        }
        k = k + 1;
    }
    None
}

proof fn lemma_one_plate(b: BackupSnapshot, x: int, y: int)
    requires
        distinct_texts(plate_ids(b)),
        0 <= x < b.plates@.len(),
        0 <= y < b.plates@.len(),
        b.plates@[x].plate_id@ == b.plates@[y].plate_id@,
    ensures
        x == y,
{
    assert(plate_ids(b)[x] == b.plates@[x].plate_id@);
    assert(plate_ids(b)[y] == b.plates@[y].plate_id@);
    if x < y {
        assert(plate_ids(b)[x] != plate_ids(b)[y]);
    } else if y < x {
        assert(plate_ids(b)[y] != plate_ids(b)[x]);
    }
}

fn find_project(b: &BackupSnapshot, id: &str) -> (r: Option<usize>)
    ensures
        r matches Some(k) ==> k < b.projects@.len() && b.projects@[k as int].project_id@ == id@,
        r is None ==> forall|k: int| 0 <= k < b.projects@.len() ==> (#[trigger] b.projects@[k]).project_id@ != id@,
{
    let mut k: usize = 0;
    while k < b.projects.len()
        invariant
            k <= b.projects@.len(),
            forall|i: int| 0 <= i < k ==> (#[trigger] b.projects@[i]).project_id@ != id@,
        decreases b.projects.len() - k,
    {
        if str_eq(b.projects[k].project_id.as_str(), id) {
            return Some(k);
        }
        k = k + 1;
    }
    None
}

proof fn lemma_one_project(b: BackupSnapshot, x: int, y: int)
    requires
        distinct_texts(project_ids(b)),
        0 <= x < b.projects@.len(),
        0 <= y < b.projects@.len(),
        b.projects@[x].project_id@ == b.projects@[y].project_id@,
    ensures
        x == y,
{
    assert(project_ids(b)[x] == b.projects@[x].project_id@);
    assert(project_ids(b)[y] == b.projects@[y].project_id@);
    if x < y {
        assert(project_ids(b)[x] != project_ids(b)[y]);
    } else if y < x {
        assert(project_ids(b)[y] != project_ids(b)[x]);
    }
}

fn find_job(b: &BackupSnapshot, id: &str) -> (r: Option<usize>)
    ensures
        r matches Some(k) ==> k < b.jobs@.len() && b.jobs@[k as int].job_id@ == id@,
        r is None ==> forall|k: int| 0 <= k < b.jobs@.len() ==> (#[trigger] b.jobs@[k]).job_id@ != id@,
{
    let mut k: usize = 0;
    while k < b.jobs.len()
        invariant
            k <= b.jobs@.len(),
            forall|i: int| 0 <= i < k ==> (#[trigger] b.jobs@[i]).job_id@ != id@,
        decreases b.jobs.len() - k,
    {
        if str_eq(b.jobs[k].job_id.as_str(), id) {
            return Some(k);
        }
        k = k + 1;
    }
    None
}

proof fn lemma_one_job(b: BackupSnapshot, x: int, y: int)
    requires
        distinct_texts(job_ids(b)),
        0 <= x < b.jobs@.len(),
        0 <= y < b.jobs@.len(),
        b.jobs@[x].job_id@ == b.jobs@[y].job_id@,
    ensures
        x == y,
{
    assert(job_ids(b)[x] == b.jobs@[x].job_id@);
    assert(job_ids(b)[y] == b.jobs@[y].job_id@);
    if x < y {
        assert(job_ids(b)[x] != job_ids(b)[y]);
    } else if y < x {
        assert(job_ids(b)[y] != job_ids(b)[x]);
    }
}

fn find_parse(b: &BackupSnapshot, id: &str) -> (r: Option<usize>)
    ensures
        r matches Some(k) ==> k < b.parse_cache@.len() && b.parse_cache@[k as int].source_hash@ == id@,
        r is None ==> forall|k: int| 0 <= k < b.parse_cache@.len() ==> (#[trigger] b.parse_cache@[k]).source_hash@ != id@,
{
    let mut k: usize = 0;
    while k < b.parse_cache.len()
        invariant
            k <= b.parse_cache@.len(),
            forall|i: int| 0 <= i < k ==> (#[trigger] b.parse_cache@[i]).source_hash@ != id@,
        decreases b.parse_cache.len() - k,
    {
        if str_eq(b.parse_cache[k].source_hash.as_str(), id) {
            return Some(k);
        }
        k = k + 1;
    }
    None
}

proof fn lemma_one_parse(b: BackupSnapshot, x: int, y: int)
    requires
        distinct_texts(parse_hashes(b)),
        0 <= x < b.parse_cache@.len(),
        0 <= y < b.parse_cache@.len(),
        b.parse_cache@[x].source_hash@ == b.parse_cache@[y].source_hash@,
    ensures
        x == y,
{
    assert(parse_hashes(b)[x] == b.parse_cache@[x].source_hash@);
    assert(parse_hashes(b)[y] == b.parse_cache@[y].source_hash@);
    if x < y {
        assert(parse_hashes(b)[x] != parse_hashes(b)[y]);
    } else if y < x {
        assert(parse_hashes(b)[y] != parse_hashes(b)[x]);
    }
}

fn find_event(b: &BackupSnapshot, id: &str) -> (r: Option<usize>)
    ensures
        r matches Some(k) ==> k < b.ledger@.len() && b.ledger@[k as int].event_id@ == id@,
        r is None ==> forall|k: int| 0 <= k < b.ledger@.len() ==> (#[trigger] b.ledger@[k]).event_id@ != id@,
{
    let mut k: usize = 0;
    while k < b.ledger.len()
        invariant
            k <= b.ledger@.len(),
            forall|i: int| 0 <= i < k ==> (#[trigger] b.ledger@[i]).event_id@ != id@,
        decreases b.ledger.len() - k,
    {
        if str_eq(b.ledger[k].event_id.as_str(), id) {
            return Some(k);
        }
        k = k + 1;
    }
    None
}

proof fn lemma_one_event(b: BackupSnapshot, x: int, y: int)
    requires
        distinct_texts(event_ids(b)),
        0 <= x < b.ledger@.len(),
        0 <= y < b.ledger@.len(),
        b.ledger@[x].event_id@ == b.ledger@[y].event_id@,
    ensures
        x == y,
{
    assert(event_ids(b)[x] == b.ledger@[x].event_id@);
    assert(event_ids(b)[y] == b.ledger@[y].event_id@);
    if x < y {
        assert(event_ids(b)[x] != event_ids(b)[y]);
    } else if y < x {
        assert(event_ids(b)[y] != event_ids(b)[x]);
    }
}

fn job_plate_check(b: &BackupSnapshot, j: &JobRecord) -> (r: bool)
    requires
        identities_distinct(*b),
    ensures
        r == job_plate_ok(*b, *j),
{
    let pid = match &j.plate_id {
        Some(pid) => pid,
        None => return false,
    };
    assert(opt_text(j.plate_id) == Some(pid@));
    let p = match find_plate(b, pid.as_str()) {
        Some(p) => p,
        None => return false,
    };
    let plate = &b.plates[p];
    let q = match find_project(b, plate.project_id.as_str()) {
        Some(q) => q,
        None => {
            proof {
                if job_plate_ok(*b, *j) {
                    let p2 = choose|p2: int|
                        0 <= p2 < b.plates@.len() && (#[trigger] b.plates@[p2]).plate_id@ == pid@
                            && exists|q: int|
                            0 <= q < b.projects@.len() && (#[trigger] b.projects@[q]).project_id@
                                == b.plates@[p2].project_id@ && b.projects@[q].source_hash@
                                == j.source_hash@;
                    lemma_one_plate(*b, p as int, p2);
                }
            }
            return false;
        },
    };
    let same = str_eq(b.projects[q].source_hash.as_str(), j.source_hash.as_str());
    proof {
        if same {
            assert(b.plates@[p as int].plate_id@ == pid@);
            assert(b.projects@[q as int].project_id@ == b.plates@[p as int].project_id@);
        } else if job_plate_ok(*b, *j) {
            let p2 = choose|p2: int|
                0 <= p2 < b.plates@.len() && (#[trigger] b.plates@[p2]).plate_id@ == pid@ && exists|
                    q: int,
                |
                    0 <= q < b.projects@.len() && (#[trigger] b.projects@[q]).project_id@
                        == b.plates@[p2].project_id@ && b.projects@[q].source_hash@
                        == j.source_hash@;
            lemma_one_plate(*b, p as int, p2);
            let q2 = choose|q2: int|
                0 <= q2 < b.projects@.len() && (#[trigger] b.projects@[q2]).project_id@
                    == b.plates@[p2].project_id@ && b.projects@[q2].source_hash@ == j.source_hash@;
            lemma_one_project(*b, q as int, q2);
        }
    }
    same
}

fn jobs_check(b: &BackupSnapshot, hashes: &Vec<String>) -> (r: bool)
    requires
        identities_distinct(*b),
        texts(hashes@) == parse_hashes(*b),
    ensures
        r == jobs_ok(*b),
{
    let mut k: usize = 0;
    while k < b.jobs.len()
        invariant
            k <= b.jobs@.len(),
            identities_distinct(*b),
            texts(hashes@) == parse_hashes(*b),
            forall|i: int|
                0 <= i < k ==> {
                    let j = #[trigger] b.jobs@[i];
                    &&& uuid_text_ok(j.job_id@)
                    &&& parse_hashes(*b).contains(j.source_hash@)
                    &&& !unsafe_stamp_spec(j.created_at@)
                    &&& (b.schema_version == 3 ==> job_plate_ok(*b, j))
                    &&& job_outcome_ok_spec(job_shape(j), j.settlement_version)
                },
        decreases b.jobs.len() - k,
    {
        let j = &b.jobs[k];
        assert(b.jobs@[k as int] == *j);
        if !valid_uuid(j.job_id.as_str()) || !contains_text(hashes, j.source_hash.as_str())
            || unsafe_stamp(j.created_at.as_str()) || (b.schema_version == 3 && !job_plate_check(b, j))
            || !job_outcome_ok(job_shape_of(j), j.settlement_version) {
            return false;
        }
        k = k + 1;
    }
    true
}

fn cached_tool_check(c: &CachedParseRecord, tool: u8) -> (r: bool)
    ensures
        r == cached_has_tool(*c, tool),
{
    match c {
        CachedParseRecord::Legacy(p) => has_profile(&p.filaments, tool),
        CachedParseRecord::Project { version, plates } => {
            if plates.len() == 0 {
                false
            } else {
                has_profile(&plates[0].parsed.filaments, tool)
            }
        },
    }
}

fn job_tool_check(b: &BackupSnapshot, j: &JobRecord, tool: u8) -> (r: bool)
    requires
        identities_distinct(*b),
    ensures
        r == job_has_tool(*b, *j, tool),
{
    match &j.plate_id {
        Some(pid) => {
            assert(opt_text(j.plate_id) == Some(pid@));
            match find_plate(b, pid.as_str()) {
                None => false,
                Some(p) => {
                    let found = has_profile(&b.plates[p].parsed.filaments, tool);
                    proof {
                        if !found && job_has_tool(*b, *j, tool) {
                            let p2 = choose|p2: int|
                                0 <= p2 < b.plates@.len() && (#[trigger] b.plates@[p2]).plate_id@
                                    == pid@ && profiles_have_tool(
                                    b.plates@[p2].parsed.filaments@,
                                    tool,
                                );
                            lemma_one_plate(*b, p as int, p2);
                        }
                    }
                    found
                },
            }
        },
        None => {
            assert(opt_text(j.plate_id) is None);
            match find_parse(b, j.source_hash.as_str()) {
                None => false,
                Some(c) => {
                    let found = cached_tool_check(&b.parse_cache[c].parsed, tool);
                    proof {
                        if !found && job_has_tool(*b, *j, tool) {
                            let c2 = choose|c2: int|
                                0 <= c2 < b.parse_cache@.len() && (
                                #[trigger] b.parse_cache@[c2]).source_hash@ == j.source_hash@
                                    && cached_has_tool(b.parse_cache@[c2].parsed, tool);
                            lemma_one_parse(*b, c as int, c2);
                        }
                    }
                    found
                },
            }
        },
    }
}

fn mappings_check(b: &BackupSnapshot, spools: &Vec<String>) -> (r: bool)
    requires
        identities_distinct(*b),
        texts(spools@) == spool_ids(*b),
    ensures
        r == mappings_ok(*b),
{
    let ghost ms = b.mappings@;
    let mut k: usize = 0;
    while k < b.mappings.len()
        invariant
            k <= ms.len(),
            ms == b.mappings@,
            identities_distinct(*b),
            texts(spools@) == spool_ids(*b),
            forall|m: int|
                0 <= m < k ==> {
                    let x = #[trigger] ms[m];
                    &&& exists|j: int|
                        0 <= j < b.jobs@.len() && (#[trigger] b.jobs@[j]).job_id@ == x.job_id@
                            && job_has_tool(*b, b.jobs@[j], x.tool)
                    &&& spool_ids(*b).contains(x.spool_id@)
                    &&& slot_number_ok(x.slot_number)
                },
            forall|a: int, c: int|
                0 <= a < c < k ==> !((#[trigger] ms[a]).job_id@ == (#[trigger] ms[c]).job_id@
                    && ms[a].tool == ms[c].tool),
        decreases ms.len() - k,
    {
        let m = &b.mappings[k];
        assert(ms[k as int] == *m);
        let j = match find_job(b, m.job_id.as_str()) {
            Some(j) => j,
            None => return false,
        };
        let slot_ok = match m.slot_number {
            Some(n) => 1 <= n && n <= 4,
            None => true,
        };
        if !contains_text(spools, m.spool_id.as_str()) || !slot_ok || !job_tool_check(
            b,
            &b.jobs[j],
            m.tool,
        ) {
            proof {
                if !job_has_tool(*b, b.jobs@[j as int], m.tool) && exists|j2: int|
                    0 <= j2 < b.jobs@.len() && (#[trigger] b.jobs@[j2]).job_id@ == m.job_id@
                        && job_has_tool(*b, b.jobs@[j2], m.tool) {
                    let j2 = choose|j2: int|
                        0 <= j2 < b.jobs@.len() && (#[trigger] b.jobs@[j2]).job_id@ == m.job_id@
                            && job_has_tool(*b, b.jobs@[j2], m.tool);
                    lemma_one_job(*b, j as int, j2);
                }
            }
            return false;
        }
        let mut a: usize = 0;
        while a < k
            invariant
                a <= k < ms.len(),
                ms == b.mappings@,
                *m == ms[k as int],
                forall|x: int|
                    0 <= x < a ==> !(ms[x].job_id@ == ms[k as int].job_id@ && ms[x].tool
                        == ms[k as int].tool),
            decreases k - a,
        {
            if str_eq(b.mappings[a].job_id.as_str(), m.job_id.as_str()) && b.mappings[a].tool == m.tool {
                assert(ms[a as int].job_id@ == ms[k as int].job_id@ && ms[a as int].tool == ms[k as int].tool);
                return false;
            }
            a = a + 1;
        }
        assert(b.jobs@[j as int].job_id@ == m.job_id@);
        k = k + 1;
    }
    true
}

fn consumption_check(b: &BackupSnapshot, spools: &Vec<String>) -> (r: bool)
    requires
        identities_distinct(*b),
        texts(spools@) == spool_ids(*b),
    ensures
        r == consumption_ok(*b),
{
    let ghost cs = b.consumption@;
    let mut k: usize = 0;
    while k < b.consumption.len()
        invariant
            k <= cs.len(),
            cs == b.consumption@,
            identities_distinct(*b),
            texts(spools@) == spool_ids(*b),
            forall|c: int|
                0 <= c < k ==> {
                    let x = #[trigger] cs[c];
                    &&& exists|j: int|
                        0 <= j < b.jobs@.len() && (#[trigger] b.jobs@[j]).job_id@ == x.job_id@
                            && x.settlement_version <= b.jobs@[j].settlement_version
                    &&& spool_ids(*b).contains(x.spool_id@)
                    &&& x.settlement_version != 0
                    &&& finite_nonnegative(x.consumed_grams)
                    &&& confidence_spec(x.confidence@) is Some
                    &&& slot_number_ok(x.slot_number)
                },
            forall|a: int, c: int|
                0 <= a < c < k ==> !((#[trigger] cs[a]).job_id@ == (#[trigger] cs[c]).job_id@
                    && cs[a].spool_id@ == cs[c].spool_id@ && cs[a].settlement_version
                    == cs[c].settlement_version),
        decreases cs.len() - k,
    {
        let item = &b.consumption[k];
        assert(cs[k as int] == *item);
        let j = match find_job(b, item.job_id.as_str()) {
            Some(j) => j,
            None => return false,
        };
        let slot_ok = match item.slot_number {
            Some(n) => 1 <= n && n <= 4,
            None => true,
        };
        let amount_ok = match item.consumed_grams {
            Some(v) => v >= 0,
            None => false,
        };
        if !contains_text(spools, item.spool_id.as_str()) || item.settlement_version == 0
            || item.settlement_version > b.jobs[j].settlement_version || !amount_ok
            || !valid_confidence(item.confidence.as_str()) || !slot_ok {
            proof {
                if item.settlement_version > b.jobs@[j as int].settlement_version && exists|j2: int|
                    0 <= j2 < b.jobs@.len() && (#[trigger] b.jobs@[j2]).job_id@ == item.job_id@
                        && item.settlement_version <= b.jobs@[j2].settlement_version {
                    let j2 = choose|j2: int|
                        0 <= j2 < b.jobs@.len() && (#[trigger] b.jobs@[j2]).job_id@ == item.job_id@
                            && item.settlement_version <= b.jobs@[j2].settlement_version;
                    lemma_one_job(*b, j as int, j2);
                }
            }
            return false;
        }
        let mut a: usize = 0;
        while a < k
            invariant
                a <= k < cs.len(),
                cs == b.consumption@,
                *item == cs[k as int],
                forall|x: int|
                    0 <= x < a ==> !(cs[x].job_id@ == cs[k as int].job_id@ && cs[x].spool_id@
                        == cs[k as int].spool_id@ && cs[x].settlement_version
                        == cs[k as int].settlement_version),
            decreases k - a,
        {
            let other = &b.consumption[a];
            if str_eq(other.job_id.as_str(), item.job_id.as_str()) && str_eq(
                other.spool_id.as_str(),
                item.spool_id.as_str(),
            ) && other.settlement_version == item.settlement_version {
                assert(cs[a as int] == *other);
                return false;
            }
            a = a + 1;
        }
        assert(b.jobs@[j as int].job_id@ == item.job_id@);
        k = k + 1;
    }
    true
}

fn job_untouched(b: &BackupSnapshot, job_id: &str) -> (r: bool)
    ensures
        r == ((forall|c: int|
            0 <= c < b.consumption@.len() ==> (#[trigger] b.consumption@[c]).job_id@ != job_id@)
            && (forall|e: int|
            0 <= e < b.ledger@.len() ==> opt_text((#[trigger] b.ledger@[e]).job_id) != Some(
                job_id@,
            ))),
{
    let mut c: usize = 0;
    while c < b.consumption.len()
        invariant
            c <= b.consumption@.len(),
            forall|i: int| 0 <= i < c ==> (#[trigger] b.consumption@[i]).job_id@ != job_id@,
        decreases b.consumption.len() - c,
    {
        if str_eq(b.consumption[c].job_id.as_str(), job_id) {
            assert(b.consumption@[c as int].job_id@ == job_id@);
            return false;
        }
        c = c + 1;
    }
    let mut e: usize = 0;
    while e < b.ledger.len()
        invariant
            e <= b.ledger@.len(),
            forall|i: int| 0 <= i < b.consumption@.len() ==> (#[trigger] b.consumption@[i]).job_id@ != job_id@,
            forall|i: int|
                0 <= i < e ==> opt_text((#[trigger] b.ledger@[i]).job_id) != Some(job_id@),
        decreases b.ledger.len() - e,
    {
        match &b.ledger[e].job_id {
            Some(id) => {
                if str_eq(id.as_str(), job_id) {
                    assert(opt_text(b.ledger@[e as int].job_id) == Some(job_id@));
                    return false;
                }
                assert(opt_text(b.ledger@[e as int].job_id) == Some(id@));
            },
            None => {
                assert(opt_text(b.ledger@[e as int].job_id) is None);
            },
        }
        e = e + 1;
    }
    true
}

fn skipped_check(b: &BackupSnapshot) -> (r: bool)
    ensures
        r == skipped_jobs_clean(*b),
{
    let mut k: usize = 0;
    while k < b.jobs.len()
        invariant
            k <= b.jobs@.len(),
            forall|j: int|
                0 <= j < k && job_shape(#[trigger] b.jobs@[j]) == OutcomeShape::Skipped ==> {
                    &&& forall|c: int|
                        0 <= c < b.consumption@.len() ==> (#[trigger] b.consumption@[c]).job_id@
                            != b.jobs@[j].job_id@
                    &&& forall|e: int|
                        0 <= e < b.ledger@.len() ==> opt_text((#[trigger] b.ledger@[e]).job_id)
                            != Some(b.jobs@[j].job_id@)
                },
        decreases b.jobs.len() - k,
    {
        let skipped = match job_shape_of(&b.jobs[k]) {
            OutcomeShape::Skipped => true,
            _ => false,
        };
        if skipped && !job_untouched(b, b.jobs[k].job_id.as_str()) {
            assert(job_shape(b.jobs@[k as int]) == OutcomeShape::Skipped);
            return false;
        }
        k = k + 1;
    }
    true
}

fn amount_value(v: Option<i64>) -> (r: i64)
    ensures
        r as int == amount(v),
{
    match v {
        Some(x) => x,
        None => 0,
    }
}

fn opt_str_eq(a: &Option<String>, c: &Option<String>) -> (r: bool)
    ensures
        r == (opt_text(*a) == opt_text(*c)),
{
    match (a, c) {
        (Some(x), Some(y)) => str_eq(x.as_str(), y.as_str()),
        (None, None) => true,
        _ => false,
    }
}

fn reverses_check(o: &LedgerRecord, e: &LedgerRecord) -> (r: bool)
    ensures
        r == reverses(*o, *e),
{
    let sum = (amount_value(o.delta_grams) as i128) + (amount_value(e.delta_grams) as i128);
    let within = -(GRAM_SLACK as i128) <= sum && sum <= (GRAM_SLACK as i128);
    str_eq(o.event_type.as_str(), "settlement") && str_eq(o.spool_id.as_str(), e.spool_id.as_str())
        && opt_str_eq(&o.job_id, &e.job_id) && o.settlement_version == e.settlement_version
        && within
}

fn event_links_check(b: &BackupSnapshot, e: &LedgerRecord, jobs: &Vec<String>) -> (r: bool)
    requires
        identities_distinct(*b),
        texts(jobs@) == job_ids(*b),
    ensures
        r == event_links_ok(*b, *e),
{
    let delta = amount_value(e.delta_grams);
    let kind = e.event_type.as_str();
    if str_eq(kind, "creation") {
        e.job_id.is_none() && e.settlement_version.is_none() && e.reverses_event_id.is_none()
            && delta >= 0
    } else if str_eq(kind, "adjustment") {
        e.job_id.is_none() && e.settlement_version.is_none() && e.reverses_event_id.is_none()
            && delta != 0
    } else if str_eq(kind, "settlement") {
        let job_ok = match &e.job_id {
            Some(id) => {
                assert(opt_text(e.job_id) == Some(id@));
                contains_text(jobs, id.as_str())
            },
            None => false,
        };
        let version_ok = match e.settlement_version {
            Some(v) => v != 0,
            None => false,
        };
        job_ok && version_ok && e.reverses_event_id.is_none() && delta < 0
    } else if str_eq(kind, "reversal") {
        let rid = match &e.reverses_event_id {
            Some(rid) => rid,
            None => return false,
        };
        assert(opt_text(e.reverses_event_id) == Some(rid@));
        let o = match find_event(b, rid.as_str()) {
            Some(o) => o,
            None => return false,
        };
        let linked = reverses_check(&b.ledger[o], e);
        proof {
            if !linked && exists|o2: int|
                0 <= o2 < b.ledger@.len() && (#[trigger] b.ledger@[o2]).event_id@ == rid@ && reverses(
                    b.ledger@[o2],
                    *e,
                ) {
                let o2 = choose|o2: int|
                    0 <= o2 < b.ledger@.len() && (#[trigger] b.ledger@[o2]).event_id@ == rid@
                        && reverses(b.ledger@[o2], *e);
                lemma_one_event(*b, o as int, o2);
            }
        }
        linked && delta > 0
    } else {
        false
    }
}

fn ledger_check(b: &BackupSnapshot, spools: &Vec<String>, jobs: &Vec<String>) -> (r: bool)
    requires
        identities_distinct(*b),
        texts(spools@) == spool_ids(*b),
        texts(jobs@) == job_ids(*b),
    ensures
        r == ledger_ok(*b),
{
    let mut k: usize = 0;
    while k < b.ledger.len()
        invariant
            k <= b.ledger@.len(),
            identities_distinct(*b),
            texts(spools@) == spool_ids(*b),
            texts(jobs@) == job_ids(*b),
            forall|i: int| 0 <= i < k ==> event_ok(*b, #[trigger] b.ledger@[i]),
        decreases b.ledger.len() - k,
    {
        let e = &b.ledger[k];
        assert(b.ledger@[k as int] == *e);
        if !valid_uuid(e.event_id.as_str()) || !contains_text(spools, e.spool_id.as_str())
            || e.delta_grams.is_none() || !valid_confidence(e.confidence.as_str()) || unsafe_stamp(
            e.created_at.as_str(),
        ) || !event_links_check(b, e, jobs) {
            return false;
        }
        k = k + 1;
    }
    true
}

fn settles_check(e: &LedgerRecord, c: &ConsumptionRecord) -> (r: bool)
    ensures
        r == settles(*e, *c),
{
    let (d, used) = match (e.delta_grams, c.consumed_grams) {
        (Some(d), Some(used)) => (d, used),
        _ => return false,
    };
    let sum = (d as i128) + (used as i128);
    let within = -(GRAM_SLACK as i128) < sum && sum < (GRAM_SLACK as i128);
    let job_ok = match &e.job_id {
        Some(id) => str_eq(id.as_str(), c.job_id.as_str()),
        None => false,
    };
    str_eq(e.event_type.as_str(), "settlement") && job_ok && str_eq(
        e.spool_id.as_str(),
        c.spool_id.as_str(),
    ) && e.settlement_version == Some(c.settlement_version) && within && str_eq(
        e.confidence.as_str(),
        c.confidence.as_str(),
    )
}

fn settled_check(b: &BackupSnapshot) -> (r: bool)
    ensures
        r == consumption_settled(*b),
{
    let mut k: usize = 0;
    while k < b.consumption.len()
        invariant
            k <= b.consumption@.len(),
            forall|c: int| 0 <= c < k ==> #[trigger] has_settlement(b.ledger@, b.consumption@[c]),
        decreases b.consumption.len() - k,
    {
        let c = &b.consumption[k];
        let mut e: usize = 0;
        let mut found = false;
        while e < b.ledger.len() && !found
            invariant
                e <= b.ledger@.len(),
                *c == b.consumption@[k as int],
                found ==> e < b.ledger@.len() && settles(b.ledger@[e as int], *c),
                !found ==> forall|i: int| 0 <= i < e ==> !settles(#[trigger] b.ledger@[i], *c),
            decreases 2 * (b.ledger@.len() - e) + if found {
                0int
            } else {
                1int
            },
        {
            if settles_check(&b.ledger[e], c) {
                found = true;
            } else {
                e = e + 1;
            }
        }
        if !found {
            assert(!has_settlement(b.ledger@, b.consumption@[k as int]));
            return false;
        }
        assert(settles(b.ledger@[e as int], *c));
        assert(has_settlement(b.ledger@, b.consumption@[k as int]));
        k = k + 1;
    }
    true
}

proof fn lemma_balance_step(ledger: Seq<LedgerRecord>, i: int, spool_id: Seq<char>)
    requires
        0 <= i < ledger.len(),
    ensures
        balance_of(ledger.take(i + 1), spool_id) == balance_of(ledger.take(i), spool_id) + if ledger[i].spool_id@
            == spool_id {
            amount(ledger[i].delta_grams)
        } else {
            0
        },
{
    assert(ledger.take(i + 1).drop_last() =~= ledger.take(i));
}

fn balance(b: &BackupSnapshot, spool_id: &str) -> (r: i128)
    ensures
        r as int == balance_of(b.ledger@, spool_id@),
{
    let mut sum: i128 = 0;
    let mut i: usize = 0;
    while i < b.ledger.len()
        invariant
            i <= b.ledger@.len(),
            sum as int == balance_of(b.ledger@.take(i as int), spool_id@),
            -(i as int) * 0x8000_0000_0000_0000 <= sum <= (i as int) * 0x8000_0000_0000_0000,
        decreases b.ledger.len() - i,
    {
        proof {
            lemma_balance_step(b.ledger@, i as int, spool_id@);
        }
        if str_eq(b.ledger[i].spool_id.as_str(), spool_id) {
            sum = sum + (amount_value(b.ledger[i].delta_grams) as i128);
        }
        i = i + 1;
    }
    assert(b.ledger@.take(i as int) =~= b.ledger@);
    sum
}

fn is_mounted(b: &BackupSnapshot, spool_id: &str) -> (r: bool)
    ensures
        r == mounted(*b, spool_id@),
{
    let mut s: usize = 0;
    while s < b.slots.len()
        invariant
            s <= b.slots@.len(),
            forall|i: int| 0 <= i < s ==> opt_text((#[trigger] b.slots@[i]).spool_id) != Some(spool_id@),
        decreases b.slots.len() - s,
    {
        match &b.slots[s].spool_id {
            Some(id) => {
                assert(opt_text(b.slots@[s as int].spool_id) == Some(id@));
                if str_eq(id.as_str(), spool_id) {
                    return true;
                }
            },
            None => {
                assert(opt_text(b.slots@[s as int].spool_id) is None);
            },
        }
        s = s + 1;
    }
    false
}

fn balances_check(b: &BackupSnapshot) -> (r: bool)
    ensures
        r == spools_balanced(*b),
{
    let mut k: usize = 0;
    while k < b.spools.len()
        invariant
            k <= b.spools@.len(),
            forall|i: int|
                0 <= i < k ==> {
                    let s = #[trigger] b.spools@[i];
                    &&& abs(balance_of(b.ledger@, s.spool_id@) - amount(s.remaining_grams))
                        <= GRAM_SLACK
                    &&& s.status@ == status_text(
                        status_for_spec(
                            s.status@ == "archived"@,
                            mounted(*b, s.spool_id@),
                            amount(s.remaining_grams) <= 0,
                        ),
                    )
                },
        decreases b.spools.len() - k,
    {
        let s = &b.spools[k];
        assert(b.spools@[k as int] == *s);
        let total = balance(b, s.spool_id.as_str());
        let remaining = amount_value(s.remaining_grams);
        if total < (remaining as i128) - (GRAM_SLACK as i128) || total > (remaining as i128) + (
        GRAM_SLACK as i128) {
            return false;
        }
        let archived = str_eq(s.status.as_str(), "archived");
        let expected = crate::inventory::status_for(
            archived,
            is_mounted(b, s.spool_id.as_str()),
            remaining <= 0,
        );
        if !str_eq(s.status.as_str(), expected) {
            return false;
        }
        k = k + 1;
    }
    true
}

/// Checks a whole backup before it replaces the database: `Ok` exactly
/// where `backup_ok` holds; every refusal is `InvalidFile`.
pub fn validate(b: &BackupSnapshot) -> (r: Result<(), AppError>)
    requires
        snapshot_wf(*b),
    ensures
        r is Ok <==> backup_ok(*b),
        r matches Err(e) ==> e == AppError::InvalidFile,
{
    if crate::backup::validate_header(b.schema_version, b.media_files_included, b.slots.len()).is_err()
        || !identities_check(b) {
        return Err(AppError::InvalidFile);
    }
    let spools = spool_id_list(b);
    let hashes = parse_hash_list(b);
    let assets = asset_id_list(b);
    let projects = project_id_list(b);
    let jobs = job_id_list(b);
    if !older_shape_check(b) || !spools_check(b) || !slots_check(b, &spools) || !parse_cache_check(
        b,
    ) || !media_check(b) || !projects_check(b, &hashes, &assets) || !plates_check(
        b,
        &projects,
        &assets,
    ) || !plate_counts_check(b) || !jobs_check(b, &hashes) || !mappings_check(b, &spools)
        || !consumption_check(b, &spools) || !skipped_check(b) || !ledger_check(b, &spools, &jobs)
        || !settled_check(b) || !balances_check(b) || !settings_check(b) {
        return Err(AppError::InvalidFile);
    }
    Ok(())
}

} // verus!
