//! Inventory vocabulary: how a spool's status follows from its state, and the
//! names under which statuses, ledger events and confidences are stored.
use crate::domain::{Confidence, SpoolStatus};
use crate::error::AppError;
use crate::text::str_eq;
use vstd::prelude::*;

verus! {

/// The kinds of ledger events.
#[derive(Debug, Clone, Copy, PartialEq, Eq, Structural)]
pub enum LedgerEventType {
    Creation,
    Settlement,
    Reversal,
    Adjustment,
}

/// The status a spool has: archived wins, then empty when nothing is left,
/// then assigned when it sits in a slot, else available.
pub open spec fn status_for_spec(is_archived: bool, is_mounted: bool, remaining_at_most_zero: bool) -> SpoolStatus {
    if is_archived {
        SpoolStatus::Archived
    } else if remaining_at_most_zero {
        SpoolStatus::Empty
    } else if is_mounted {
        SpoolStatus::Assigned
    } else {
        SpoolStatus::Available
    }
}

pub open spec fn status_text(status: SpoolStatus) -> Seq<char> {
    match status {
        SpoolStatus::Available => "available"@,
        SpoolStatus::Assigned => "assigned"@,
        SpoolStatus::Empty => "empty"@,
        SpoolStatus::Archived => "archived"@,
    }
}

/// The stored name of a spool status.
pub fn status_name(status: SpoolStatus) -> (r: &'static str)
    ensures
        r@ == status_text(status),
{
    match status {
        SpoolStatus::Available => "available",
        SpoolStatus::Assigned => "assigned",
        SpoolStatus::Empty => "empty",
        SpoolStatus::Archived => "archived",
    }
}

/// The stored status of a spool; `remaining_at_most_zero` says whether its
/// balance is zero or less.
pub fn status_for(is_archived: bool, is_mounted: bool, remaining_at_most_zero: bool) -> (r: &'static str)
    ensures
        r@ == status_text(status_for_spec(is_archived, is_mounted, remaining_at_most_zero)),
{
    status_name(
        if is_archived {
            SpoolStatus::Archived
        } else if remaining_at_most_zero {
            SpoolStatus::Empty
        } else if is_mounted {
            SpoolStatus::Assigned
        } else {
            SpoolStatus::Available
        },
    )
}

pub open spec fn spool_status_spec(value: Seq<char>) -> Option<SpoolStatus> {
    if value == "available"@ {
        Some(SpoolStatus::Available)
    } else if value == "assigned"@ {
        Some(SpoolStatus::Assigned)
    } else if value == "empty"@ {
        Some(SpoolStatus::Empty)
    } else if value == "archived"@ {
        Some(SpoolStatus::Archived)
    } else {
        None
    }
}

/// Reads a stored spool status; anything else is refused.
pub fn spool_status(value: &str) -> (r: Option<SpoolStatus>)
    ensures
        r == spool_status_spec(value@),
{
    if str_eq(value, "available") {
        Some(SpoolStatus::Available)
    } else if str_eq(value, "assigned") {
        Some(SpoolStatus::Assigned)
    } else if str_eq(value, "empty") {
        Some(SpoolStatus::Empty)
    } else if str_eq(value, "archived") {
        Some(SpoolStatus::Archived)
    } else {
        None
    }
}

pub open spec fn event_type_text(event_type: LedgerEventType) -> Seq<char> {
    match event_type {
        LedgerEventType::Creation => "creation"@,
        LedgerEventType::Settlement => "settlement"@,
        LedgerEventType::Reversal => "reversal"@,
        LedgerEventType::Adjustment => "adjustment"@,
    }
}

/// The stored name of a ledger event type.
pub fn event_type_name(event_type: LedgerEventType) -> (r: &'static str)
    ensures
        r@ == event_type_text(event_type),
{
    match event_type {
        LedgerEventType::Creation => "creation",
        LedgerEventType::Settlement => "settlement",
        LedgerEventType::Reversal => "reversal",
        LedgerEventType::Adjustment => "adjustment",
    }
}

pub open spec fn confidence_text(confidence: Confidence) -> Seq<char> {
    match confidence {
        Confidence::Exact => "exact"@,
        Confidence::Estimated => "estimated"@,
        Confidence::NeedsConfirmation => "needs_confirmation"@,
    }
}

/// The stored name of a confidence.
pub fn confidence_name(confidence: Confidence) -> (r: &'static str)
    ensures
        r@ == confidence_text(confidence),
{
    match confidence {
        Confidence::Exact => "exact",
        Confidence::Estimated => "estimated",
        Confidence::NeedsConfirmation => "needs_confirmation",
    }
}

pub open spec fn confidence_spec(value: Seq<char>) -> Option<Confidence> {
    if value == "exact"@ {
        Some(Confidence::Exact)
    } else if value == "estimated"@ {
        Some(Confidence::Estimated)
    } else if value == "needs_confirmation"@ {
        Some(Confidence::NeedsConfirmation)
    } else {
        None
    }
}

/// Reads a stored confidence; anything else is refused.
pub fn parse_confidence(value: &str) -> (r: Option<Confidence>)
    ensures
        r == confidence_spec(value@),
{
    if str_eq(value, "exact") {
        Some(Confidence::Exact)
    } else if str_eq(value, "estimated") {
        Some(Confidence::Estimated)
    } else if str_eq(value, "needs_confirmation") {
        Some(Confidence::NeedsConfirmation)
    } else {
        None
    }
}

/// Every status and confidence reads back as itself from its stored name.
pub proof fn lemma_stored_names_read_back(status: SpoolStatus, confidence: Confidence)
    ensures
        spool_status_spec(status_text(status)) == Some(status),
        confidence_spec(confidence_text(confidence)) == Some(confidence),
{
    reveal_strlit("available");
    reveal_strlit("assigned");
    reveal_strlit("empty");
    reveal_strlit("archived");
    reveal_strlit("exact");
    reveal_strlit("estimated");
    reveal_strlit("needs_confirmation");
    assert("assigned"@[1] != "available"@[1]);
    assert("empty"@[0] != "available"@[0]);
    assert("empty"@[0] != "assigned"@[0]);
    assert("archived"@[2] != "available"@[2]);
    assert("archived"@[1] != "assigned"@[1]);
    assert("archived"@[0] != "empty"@[0]);
    assert("estimated"@[1] != "exact"@[1]);
    assert("needs_confirmation"@[0] != "exact"@[0]);
    assert("needs_confirmation"@[0] != "estimated"@[0]);
}

/// The colours a new spool is stored with: those it names, or its primary
/// colour alone when it names none.
pub fn initial_color_hexes(color_hexes: Vec<String>, color_hex: &str) -> (r: Vec<String>)
    ensures
        color_hexes@.len() > 0 ==> r@ == color_hexes@,
        color_hexes@.len() == 0 ==> r@.len() == 1 && r@[0]@ == color_hex@,
{
    if color_hexes.len() == 0 {
        let mut r: Vec<String> = Vec::new();
        r.push(color_hex.to_owned());
        r
    } else {
        color_hexes
    }
}

/// The list of strings `serde_json` reads from a JSON text; `None` when the
/// text is not a JSON array of strings. Which texts parse is the crate's.
pub uninterp spec fn json_string_list(text: Seq<char>) -> Option<Seq<Seq<char>>>;

/// Reads a JSON array of strings with `serde_json`. The contract names the
/// result and says nothing more of the parser.
#[verifier::external_body]
fn parse_string_list(text: &str) -> (r: Option<Vec<String>>)
    ensures
        r matches Some(v) ==> json_string_list(text@) == Some(v@.map_values(|s: String| s@)),
        r is None ==> json_string_list(text@) is None,
{
    serde_json::from_str::<Vec<String>>(text).ok()
}

/// What a spool's stored colours read as: a non-empty list decoded from
/// the stored text, or else its primary colour alone.
pub open spec fn stored_colors_spec(decoded: Option<Seq<Seq<char>>>, color_hex: Seq<char>) -> Seq<
    Seq<char>,
> {
    match decoded {
        Some(v) => if v.len() > 0 {
            v
        } else {
            seq![color_hex]
        },
        None => seq![color_hex],
    }
}

/// The colours a spool shows given what its stored text decoded to.
pub fn colors_from_decoded(decoded: Option<Vec<String>>, color_hex: &str) -> (r: Vec<String>)
    ensures
        r@.map_values(|s: String| s@) == stored_colors_spec(
            match decoded {
                Some(v) => Some(v@.map_values(|s: String| s@)),
                None => None,
            },
            color_hex@,
        ),
{
    match decoded {
        Some(v) => {
            if v.len() > 0 {
                return v;
            }
        },
        None => {},
    }
    let mut r: Vec<String> = Vec::new();
    r.push(color_hex.to_owned());
    assert(r@.map_values(|s: String| s@) =~= seq![color_hex@]);
    r
}

/// The colours a stored spool shows; the stored text may be missing, not a
/// list, or empty, and then its primary colour stands for them.
pub fn stored_color_hexes(stored: Option<&str>, color_hex: &str) -> (r: Vec<String>)
    ensures
        r@.map_values(|s: String| s@) == stored_colors_spec(
            match stored {
                Some(t) => json_string_list(t@),
                None => None,
            },
            color_hex@,
        ),
{
    let decoded = match stored {
        Some(t) => parse_string_list(t),
        None => None,
    };
    colors_from_decoded(decoded, color_hex)
}

/// The error the store gives a negative spool weight: its `remaining_grams`
/// column holds no negative value.
pub open spec fn negative_weight_error(r: Result<(Option<i128>, SpoolStatus), AppError>) -> bool {
    r matches Err(AppError::Database(m)) && m@ == "CHECK constraint failed: remaining_grams >= 0"@
}

/// What calibrating a spool to `target` billionths of a gram does, given its
/// stored status, its ledger balance and whether it is mounted: an archived
/// spool is refused, and so is a negative weight, with nothing changed;
/// otherwise an adjustment of the difference, when there is one, and the
/// status the spool then has.
pub fn plan_calibration(status: &str, balance: i64, target: i64, is_mounted: bool) -> (r: Result<
    (Option<i128>, SpoolStatus),
    AppError,
>)
    ensures
        status@ == "archived"@ ==> r == Err::<(Option<i128>, SpoolStatus), AppError>(
            AppError::ArchivedSpool,
        ),
        status@ != "archived"@ && target < 0 ==> negative_weight_error(r),
        status@ != "archived"@ && target >= 0 ==> r == Ok::<(Option<i128>, SpoolStatus), AppError>(
            (
                if target == balance {
                    None
                } else {
                    Some((target - balance) as i128)
                },
                status_for_spec(false, is_mounted, target <= 0),
            ),
        ),
{
    if str_eq(status, "archived") {
        return Err(AppError::ArchivedSpool);
    }
    if target < 0 {
        return Err(AppError::Database("CHECK constraint failed: remaining_grams >= 0".to_owned()));
    }
    let delta = (target as i128) - (balance as i128);
    let next = if target == 0 {
        SpoolStatus::Empty
    } else if is_mounted {
        SpoolStatus::Assigned
    } else {
        SpoolStatus::Available
    };
    Ok((if delta == 0 { None } else { Some(delta) }, next))
}

/// A spool's status follows its balance before its slot: one that is not
/// archived and has nothing left is empty whether or not it sits in a slot;
/// one with filament is assigned while mounted and available otherwise; an
/// archived spool stays archived whatever its slot or balance.
pub proof fn lemma_status_follows_balance_then_slot(mounted: bool, spent: bool)
    ensures
        status_for_spec(false, mounted, true) == SpoolStatus::Empty,
        status_for_spec(false, true, false) == SpoolStatus::Assigned,
        status_for_spec(false, false, false) == SpoolStatus::Available,
        status_for_spec(true, mounted, spent) == SpoolStatus::Archived,
        status_for_spec(false, true, spent) != status_for_spec(false, false, spent) <==> !spent,
{
}

} // verus!
