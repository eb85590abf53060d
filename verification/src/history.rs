//! The status of a plate in the print history, from its job's stored state.
use crate::domain::PlateStatus;
use crate::error::AppError;
use crate::text::str_eq;
use vstd::prelude::*;

verus! {

/// The `kind` member of a JSON object text, as `serde_json` reads it: `None`
/// when the text is no JSON, or has no `kind` string. Which texts parse is
/// `serde_json`'s affair and is not written out here.
pub uninterp spec fn json_kind_text(text: Seq<char>) -> Option<Seq<char>>;

/// Reads the `kind` string of a stored outcome with `serde_json`. The
/// contract ties the result to the text and says nothing more of the parser.
#[verifier::external_body]
pub(crate) fn json_kind(text: &str) -> (r: Option<String>)
    ensures
        r matches Some(k) ==> json_kind_text(text@) == Some(k@),
        r is None ==> json_kind_text(text@) is None,
{
    serde_json::from_str::<serde_json::Value>(text).ok().and_then(
        |value| value.get("kind")?.as_str().map(str::to_owned),
    )
}

/// The status a settled outcome of this kind gives its plate.
pub open spec fn kind_status(kind: Seq<char>) -> Option<PlateStatus> {
    if kind == "success"@ {
        Some(PlateStatus::Success)
    } else if kind == "failed"@ {
        Some(PlateStatus::Failed)
    } else if kind == "cancelled"@ {
        Some(PlateStatus::Cancelled)
    } else if kind == "skipped"@ {
        Some(PlateStatus::Skipped)
    } else {
        None
    }
}

pub open spec fn invalid_outcome(r: Result<PlateStatus, AppError>) -> bool {
    r matches Err(AppError::Database(m)) && m@ == "invalid job outcome"@
}

/// The status of a plate whose outcome has the kind `kind` (`None` when the
/// outcome names none): `success`, `failed`, `cancelled` and `skipped` give
/// their status; anything else is an invalid outcome in the database.
pub fn plate_status_for_kind(kind: Option<&str>) -> (r: Result<PlateStatus, AppError>)
    ensures
        match kind {
            Some(k) => match kind_status(k@) {
                Some(s) => r == Ok::<PlateStatus, AppError>(s),
                None => invalid_outcome(r),
            },
            None => invalid_outcome(r),
        },
{
    let k = match kind {
        Some(k) => k,
        None => return Err(AppError::Database("invalid job outcome".to_owned())),
    };
    if str_eq(k, "success") {
        Ok(PlateStatus::Success)
    } else if str_eq(k, "failed") {
        Ok(PlateStatus::Failed)
    } else if str_eq(k, "cancelled") {
        Ok(PlateStatus::Cancelled)
    } else if str_eq(k, "skipped") {
        Ok(PlateStatus::Skipped)
    } else {
        Err(AppError::Database("invalid job outcome".to_owned()))
    }
}

/// The status of a plate from its job: without an outcome the plate is
/// ready when every filament is mapped and waits for a mapping otherwise;
/// with one, the outcome's kind decides (see `plate_status_for_kind`).
pub fn status_for_job(outcome: Option<&str>, mapping_count: u32, filament_count: usize) -> (r: Result<
    PlateStatus,
    AppError,
>)
    ensures
        match outcome {
            None => r == Ok::<PlateStatus, AppError>(
                if mapping_count == #[verifier::truncate] (filament_count as u32) {
                    PlateStatus::Ready
                } else {
                    PlateStatus::PendingMapping
                },
            ),
            Some(o) => match json_kind_text(o@) {
                Some(k) => match kind_status(k) {
                    Some(s) => r == Ok::<PlateStatus, AppError>(s),
                    None => invalid_outcome(r),
                },
                None => invalid_outcome(r),
            },
        },
{
    match outcome {
        None => {
            if mapping_count == #[verifier::truncate] (filament_count as u32) {
                Ok(PlateStatus::Ready)
            } else {
                Ok(PlateStatus::PendingMapping)
            }
        },
        Some(o) => {
            let kind = json_kind(o);
            match kind {
                Some(k) => plate_status_for_kind(Some(k.as_str())),
                None => plate_status_for_kind(None),
            }
        },
    }
}

pub open spec fn awaits_print(s: PlateStatus) -> bool {
    s == PlateStatus::PendingMapping || s == PlateStatus::Ready
}

/// The first plate of a project that still waits to be printed (its
/// mapping pending or ready); a project without one is an invalid job.
pub fn first_pending_plate(statuses: &Vec<PlateStatus>) -> (r: Result<usize, AppError>)
    ensures
        r matches Ok(i) ==> i < statuses@.len() && awaits_print(statuses@[i as int]) && forall|k: int|
            0 <= k < i ==> !awaits_print(#[trigger] statuses@[k]),
        r is Err ==> r == Err::<usize, AppError>(AppError::InvalidJob) && forall|k: int|
            0 <= k < statuses@.len() ==> !awaits_print(#[trigger] statuses@[k]),
{
    let mut i: usize = 0;
    while i < statuses.len()
        invariant
            i <= statuses@.len(),
            forall|k: int| 0 <= k < i ==> !awaits_print(#[trigger] statuses@[k]),
        decreases statuses.len() - i,
    {
        match statuses[i] {
            PlateStatus::PendingMapping | PlateStatus::Ready => return Ok(i),
            _ => {},
        }
        i = i + 1;
    }
    Err(AppError::InvalidJob)
}

} // verus!
