//! Plain domain vocabulary shared by inventory, imports and settlement.
use vstd::prelude::*;

verus! {

/// Where a spool stands in the inventory.
#[derive(Debug, Clone, Copy, PartialEq, Eq, Structural)]
pub enum SpoolStatus {
    Available,
    Assigned,
    Empty,
    Archived,
}

/// How sure a consumption figure is.
#[derive(Debug, Clone, Copy, PartialEq, Eq, Structural)]
pub enum Confidence {
    Exact,
    Estimated,
    NeedsConfirmation,
}

/// Where a plate of an imported project stands.
#[derive(Debug, Clone, Copy, PartialEq, Eq, Structural)]
pub enum PlateStatus {
    PendingMapping,
    Ready,
    Success,
    Failed,
    Cancelled,
    Skipped,
}

} // verus!
