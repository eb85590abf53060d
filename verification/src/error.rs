//! The library's error type and its stable codes.
use vstd::prelude::*;

verus! {

/// Every failure the library reports. The variants that carry text hold a
/// description for logs; callers see only the stable `code`.
#[derive(Debug, Clone, PartialEq, Eq)]
pub enum AppError {
    InvalidFile,
    UnslicedProject,
    UnknownGcode,
    StandaloneGcodeProfilesRequired,
    SlotConflict,
    InvalidSlot,
    ArchivedSpool,
    DuplicateJob,
    FileNotStable,
    InvalidJob,
    InvalidMapping,
    InsufficientFilament,
    InvalidPetSettings,
    SlicerIncompatible,
    SlicerProfilesMissing,
    Database(String),
    Io(String),
}

/// The stable code of each error.
pub open spec fn code_of(e: AppError) -> Seq<char> {
    match e {
        AppError::InvalidFile => "invalid_file"@,
        AppError::UnslicedProject => "unsliced_project"@,
        AppError::UnknownGcode => "unknown_gcode"@,
        AppError::StandaloneGcodeProfilesRequired => "standalone_gcode_profiles_required"@,
        AppError::SlotConflict => "slot_conflict"@,
        AppError::InvalidSlot => "invalid_slot"@,
        AppError::ArchivedSpool => "archived_spool"@,
        AppError::DuplicateJob => "duplicate_job"@,
        AppError::FileNotStable => "file_not_stable"@,
        AppError::InvalidJob => "invalid_job"@,
        AppError::InvalidMapping => "invalid_mapping"@,
        AppError::InsufficientFilament => "insufficient_filament"@,
        AppError::InvalidPetSettings => "invalid_pet_settings"@,
        AppError::SlicerIncompatible => "slicer_incompatible"@,
        AppError::SlicerProfilesMissing => "slicer_profiles_missing"@,
        AppError::Database(_) => "database"@,
        AppError::Io(_) => "io"@,
    }
}

impl AppError {
    /// The stable, machine-readable code of this error; the text a variant
    /// carries never reaches it.
    pub fn code(&self) -> (r: &'static str)
        ensures
            r@ == code_of(*self),
    {
        match self {
            AppError::InvalidFile => "invalid_file",
            AppError::UnslicedProject => "unsliced_project",
            AppError::UnknownGcode => "unknown_gcode",
            AppError::StandaloneGcodeProfilesRequired => "standalone_gcode_profiles_required",
            AppError::SlotConflict => "slot_conflict",
            AppError::InvalidSlot => "invalid_slot",
            AppError::ArchivedSpool => "archived_spool",
            AppError::DuplicateJob => "duplicate_job",
            AppError::FileNotStable => "file_not_stable",
            AppError::InvalidJob => "invalid_job",
            AppError::InvalidMapping => "invalid_mapping",
            AppError::InsufficientFilament => "insufficient_filament",
            AppError::InvalidPetSettings => "invalid_pet_settings",
            AppError::SlicerIncompatible => "slicer_incompatible",
            AppError::SlicerProfilesMissing => "slicer_profiles_missing",
            AppError::Database(_) => "database",
            AppError::Io(_) => "io",
        }
    }
}

} // verus!
