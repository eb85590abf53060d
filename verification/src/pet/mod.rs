//! The desktop pet: its settings vocabulary, the native bridge's codes, the
//! runtime's state machines, the stored settings and the drop-input rules.
pub mod input;
pub mod native;
pub mod runtime;
pub mod store;

pub use store::PetStore;

use vstd::prelude::*;

verus! {

/// The mode the user asks for.
#[derive(Debug, Clone, Copy, PartialEq, Eq, Structural)]
pub enum PetMode {
    Real,
    Lite,
}

/// The requested frame rate.
#[derive(Debug, Clone, Copy, PartialEq, Eq, Structural)]
pub enum PetFps {
    Auto,
    Fps30,
    Fps60,
}

/// The look of the pet.
#[derive(Debug, Clone, Copy, PartialEq, Eq, Structural)]
pub enum PetVisualStyle {
    Gargantua,
    Fusion,
}

/// The screen-capture permission as the pet reports it.
#[derive(Debug, Clone, Copy, PartialEq, Eq, Structural)]
pub enum CapturePermission {
    Unavailable,
    NotDetermined,
    Denied,
    RestartRequired,
    Granted,
}

/// What the pet actually shows, and why it fell back when it did.
#[derive(Debug, Clone, PartialEq, Eq)]
pub struct PetStatus {
    pub effective_mode: PetMode,
    pub permission: CapturePermission,
    pub fallback_reason: Option<String>,
}

/// A pet is enabled in Real mode only.
pub fn enabled(mode: PetMode) -> (r: bool)
    ensures
        r == (mode == PetMode::Real),
{
    match mode {
        PetMode::Real => true,
        PetMode::Lite => false,
    }
}

/// The pet shows only when it is enabled and the user left it visible.
pub fn effective_visibility(mode: PetMode, visible: bool) -> (r: bool)
    ensures
        r == (mode == PetMode::Real && visible),
{
    enabled(mode) && visible
}

/// A settings change asks for the capture permission only when it turns Real mode on.
pub fn should_request_permission(patch_mode: Option<PetMode>) -> (r: bool)
    ensures
        r == (patch_mode == Some(PetMode::Real)),
{
    match patch_mode {
        Some(PetMode::Real) => true,
        _ => false,
    }
}

/// The pet's settings apart from the coordinates of its position, which are
/// floating-point: whether each coordinate is set, and the display.
#[derive(Debug, Clone, Copy, PartialEq, Eq, Structural)]
pub struct PetChoices {
    pub mode: PetMode,
    pub visual_style: PetVisualStyle,
    pub size: u16,
    pub fps: PetFps,
    pub visible: bool,
    pub has_x: bool,
    pub has_y: bool,
    pub display_id: Option<u64>,
}

/// A change to the settings; each field that is given replaces the current
/// one, and `reset_position` clears the whole position.
#[derive(Debug, Clone, Copy, PartialEq, Eq, Structural)]
pub struct PetChoicesPatch {
    pub mode: Option<PetMode>,
    pub visual_style: Option<PetVisualStyle>,
    pub size: Option<u16>,
    pub fps: Option<PetFps>,
    pub visible: Option<bool>,
    pub x_given: bool,
    pub y_given: bool,
    pub display_id: Option<u64>,
    pub reset_position: Option<bool>,
}

pub open spec fn or_keep<T>(given: Option<T>, current: T) -> T {
    match given {
        Some(v) => v,
        None => current,
    }
}

/// The settings a patch leads to, before they are checked.
pub open spec fn patched(current: PetChoices, patch: PetChoicesPatch) -> PetChoices {
    let reset = patch.reset_position == Some(true);
    PetChoices {
        mode: or_keep(patch.mode, current.mode),
        visual_style: or_keep(patch.visual_style, current.visual_style),
        size: or_keep(patch.size, current.size),
        fps: or_keep(patch.fps, current.fps),
        visible: or_keep(patch.visible, current.visible),
        has_x: !reset && (patch.x_given || current.has_x),
        has_y: !reset && (patch.y_given || current.has_y),
        display_id: if reset {
            None
        } else if patch.display_id is Some {
            patch.display_id
        } else {
            current.display_id
        },
    }
}

/// Settings a pet may have: a size within bounds, and a position that is
/// either whole (both coordinates and the display) or absent.
pub open spec fn choices_ok(c: PetChoices) -> bool {
    &&& crate::pet::store::MIN_SIZE <= c.size <= crate::pet::store::MAX_SIZE
    &&& (c.has_x && c.has_y && c.display_id is Some) || (!c.has_x && !c.has_y
        && c.display_id is None)
}

/// Applies a patch to the settings; settings a pet may not have are refused.
pub fn apply_choices(current: PetChoices, patch: PetChoicesPatch) -> (r: Result<PetChoices, crate::error::AppError>)
    ensures
        choices_ok(patched(current, patch)) ==> r == Ok::<PetChoices, crate::error::AppError>(
            patched(current, patch),
        ),
        !choices_ok(patched(current, patch)) ==> r == Err::<PetChoices, crate::error::AppError>(
            crate::error::AppError::InvalidPetSettings,
        ),
{
    let mut next = current;
    if let Some(mode) = patch.mode {
        next.mode = mode;
    }
    if let Some(visual_style) = patch.visual_style {
        next.visual_style = visual_style;
    }
    if let Some(size) = patch.size {
        next.size = size;
    }
    if let Some(fps) = patch.fps {
        next.fps = fps;
    }
    if let Some(visible) = patch.visible {
        next.visible = visible;
    }
    if patch.reset_position == Some(true) {
        next.has_x = false;
        next.has_y = false;
        next.display_id = None;
    } else {
        if patch.x_given {
            next.has_x = true;
        }
        if patch.y_given {
            next.has_y = true;
        }
        if patch.display_id.is_some() {
            next.display_id = patch.display_id;
        }
    }
    let whole = next.has_x && next.has_y && next.display_id.is_some();
    let absent = !next.has_x && !next.has_y && next.display_id.is_none();
    if next.size < crate::pet::store::MIN_SIZE || next.size > crate::pet::store::MAX_SIZE || !(whole
        || absent) {
        return Err(crate::error::AppError::InvalidPetSettings);
    }
    Ok(next)
}

} // verus!
