//! The codes that cross the native pet boundary, decoded, and the native pet
//! handle of a platform without a native pet.
use super::{PetFps, PetMode, PetVisualStyle};
use vstd::prelude::*;

verus! {

/// Events the native side reports, by their stable codes 1 to 10.
#[derive(Debug, Clone, Copy, PartialEq, Eq, Structural)]
pub enum PetCallbackKind {
    Clicked,
    Moved,
    DropEntered,
    DropExited,
    FileDropped,
    DisplayChanged,
    PermissionChanged,
    CaptureFailed,
    Sleep,
    Wake,
}

pub open spec fn callback_kind_of(value: u32) -> Option<PetCallbackKind> {
    if value == 1 {
        Some(PetCallbackKind::Clicked)
    } else if value == 2 {
        Some(PetCallbackKind::Moved)
    } else if value == 3 {
        Some(PetCallbackKind::DropEntered)
    } else if value == 4 {
        Some(PetCallbackKind::DropExited)
    } else if value == 5 {
        Some(PetCallbackKind::FileDropped)
    } else if value == 6 {
        Some(PetCallbackKind::DisplayChanged)
    } else if value == 7 {
        Some(PetCallbackKind::PermissionChanged)
    } else if value == 8 {
        Some(PetCallbackKind::CaptureFailed)
    } else if value == 9 {
        Some(PetCallbackKind::Sleep)
    } else if value == 10 {
        Some(PetCallbackKind::Wake)
    } else {
        None
    }
}

impl PetCallbackKind {
    /// Decodes a callback code; codes outside 1..=10 are refused.
    pub fn try_from(value: u32) -> (r: Result<Self, ()>)
        ensures
            r matches Ok(k) ==> callback_kind_of(value) == Some(k),
            r is Err <==> callback_kind_of(value) is None,
    {
        match value {
            1 => Ok(PetCallbackKind::Clicked),
            2 => Ok(PetCallbackKind::Moved),
            3 => Ok(PetCallbackKind::DropEntered),
            4 => Ok(PetCallbackKind::DropExited),
            5 => Ok(PetCallbackKind::FileDropped),
            6 => Ok(PetCallbackKind::DisplayChanged),
            7 => Ok(PetCallbackKind::PermissionChanged),
            8 => Ok(PetCallbackKind::CaptureFailed),
            9 => Ok(PetCallbackKind::Sleep),
            10 => Ok(PetCallbackKind::Wake),
            _ => Err(()),
        }
    }

    /// The stable code of this kind.
    pub fn value(self) -> (r: u32)
        ensures
            callback_kind_of(r) == Some(self),
    {
        match self {
            PetCallbackKind::Clicked => 1,
            PetCallbackKind::Moved => 2,
            PetCallbackKind::DropEntered => 3,
            PetCallbackKind::DropExited => 4,
            PetCallbackKind::FileDropped => 5,
            PetCallbackKind::DisplayChanged => 6,
            PetCallbackKind::PermissionChanged => 7,
            PetCallbackKind::CaptureFailed => 8,
            PetCallbackKind::Sleep => 9,
            PetCallbackKind::Wake => 10,
        }
    }
}

/// The native capture state, by its stable codes 0 to 5.
#[derive(Debug, Clone, Copy, PartialEq, Eq, Structural)]
pub enum NativeCaptureState {
    Unavailable,
    NotDetermined,
    Denied,
    RestartRequired,
    Ready,
    Failed,
}

pub open spec fn capture_state_of(value: u32) -> Option<NativeCaptureState> {
    if value == 0 {
        Some(NativeCaptureState::Unavailable)
    } else if value == 1 {
        Some(NativeCaptureState::NotDetermined)
    } else if value == 2 {
        Some(NativeCaptureState::Denied)
    } else if value == 3 {
        Some(NativeCaptureState::RestartRequired)
    } else if value == 4 {
        Some(NativeCaptureState::Ready)
    } else if value == 5 {
        Some(NativeCaptureState::Failed)
    } else {
        None
    }
}

impl NativeCaptureState {
    /// Decodes a capture-state code; codes above 5 are refused.
    pub fn try_from(value: u32) -> (r: Result<Self, ()>)
        ensures
            r matches Ok(k) ==> capture_state_of(value) == Some(k),
            r is Err <==> capture_state_of(value) is None,
    {
        match value {
            0 => Ok(NativeCaptureState::Unavailable),
            1 => Ok(NativeCaptureState::NotDetermined),
            2 => Ok(NativeCaptureState::Denied),
            3 => Ok(NativeCaptureState::RestartRequired),
            4 => Ok(NativeCaptureState::Ready),
            5 => Ok(NativeCaptureState::Failed),
            _ => Err(()),
        }
    }
}

/// Whether the native renderer can draw.
#[derive(Debug, Clone, Copy, PartialEq, Eq, Structural)]
pub enum NativeRendererState {
    Unavailable,
    Ready,
}

impl NativeRendererState {
    /// Decodes a renderer-state code: 0 or 1.
    pub fn try_from(value: u32) -> (r: Result<Self, ()>)
        ensures
            value == 0 ==> r == Ok::<Self, ()>(NativeRendererState::Unavailable),
            value == 1 ==> r == Ok::<Self, ()>(NativeRendererState::Ready),
            value > 1 ==> r is Err,
    {
        match value {
            0 => Ok(NativeRendererState::Unavailable),
            1 => Ok(NativeRendererState::Ready),
            _ => Err(()),
        }
    }
}

/// The answer to a native file drop.
#[derive(Debug, Clone, Copy, PartialEq, Eq, Structural)]
pub enum NativeDropResult {
    Accepted,
    Rejected,
}

impl NativeDropResult {
    /// The code handed to the native side: 1 accepted, 2 rejected.
    pub fn value(self) -> (r: u32)
        ensures
            r == (match self {
                NativeDropResult::Accepted => 1u32,
                NativeDropResult::Rejected => 2u32,
            }),
    {
        match self {
            NativeDropResult::Accepted => 1,
            NativeDropResult::Rejected => 2,
        }
    }
}

/// How native teardown ended.
#[derive(Debug, Clone, Copy, PartialEq, Eq, Structural)]
pub enum NativeShutdownState {
    Complete,
    StopFailed,
    StopTimedOut,
}

pub open spec fn shutdown_code_of(state: NativeShutdownState) -> Seq<char> {
    match state {
        NativeShutdownState::Complete => "complete"@,
        NativeShutdownState::StopFailed => "capture_stop_failed"@,
        NativeShutdownState::StopTimedOut => "capture_stop_timed_out"@,
    }
}

impl NativeShutdownState {
    /// The stable code of this state.
    pub fn code(self) -> (r: &'static str)
        ensures
            r@ == shutdown_code_of(self),
    {
        match self {
            NativeShutdownState::Complete => "complete",
            NativeShutdownState::StopFailed => "capture_stop_failed",
            NativeShutdownState::StopTimedOut => "capture_stop_timed_out",
        }
    }

    /// Decodes a teardown code: 0, 1 or 2.
    pub fn try_from(value: u32) -> (r: Result<Self, ()>)
        ensures
            value == 0 ==> r == Ok::<Self, ()>(NativeShutdownState::Complete),
            value == 1 ==> r == Ok::<Self, ()>(NativeShutdownState::StopFailed),
            value == 2 ==> r == Ok::<Self, ()>(NativeShutdownState::StopTimedOut),
            value > 2 ==> r is Err,
    {
        match value {
            0 => Ok(NativeShutdownState::Complete),
            1 => Ok(NativeShutdownState::StopFailed),
            2 => Ok(NativeShutdownState::StopTimedOut),
            _ => Err(()),
        }
    }
}

/// The version of the native configuration layout.
pub const ABI_VERSION: u32 = 1;

pub const MODE_REAL: u32 = 0;

pub const MODE_LITE: u32 = 1;

pub const FPS_AUTO: u32 = 0;

pub const FPS_30: u32 = 30;

pub const FPS_60: u32 = 60;

/// What the pet is doing, which decides its automatic frame rate.
#[derive(Debug, Clone, Copy, PartialEq, Eq, Structural)]
pub enum PetActivity {
    Idle,
    DropHover,
    Signal,
    Hidden,
}

pub open spec fn target_fps_spec(fps: PetFps, activity: PetActivity) -> u32 {
    if activity == PetActivity::Hidden {
        0
    } else {
        match fps {
            PetFps::Auto => if activity == PetActivity::Idle {
                30
            } else {
                60
            },
            PetFps::Fps30 => 30,
            PetFps::Fps60 => 60,
        }
    }
}

/// The frame rate to render at: nothing while hidden, 30 when idle and 60
/// during a drop hover or a signal under `Auto`, else the fixed rate.
pub fn target_fps(fps: PetFps, activity: PetActivity) -> (r: u32)
    ensures
        r == target_fps_spec(fps, activity),
{
    if activity == PetActivity::Hidden {
        return 0;
    }
    match fps {
        PetFps::Auto => match activity {
            PetActivity::Idle => 30,
            PetActivity::DropHover | PetActivity::Signal => 60,
            PetActivity::Hidden => 0,
        },
        PetFps::Fps30 => 30,
        PetFps::Fps60 => 60,
    }
}

/// The native code of a mode.
pub fn mode_value(mode: PetMode) -> (r: u32)
    ensures
        r == (if mode == PetMode::Real {
            MODE_REAL
        } else {
            MODE_LITE
        }),
{
    match mode {
        PetMode::Real => MODE_REAL,
        PetMode::Lite => MODE_LITE,
    }
}

/// The native code of a frame-rate choice.
pub fn fps_value(fps: PetFps) -> (r: u32)
    ensures
        r == (match fps {
            PetFps::Auto => FPS_AUTO,
            PetFps::Fps30 => FPS_30,
            PetFps::Fps60 => FPS_60,
        }),
{
    match fps {
        PetFps::Auto => FPS_AUTO,
        PetFps::Fps30 => FPS_30,
        PetFps::Fps60 => FPS_60,
    }
}

/// The native code of a visual style.
pub fn visual_style_value(style: PetVisualStyle) -> (r: u8)
    ensures
        r == (if style == PetVisualStyle::Gargantua {
            0u8
        } else {
            1u8
        }),
{
    match style {
        PetVisualStyle::Gargantua => 0,
        PetVisualStyle::Fusion => 1,
    }
}

/// The layout version the native side speaks; without a native pet it is the
/// library's own.
pub fn abi_version() -> (r: u32)
    ensures
        r == ABI_VERSION,
{
    ABI_VERSION
}

/// Creating the native pet failed.
#[derive(Debug, Clone, Copy, PartialEq, Eq, Structural)]
pub struct NativePetError;

/// The native pet of a platform without a native pet: it exists, shows
/// nothing, reports capture and rendering unavailable and tears down at once.
pub struct NativePet;

impl NativePet {
    /// Creates the pet; without a native side this always succeeds.
    pub fn new() -> (r: Result<Self, NativePetError>)
        ensures
            r is Ok,
    {
        Ok(NativePet)
    }

    /// Without a native side there is no window to show.
    pub fn show(&self) {
    }

    /// Without a native side there is no window to hide.
    pub fn hide_pet(&self) {
    }

    /// Without a native side there is no position to reset.
    pub fn reset(&self) {
    }

    /// Without a native side no animation receives the signal.
    pub fn signal(&self, _signal: u32) {
    }

    /// Without a native side no drop awaits an answer.
    pub fn finish_drop(&self, _generation: u64, _result: NativeDropResult) {
    }

    /// Without a native side, capture is never available.
    pub fn capture_state(&self) -> (r: NativeCaptureState)
        ensures
            r == NativeCaptureState::Unavailable,
    {
        NativeCaptureState::Unavailable
    }

    /// Without a native side, nothing renders.
    pub fn renderer_state(&self) -> (r: NativeRendererState)
        ensures
            r == NativeRendererState::Unavailable,
    {
        NativeRendererState::Unavailable
    }

    /// Tearing down a pet without a native side always completes.
    pub fn shutdown(self) -> (r: NativeShutdownState)
        ensures
            r == NativeShutdownState::Complete,
    {
        NativeShutdownState::Complete
    }
}

} // verus!
