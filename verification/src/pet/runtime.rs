//! The pet runtime's decisions: how capture events map to what the pet shows,
//! what sleeping and waking do, how a second launch is recalled, and how the
//! runtime's status follows the native events.
use super::native::{NativeCaptureState, NativeRendererState};
use super::{CapturePermission, PetMode, PetStatus};
use crate::text::str_eq;
use vstd::prelude::*;

verus! {

/// The capture pipeline as the runtime tracks it.
#[derive(Debug, Clone, Copy, PartialEq, Eq, Structural)]
pub enum CaptureState {
    Unavailable,
    NotDetermined,
    Requested,
    Denied,
    RestartRequired,
    Ready,
    Failed,
}

/// What the capture side reported.
#[derive(Debug, Clone, Copy, PartialEq, Eq, Structural)]
pub enum CaptureEvent {
    Unavailable,
    NotDetermined,
    Denied,
    RestartRequired,
    Ready,
    Failed,
}

/// What the pet shows after a capture event.
#[derive(Debug, Clone, PartialEq, Eq)]
pub struct CaptureSnapshot {
    pub effective_mode: PetMode,
    pub permission: CapturePermission,
    pub fallback_reason: Option<String>,
    pub pet_visible: bool,
}

/// The permission a capture event reports.
pub open spec fn event_permission(event: CaptureEvent) -> CapturePermission {
    match event {
        CaptureEvent::Unavailable => CapturePermission::Unavailable,
        CaptureEvent::NotDetermined => CapturePermission::NotDetermined,
        CaptureEvent::Denied => CapturePermission::Denied,
        CaptureEvent::RestartRequired => CapturePermission::RestartRequired,
        CaptureEvent::Ready => CapturePermission::Granted,
        CaptureEvent::Failed => CapturePermission::Granted,
    }
}

/// Why the pet falls back to Lite after a capture event; `None` when it does not.
pub open spec fn event_fallback(event: CaptureEvent) -> Option<Seq<char>> {
    match event {
        CaptureEvent::Unavailable => Some("capture_unavailable"@),
        CaptureEvent::NotDetermined => Some("permission_not_determined"@),
        CaptureEvent::Denied => Some("permission_denied"@),
        CaptureEvent::RestartRequired => Some("permission_restart_required"@),
        CaptureEvent::Ready => None,
        CaptureEvent::Failed => Some("capture_failed"@),
    }
}

pub open spec fn view_reason(r: Option<String>) -> Option<Seq<char>> {
    match r {
        Some(s) => Some(s@),
        None => None,
    }
}

impl CaptureState {
    /// The pet after a capture event: Real only once capture is ready, Lite
    /// with the event's reason otherwise, and visible either way.
    pub fn reduce(self, event: CaptureEvent) -> (r: CaptureSnapshot)
        ensures
            r.effective_mode == (if event == CaptureEvent::Ready {
                PetMode::Real
            } else {
                PetMode::Lite
            }),
            r.permission == event_permission(event),
            view_reason(r.fallback_reason) == event_fallback(event),
            r.pet_visible,
    {
        let (effective_mode, permission, fallback_reason) = match event {
            CaptureEvent::Unavailable => (
                PetMode::Lite,
                CapturePermission::Unavailable,
                Some("capture_unavailable"),
            ),
            CaptureEvent::NotDetermined => (
                PetMode::Lite,
                CapturePermission::NotDetermined,
                Some("permission_not_determined"),
            ),
            CaptureEvent::Denied => (
                PetMode::Lite,
                CapturePermission::Denied,
                Some("permission_denied"),
            ),
            CaptureEvent::RestartRequired => (
                PetMode::Lite,
                CapturePermission::RestartRequired,
                Some("permission_restart_required"),
            ),
            CaptureEvent::Ready => (PetMode::Real, CapturePermission::Granted, None),
            CaptureEvent::Failed => (
                PetMode::Lite,
                CapturePermission::Granted,
                Some("capture_failed"),
            ),
        };
        let fallback_reason = match fallback_reason {
            Some(reason) => Some(reason.to_owned()),
            None => None,
        };
        CaptureSnapshot { effective_mode, permission, fallback_reason, pet_visible: true }
    }
}

/// The capture event that a native capture state stands for.
pub open spec fn event_for(state: NativeCaptureState) -> CaptureEvent {
    match state {
        NativeCaptureState::Unavailable => CaptureEvent::Unavailable,
        NativeCaptureState::NotDetermined => CaptureEvent::NotDetermined,
        NativeCaptureState::Denied => CaptureEvent::Denied,
        NativeCaptureState::RestartRequired => CaptureEvent::RestartRequired,
        NativeCaptureState::Ready => CaptureEvent::Ready,
        NativeCaptureState::Failed => CaptureEvent::Failed,
    }
}

impl CaptureEvent {
    /// The capture event for a native capture state, one for one.
    pub fn from_native(state: NativeCaptureState) -> (r: CaptureEvent)
        ensures
            r == event_for(state),
    {
        match state {
            NativeCaptureState::Unavailable => CaptureEvent::Unavailable,
            NativeCaptureState::NotDetermined => CaptureEvent::NotDetermined,
            NativeCaptureState::Denied => CaptureEvent::Denied,
            NativeCaptureState::RestartRequired => CaptureEvent::RestartRequired,
            NativeCaptureState::Ready => CaptureEvent::Ready,
            NativeCaptureState::Failed => CaptureEvent::Failed,
        }
    }
}

/// The graphics interface the native renderer draws with: Direct3D on
/// Windows, Metal elsewhere.
#[derive(Debug, Clone, Copy, PartialEq, Eq, Structural)]
pub enum NativeGraphics {
    Direct3d,
    Metal,
}

/// The reason a missing renderer gives, named after the graphics interface.
pub open spec fn renderer_reason(graphics: NativeGraphics) -> Seq<char> {
    match graphics {
        NativeGraphics::Direct3d => "direct3d_unavailable"@,
        NativeGraphics::Metal => "metal_unavailable"@,
    }
}

/// The status of a pet in `mode`, given what capture, renderer and
/// presentation report. Lite is asked for: Lite, no permission, no reason.
/// Otherwise a missing renderer, then a missing presentation, force Lite with
/// their own reasons; else capture decides.
pub open spec fn capture_status_spec(
    mode: PetMode,
    capture_state: NativeCaptureState,
    renderer_state: NativeRendererState,
    presentation_unavailable: bool,
    graphics: NativeGraphics,
) -> (PetMode, CapturePermission, Option<Seq<char>>) {
    let event = event_for(capture_state);
    if mode == PetMode::Lite {
        (PetMode::Lite, CapturePermission::Unavailable, None)
    } else if renderer_state == NativeRendererState::Unavailable {
        (PetMode::Lite, event_permission(event), Some(renderer_reason(graphics)))
    } else if presentation_unavailable {
        (PetMode::Lite, event_permission(event), Some("presentation_unavailable"@))
    } else {
        (
            if event == CaptureEvent::Ready {
                PetMode::Real
            } else {
                PetMode::Lite
            },
            event_permission(event),
            event_fallback(event),
        )
    }
}

pub open spec fn status_view(s: PetStatus) -> (PetMode, CapturePermission, Option<Seq<char>>) {
    (s.effective_mode, s.permission, view_reason(s.fallback_reason))
}

/// The status a pet in `mode` reports; see `capture_status_spec`.
pub fn capture_status(
    mode: PetMode,
    capture_state: NativeCaptureState,
    renderer_state: NativeRendererState,
    presentation_unavailable: bool,
    graphics: NativeGraphics,
) -> (r: PetStatus)
    ensures
        status_view(r) == capture_status_spec(
            mode,
            capture_state,
            renderer_state,
            presentation_unavailable,
            graphics,
        ),
{
    if mode == PetMode::Lite {
        return PetStatus {
            effective_mode: PetMode::Lite,
            permission: CapturePermission::Unavailable,
            fallback_reason: None,
        };
    }
    let snapshot = CaptureState::Requested.reduce(CaptureEvent::from_native(capture_state));
    if renderer_state == NativeRendererState::Unavailable {
        return PetStatus {
            effective_mode: PetMode::Lite,
            permission: snapshot.permission,
            fallback_reason: Some(
                match graphics {
                    NativeGraphics::Direct3d => "direct3d_unavailable".to_owned(),
                    NativeGraphics::Metal => "metal_unavailable".to_owned(),
                },
            ),
        };
    }
    if presentation_unavailable {
        return PetStatus {
            effective_mode: PetMode::Lite,
            permission: snapshot.permission,
            fallback_reason: Some("presentation_unavailable".to_owned()),
        };
    }
    PetStatus {
        effective_mode: snapshot.effective_mode,
        permission: snapshot.permission,
        fallback_reason: snapshot.fallback_reason,
    }
}

/// Work the runtime does when the pet's life changes.
#[derive(Debug, Clone, Copy, PartialEq, Eq, Structural)]
pub enum LifeAction {
    StopCapture,
    PauseRender,
    EnumerateDisplays,
    CheckPermission,
}

/// A change in the pet's life.
#[derive(Debug, Clone, Copy, PartialEq, Eq, Structural)]
pub enum LifeEvent {
    Hidden,
    Sleep,
    Wake,
}

/// Whether the pet sleeps.
#[derive(Debug, Clone, Copy, PartialEq, Eq, Structural)]
pub struct LifeState {
    sleeping: bool,
}

impl LifeState {
    pub closed spec fn is_sleeping(self) -> bool {
        self.sleeping
    }

    pub fn active_real() -> (r: Self)
        ensures
            !r.is_sleeping(),
    {
        LifeState { sleeping: false }
    }

    pub fn sleeping_real() -> (r: Self)
        ensures
            r.is_sleeping(),
    {
        LifeState { sleeping: true }
    }

    /// Hiding or sleeping stops capture, then pauses rendering; waking
    /// enumerates the displays, then checks the permission again.
    pub fn reduce(&mut self, event: LifeEvent) -> (r: Vec<LifeAction>)
        ensures
            event == LifeEvent::Wake ==> r@ == seq![
                LifeAction::EnumerateDisplays,
                LifeAction::CheckPermission,
            ] && !final(self).is_sleeping(),
            event != LifeEvent::Wake ==> r@ == seq![
                LifeAction::StopCapture,
                LifeAction::PauseRender,
            ] && final(self).is_sleeping() == (event == LifeEvent::Sleep),
    {
        match event {
            LifeEvent::Hidden | LifeEvent::Sleep => {
                self.sleeping = event == LifeEvent::Sleep;
                let r = vec![LifeAction::StopCapture, LifeAction::PauseRender];
                assert(r@ =~= seq![LifeAction::StopCapture, LifeAction::PauseRender]);
                r
            },
            LifeEvent::Wake => {
                self.sleeping = false;
                let r = vec![LifeAction::EnumerateDisplays, LifeAction::CheckPermission];
                assert(r@ =~= seq![LifeAction::EnumerateDisplays, LifeAction::CheckPermission]);
                r
            },
        }
    }
}

/// What a second launch of the application brings to the front.
#[derive(Debug, Clone, Copy, PartialEq, Eq, Structural)]
pub enum InstanceAction {
    ShowMain,
    ShowPet,
}

/// A second launch shows the main window, then the pet; it never opens more.
pub fn second_launch_actions() -> (r: [InstanceAction; 2])
    ensures
        r@ == seq![InstanceAction::ShowMain, InstanceAction::ShowPet],
{
    let r = [InstanceAction::ShowMain, InstanceAction::ShowPet];
    assert(r@ =~= seq![InstanceAction::ShowMain, InstanceAction::ShowPet]);
    r
}

/// Counts of second-launch requests and of those already served, so that a
/// request arriving while the runtime starts is served later, not lost.
#[derive(Debug, Default)]
pub struct InstanceRecall {
    requested: u64,
    completed: u64,
}

impl InstanceRecall {
    pub closed spec fn requested(&self) -> u64 {
        self.requested
    }

    pub closed spec fn completed(&self) -> u64 {
        self.completed
    }

    pub fn new() -> (r: Self)
        ensures
            r.requested() == 0,
            r.completed() == 0,
    {
        InstanceRecall { requested: 0, completed: 0 }
    }

    /// Records one more request and returns its number.
    pub fn request(&mut self) -> (r: u64)
        requires
            old(self).requested() < u64::MAX,
        ensures
            r == old(self).requested() + 1,
            final(self).requested() == r,
            final(self).completed() == old(self).completed(),
    {
        self.requested = self.requested + 1;
        self.requested
    }

    /// The newest request, while any request is not yet served.
    pub fn pending_request(&self) -> (r: Option<u64>)
        ensures
            r == (if self.requested() > self.completed() {
                Some(self.requested())
            } else {
                None::<u64>
            }),
    {
        if self.requested > self.completed {
            Some(self.requested)
        } else {
            None
        }
    }

    /// Marks every request up to `request` served; an older mark never undoes a newer one.
    pub fn mark_completed(&mut self, request: u64)
        ensures
            final(self).requested() == old(self).requested(),
            final(self).completed() == (if request > old(self).completed() {
                request
            } else {
                old(self).completed()
            }),
    {
        if request > self.completed {
            self.completed = request;
        }
    }
}

/// A native event that bears on the runtime's status.
#[derive(Debug, Clone, Copy, PartialEq, Eq, Structural)]
pub enum NativeStatusEvent {
    PermissionChanged(NativeCaptureState),
    CaptureFailed,
    RendererUnavailable,
    RendererReady,
    PresentationUnavailable,
    PresentationReady,
}

/// The parts of the runtime's state that its status is computed from.
#[derive(Debug, Clone, Copy, PartialEq, Eq, Structural)]
pub struct RuntimeStatus {
    pub mode: PetMode,
    pub capture_state: NativeCaptureState,
    pub renderer_state: NativeRendererState,
    pub presentation_unavailable: bool,
}

/// The state after a status event, and whether it changed.
pub open spec fn reduce_status_spec(s: RuntimeStatus, e: NativeStatusEvent) -> (RuntimeStatus, bool) {
    match e {
        NativeStatusEvent::PermissionChanged(c) => (RuntimeStatus { capture_state: c, ..s }, true),
        NativeStatusEvent::CaptureFailed => (
            RuntimeStatus { capture_state: NativeCaptureState::Failed, ..s },
            true,
        ),
        NativeStatusEvent::RendererUnavailable => if s.renderer_state
            == NativeRendererState::Unavailable {
            (s, false)
        } else {
            (RuntimeStatus { renderer_state: NativeRendererState::Unavailable, ..s }, true)
        },
        NativeStatusEvent::RendererReady => if s.renderer_state == NativeRendererState::Ready {
            (s, false)
        } else {
            (RuntimeStatus { renderer_state: NativeRendererState::Ready, ..s }, true)
        },
        NativeStatusEvent::PresentationUnavailable => if s.presentation_unavailable {
            (s, false)
        } else {
            (RuntimeStatus { presentation_unavailable: true, ..s }, true)
        },
        NativeStatusEvent::PresentationReady => if !s.presentation_unavailable {
            (s, false)
        } else {
            (RuntimeStatus { presentation_unavailable: false, ..s }, true)
        },
    }
}

impl RuntimeStatus {
    /// The status the runtime reports. Where the platform has no native pet,
    /// Real falls back to Lite with the reason `platform_unsupported`.
    pub fn status(&self, platform_supported: bool, graphics: NativeGraphics) -> (r: PetStatus)
        ensures
            self.mode == PetMode::Lite ==> status_view(r) == (
                PetMode::Lite,
                CapturePermission::Unavailable,
                None::<Seq<char>>,
            ),
            self.mode == PetMode::Real && !platform_supported ==> status_view(r) == (
                PetMode::Lite,
                CapturePermission::Unavailable,
                Some("platform_unsupported"@),
            ),
            self.mode == PetMode::Real && platform_supported ==> status_view(r)
                == capture_status_spec(
                self.mode,
                self.capture_state,
                self.renderer_state,
                self.presentation_unavailable,
                graphics,
            ),
    {
        if self.mode == PetMode::Lite {
            return PetStatus {
                effective_mode: PetMode::Lite,
                permission: CapturePermission::Unavailable,
                fallback_reason: None,
            };
        }
        if !platform_supported {
            return PetStatus {
                effective_mode: PetMode::Lite,
                permission: CapturePermission::Unavailable,
                fallback_reason: Some("platform_unsupported".to_owned()),
            };
        }
        capture_status(
            self.mode,
            self.capture_state,
            self.renderer_state,
            self.presentation_unavailable,
            graphics,
        )
    }

    /// Applies a status event; the result says whether anything changed.
    /// Events that repeat the current renderer or presentation state change nothing.
    pub fn reduce_native_status(&mut self, event: NativeStatusEvent) -> (changed: bool)
        ensures
            (*final(self), changed) == reduce_status_spec(*old(self), event),
    {
        match event {
            NativeStatusEvent::PermissionChanged(capture_state) => {
                self.capture_state = capture_state;
                true
            },
            NativeStatusEvent::CaptureFailed => {
                self.capture_state = NativeCaptureState::Failed;
                true
            },
            NativeStatusEvent::RendererUnavailable => {
                if self.renderer_state == NativeRendererState::Unavailable {
                    return false;
                }
                self.renderer_state = NativeRendererState::Unavailable;
                true
            },
            NativeStatusEvent::RendererReady => {
                if self.renderer_state == NativeRendererState::Ready {
                    return false;
                }
                self.renderer_state = NativeRendererState::Ready;
                true
            },
            NativeStatusEvent::PresentationUnavailable => {
                if self.presentation_unavailable {
                    return false;
                }
                self.presentation_unavailable = true;
                true
            },
            NativeStatusEvent::PresentationReady => {
                if !self.presentation_unavailable {
                    return false;
                }
                self.presentation_unavailable = false;
                true
            },
        }
    }
}

/// Whether a changed status is pushed to the native side again: presentation
/// changes are not, since the native side made them itself.
pub fn native_status_requires_apply(event: NativeStatusEvent) -> (r: bool)
    ensures
        r == !(event == NativeStatusEvent::PresentationUnavailable || event
            == NativeStatusEvent::PresentationReady),
{
    match event {
        NativeStatusEvent::PresentationUnavailable | NativeStatusEvent::PresentationReady => false,
        _ => true,
    }
}

impl RuntimeStatus {
    /// Handles a status event from the native side: the status takes it in,
    /// and the native pet is reconfigured only when something changed and
    /// the event is not a presentation change.
    pub fn handle_status_event(&mut self, event: NativeStatusEvent) -> (reconfigure: bool)
        ensures
            *final(self) == reduce_status_spec(*old(self), event).0,
            reconfigure == (reduce_status_spec(*old(self), event).1 && !(event
                == NativeStatusEvent::PresentationUnavailable || event
                == NativeStatusEvent::PresentationReady)),
    {
        let changed = self.reduce_native_status(event);
        changed && native_status_requires_apply(event)
    }
}

/// A repeated status event changes nothing the second time.
pub proof fn lemma_status_event_idempotent(s: RuntimeStatus, e: NativeStatusEvent)
    ensures
        reduce_status_spec(reduce_status_spec(s, e).0, e).0 == reduce_status_spec(s, e).0,
        e != NativeStatusEvent::CaptureFailed && !(e is PermissionChanged) ==> !reduce_status_spec(
            reduce_status_spec(s, e).0,
            e,
        ).1,
{
}

/// The capture state decoded from a permission-changed payload.
pub fn permission_payload(payload: &str) -> (r: Option<NativeCaptureState>)
    ensures
        r == (if payload@ == "unavailable"@ {
            Some(NativeCaptureState::Unavailable)
        } else if payload@ == "not_determined"@ {
            Some(NativeCaptureState::NotDetermined)
        } else if payload@ == "denied"@ {
            Some(NativeCaptureState::Denied)
        } else if payload@ == "restart_required"@ {
            Some(NativeCaptureState::RestartRequired)
        } else if payload@ == "ready"@ {
            Some(NativeCaptureState::Ready)
        } else if payload@ == "failed"@ {
            Some(NativeCaptureState::Failed)
        } else {
            None
        }),
{
    if str_eq(payload, "unavailable") {
        Some(NativeCaptureState::Unavailable)
    } else if str_eq(payload, "not_determined") {
        Some(NativeCaptureState::NotDetermined)
    } else if str_eq(payload, "denied") {
        Some(NativeCaptureState::Denied)
    } else if str_eq(payload, "restart_required") {
        Some(NativeCaptureState::RestartRequired)
    } else if str_eq(payload, "ready") {
        Some(NativeCaptureState::Ready)
    } else if str_eq(payload, "failed") {
        Some(NativeCaptureState::Failed)
    } else {
        None
    }
}

/// The status event a capture-failed callback stands for: renderer and
/// presentation reports by their payloads, else a capture failure.
pub fn capture_failed_payload(payload: Option<&str>) -> (r: NativeStatusEvent)
    ensures
        r == (match payload {
            Some(p) => if p@ == "metal_unavailable"@ || p@ == "renderer_unavailable"@ {
                NativeStatusEvent::RendererUnavailable
            } else if p@ == "renderer_ready"@ {
                NativeStatusEvent::RendererReady
            } else if p@ == "presentation_unavailable"@ {
                NativeStatusEvent::PresentationUnavailable
            } else if p@ == "presentation_ready"@ {
                NativeStatusEvent::PresentationReady
            } else {
                NativeStatusEvent::CaptureFailed
            },
            None => NativeStatusEvent::CaptureFailed,
        }),
{
    match payload {
        Some(p) => {
            if str_eq(p, "metal_unavailable") || str_eq(p, "renderer_unavailable") {
                NativeStatusEvent::RendererUnavailable
            } else if str_eq(p, "renderer_ready") {
                NativeStatusEvent::RendererReady
            } else if str_eq(p, "presentation_unavailable") {
                NativeStatusEvent::PresentationUnavailable
            } else if str_eq(p, "presentation_ready") {
                NativeStatusEvent::PresentationReady
            } else {
                NativeStatusEvent::CaptureFailed
            }
        },
        None => NativeStatusEvent::CaptureFailed,
    }
}

/// The pending count a settlement announces: only when it settled something
/// and the number of pending jobs fell.
pub fn pending_transition(before: u32, after: u32, settlement_changed: bool) -> (r: Option<u32>)
    ensures
        r == (if settlement_changed && after < before {
            Some(after)
        } else {
            None::<u32>
        }),
{
    if settlement_changed && after < before {
        Some(after)
    } else {
        None
    }
}

} // verus!
