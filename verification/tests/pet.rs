use cylune::error::AppError;
use cylune::pet::input::{first_supported_drop, is_supported_print_path, DropFile};
use cylune::pet::native::{
    abi_version, fps_value, mode_value, target_fps, visual_style_value, NativeCaptureState,
    NativeDropResult, NativePet, NativeRendererState, NativeShutdownState, PetActivity,
    PetCallbackKind, ABI_VERSION, FPS_30, FPS_60, FPS_AUTO, MODE_LITE, MODE_REAL,
};
use cylune::pet::runtime::{
    capture_failed_payload, capture_status, NativeGraphics, native_status_requires_apply, pending_transition,
    permission_payload, second_launch_actions, CaptureEvent, CaptureState, InstanceAction,
    InstanceRecall, LifeAction, LifeEvent, LifeState, NativeStatusEvent, RuntimeStatus,
};
use cylune::pet::store::{
    fps_name, mode_name, parse_display_id, parse_fps, parse_mode, parse_size, parse_visible,
    parse_visual_style, visual_style_name, DEFAULT_SIZE, MAX_SIZE, MIN_SIZE,
};
use cylune::pet::{
    apply_choices, PetChoices, PetChoicesPatch, effective_visibility, enabled, should_request_permission, CapturePermission, PetFps, PetMode,
    PetVisualStyle,
};

#[test]
fn drop_selection_is_pure_and_uses_only_the_first_supported_regular_file() {
    let files = vec![
        DropFile::new("/tmp/readme.txt", true),
        DropFile::new("/tmp/folder.3mf", false),
        DropFile::new("relative.gcode", true),
        DropFile::new("/tmp/plate.gcode.3mf", true),
        DropFile::new("/tmp/second.3mf", true),
    ];

    assert_eq!(first_supported_drop(&files), Some("/tmp/plate.gcode.3mf"));
}

#[test]
fn drop_without_a_supported_file_selects_nothing() {
    let files = vec![
        DropFile::new("/tmp/readme.txt", true),
        DropFile::new("relative.3mf", true),
        DropFile::new("/tmp/folder.gcode", false),
    ];
    assert_eq!(first_supported_drop(&files), None);
    assert_eq!(first_supported_drop(&[]), None);
}

#[test]
fn supported_print_paths_are_gcode_and_3mf_in_any_case() {
    assert!(is_supported_print_path("/tmp/a.gcode"));
    assert!(is_supported_print_path("/tmp/a.GCODE"));
    assert!(is_supported_print_path("/tmp/a.3MF"));
    assert!(!is_supported_print_path("/tmp/a.stl"));
    assert!(!is_supported_print_path("/tmp/gcode"));
}

#[test]
fn callback_kinds_decode_only_stable_events() {
    for value in 1..=10 {
        assert!(PetCallbackKind::try_from(value).is_ok());
    }
    assert!(PetCallbackKind::try_from(0).is_err());
    assert!(PetCallbackKind::try_from(11).is_err());
}

#[test]
fn callback_kinds_round_trip_through_their_values() {
    for value in 1..=10 {
        assert_eq!(PetCallbackKind::try_from(value).unwrap().value(), value);
    }
}

#[test]
fn automatic_and_fixed_frame_rates_remain_stable() {
    assert_eq!(target_fps(PetFps::Auto, PetActivity::Idle), 30);
    assert_eq!(target_fps(PetFps::Auto, PetActivity::DropHover), 60);
    assert_eq!(target_fps(PetFps::Fps30, PetActivity::Signal), 30);
    assert_eq!(target_fps(PetFps::Fps60, PetActivity::Hidden), 0);
}

#[test]
fn native_codes_are_stable() {
    assert_eq!(abi_version(), ABI_VERSION);
    assert_eq!(mode_value(PetMode::Real), MODE_REAL);
    assert_eq!(mode_value(PetMode::Lite), MODE_LITE);
    assert_eq!(fps_value(PetFps::Auto), FPS_AUTO);
    assert_eq!(fps_value(PetFps::Fps30), FPS_30);
    assert_eq!(fps_value(PetFps::Fps60), FPS_60);
    assert_eq!(visual_style_value(PetVisualStyle::Gargantua), 0);
    assert_eq!(visual_style_value(PetVisualStyle::Fusion), 1);
    assert_eq!(NativeDropResult::Accepted.value(), 1);
    assert_eq!(NativeShutdownState::Complete.code(), "complete");
}

#[test]
fn native_states_decode_known_values_only() {
    assert_eq!(NativeCaptureState::try_from(4), Ok(NativeCaptureState::Ready));
    assert_eq!(NativeCaptureState::try_from(5), Ok(NativeCaptureState::Failed));
    assert!(NativeCaptureState::try_from(99).is_err());
    assert_eq!(NativeRendererState::try_from(0), Ok(NativeRendererState::Unavailable));
    assert!(NativeRendererState::try_from(7).is_err());
    assert!(NativeShutdownState::try_from(9).is_err());
}

#[test]
fn inert_native_pet_shuts_down_completely() {
    let pet = NativePet::new().expect("native handle");
    pet.show();
    pet.hide_pet();
    assert_eq!(pet.shutdown(), NativeShutdownState::Complete);
}

#[test]
fn second_instance_only_recalls_existing_windows() {
    assert_eq!(
        second_launch_actions(),
        [InstanceAction::ShowMain, InstanceAction::ShowPet]
    );
}

#[test]
fn rapid_recall_during_runtime_setup_is_not_lost() {
    let mut recall = InstanceRecall::default();

    let first = recall.request();
    let second = recall.request();
    recall.mark_completed(first);

    assert_eq!(recall.pending_request(), Some(second));
    recall.mark_completed(second);
    assert_eq!(recall.pending_request(), None);
}

#[test]
fn completing_an_older_recall_never_hides_a_newer_one() {
    let mut recall = InstanceRecall::new();
    let first = recall.request();
    let second = recall.request();
    recall.mark_completed(second);
    recall.mark_completed(first);
    assert_eq!(recall.pending_request(), None);
    let third = recall.request();
    assert_eq!(recall.pending_request(), Some(third));
}

#[test]
fn every_unavailable_capture_state_uses_lite_without_changing_requested_mode() {
    for (event, permission, reason) in [
        (
            CaptureEvent::NotDetermined,
            CapturePermission::NotDetermined,
            "permission_not_determined",
        ),
        (
            CaptureEvent::Denied,
            CapturePermission::Denied,
            "permission_denied",
        ),
        (
            CaptureEvent::RestartRequired,
            CapturePermission::RestartRequired,
            "permission_restart_required",
        ),
        (
            CaptureEvent::Unavailable,
            CapturePermission::Unavailable,
            "capture_unavailable",
        ),
    ] {
        let status = CaptureState::Requested.reduce(event);
        assert_eq!(status.effective_mode, PetMode::Lite);
        assert_eq!(status.permission, permission);
        assert_eq!(status.fallback_reason.as_deref(), Some(reason));
        assert!(status.pet_visible);
    }
}

#[test]
fn ready_capture_grants_real_mode() {
    let status = capture_status(
        PetMode::Real,
        NativeCaptureState::Ready,
        NativeRendererState::Ready,
        false,
        NativeGraphics::Metal,
    );
    assert_eq!(status.effective_mode, PetMode::Real);
    assert_eq!(status.permission, CapturePermission::Granted);
    assert_eq!(status.fallback_reason, None);
}

#[test]
fn ready_capture_without_metal_keeps_the_visible_lite_fallback() {
    let status = capture_status(
        PetMode::Real,
        NativeCaptureState::Ready,
        NativeRendererState::Unavailable,
        true,
        NativeGraphics::Metal,
    );

    assert_eq!(status.effective_mode, PetMode::Lite);
    assert_eq!(status.permission, CapturePermission::Granted);
    assert_eq!(status.fallback_reason.as_deref(), Some("metal_unavailable"));
}

#[test]
fn hiding_and_sleeping_stop_capture_and_rendering() {
    let mut life = LifeState::active_real();
    assert_eq!(
        life.reduce(LifeEvent::Hidden),
        vec![LifeAction::StopCapture, LifeAction::PauseRender]
    );

    let mut life = LifeState::active_real();
    assert_eq!(
        life.reduce(LifeEvent::Sleep),
        vec![LifeAction::StopCapture, LifeAction::PauseRender]
    );
}

#[test]
fn wake_reenumerates_displays_before_rechecking_permission() {
    let mut life = LifeState::sleeping_real();

    assert_eq!(
        life.reduce(LifeEvent::Wake),
        vec![LifeAction::EnumerateDisplays, LifeAction::CheckPermission]
    );
}

#[test]
fn permission_payloads_name_capture_states() {
    assert_eq!(permission_payload("denied"), Some(NativeCaptureState::Denied));
    assert_eq!(permission_payload("ready"), Some(NativeCaptureState::Ready));
    assert_eq!(permission_payload("maybe"), None);
}

#[test]
fn native_status_is_applied_once() {
    let mut status = RuntimeStatus {
        mode: PetMode::Real,
        capture_state: NativeCaptureState::Ready,
        renderer_state: NativeRendererState::Ready,
        presentation_unavailable: false,
    };
    let event = capture_failed_payload(Some("metal_unavailable"));
    assert_eq!(event, NativeStatusEvent::RendererUnavailable);
    let first = status.reduce_native_status(event);
    let second = status.reduce_native_status(event);
    assert!(first);
    assert!(!second);
    let shown = status.status(true, NativeGraphics::Metal);
    assert_eq!(shown.effective_mode, PetMode::Lite);
    assert_eq!(shown.fallback_reason.as_deref(), Some("metal_unavailable"));
    assert!(native_status_requires_apply(NativeStatusEvent::RendererReady));
}

#[test]
fn pending_count_changes_signal_only_on_a_new_settlement() {
    assert_eq!(pending_transition(2, 1, true), Some(1));
    assert_eq!(pending_transition(2, 1, false), None);
    assert_eq!(pending_transition(2, 2, true), None);
}

#[test]
fn pet_size_accepts_the_expanded_range_and_rejects_outside_values() {
    assert!(parse_size(Some("120".to_owned())).is_ok());
    assert!(parse_size(Some("360".to_owned())).is_ok());
    assert!(parse_size(Some("600".to_owned())).is_ok());
    assert!(parse_size(Some("900".to_owned())).is_ok());
    assert!(parse_size(Some("119".to_owned())).is_err());
    assert!(parse_size(Some("901".to_owned())).is_err());
}

#[test]
fn pet_size_defaults_and_rejects_text() {
    assert_eq!(parse_size(None).unwrap(), DEFAULT_SIZE);
    assert_eq!(parse_size(Some("360".to_owned())).unwrap(), 360);
    assert_eq!(MIN_SIZE, 120);
    assert_eq!(MAX_SIZE, 900);
    assert!(matches!(
        parse_size(Some("big".to_owned())),
        Err(AppError::InvalidPetSettings)
    ));
}

#[test]
fn pet_visual_style_round_trips_and_defaults_to_gargantua() {
    assert_eq!(parse_visual_style(None).unwrap(), PetVisualStyle::Gargantua);
    assert_eq!(
        parse_visual_style(Some("fusion".to_owned())).unwrap(),
        PetVisualStyle::Fusion
    );
    assert!(parse_visual_style(Some("inferno".to_owned())).is_err());
}

#[test]
fn stored_names_read_back_as_the_same_values() {
    for mode in [PetMode::Real, PetMode::Lite] {
        assert_eq!(parse_mode(Some(mode_name(mode).to_owned())).unwrap(), mode);
    }
    for style in [PetVisualStyle::Gargantua, PetVisualStyle::Fusion] {
        assert_eq!(
            parse_visual_style(Some(visual_style_name(style).to_owned())).unwrap(),
            style
        );
    }
    for fps in [PetFps::Auto, PetFps::Fps30, PetFps::Fps60] {
        assert_eq!(parse_fps(Some(fps_name(fps).to_owned())).unwrap(), fps);
    }
}

#[test]
fn visibility_and_display_settings_parse() {
    assert_eq!(parse_visible(Some("false".to_owned()), PetMode::Real).unwrap(), false);
    assert!(parse_visible(Some("maybe".to_owned()), PetMode::Real).is_err());
    assert_eq!(parse_display_id(Some("73".to_owned())).unwrap(), Some(73));
    assert_eq!(parse_display_id(None).unwrap(), None);
    assert!(parse_display_id(Some("x".to_owned())).is_err());
}

#[test]
fn lite_requested_mode_is_never_effectively_visible() {
    assert!(!enabled(PetMode::Lite));
    assert!(!effective_visibility(PetMode::Lite, true));
}

#[test]
fn real_requested_mode_preserves_the_users_hidden_choice() {
    assert!(enabled(PetMode::Real));
    assert!(!effective_visibility(PetMode::Real, false));
    assert!(effective_visibility(PetMode::Real, true));
}

#[test]
fn only_an_explicit_turn_on_patch_requests_permission() {
    assert!(should_request_permission(Some(PetMode::Real)));
    assert!(!should_request_permission(Some(PetMode::Lite)));
    assert!(!should_request_permission(None));
}

#[test]
fn status_events_reconfigure_once_and_never_for_presentation() {
    let mut status = RuntimeStatus {
        mode: PetMode::Real,
        capture_state: NativeCaptureState::Ready,
        renderer_state: NativeRendererState::Ready,
        presentation_unavailable: false,
    };
    assert!(status.handle_status_event(NativeStatusEvent::RendererUnavailable));
    assert!(!status.handle_status_event(NativeStatusEvent::RendererUnavailable));
    assert!(!status.handle_status_event(NativeStatusEvent::PresentationUnavailable));
    assert!(status.presentation_unavailable);
    assert!(status.handle_status_event(NativeStatusEvent::PermissionChanged(
        NativeCaptureState::Denied
    )));
    assert_eq!(status.capture_state, NativeCaptureState::Denied);
}

#[test]
fn a_missing_renderer_is_named_after_the_graphics_interface() {
    let status = capture_status(
        PetMode::Real,
        NativeCaptureState::Ready,
        NativeRendererState::Unavailable,
        false,
        NativeGraphics::Direct3d,
    );
    assert_eq!(status.effective_mode, PetMode::Lite);
    assert_eq!(status.fallback_reason.as_deref(), Some("direct3d_unavailable"));
}

fn choices() -> PetChoices {
    PetChoices {
        mode: PetMode::Real,
        visual_style: PetVisualStyle::Gargantua,
        size: 220,
        fps: PetFps::Auto,
        visible: true,
        has_x: true,
        has_y: true,
        display_id: Some(3),
    }
}

fn no_change() -> PetChoicesPatch {
    PetChoicesPatch {
        mode: None,
        visual_style: None,
        size: None,
        fps: None,
        visible: None,
        x_given: false,
        y_given: false,
        display_id: None,
        reset_position: None,
    }
}

#[test]
fn a_patch_replaces_only_the_fields_it_gives() {
    let mut patch = no_change();
    patch.mode = Some(PetMode::Lite);
    patch.size = Some(300);
    let next = apply_choices(choices(), patch).unwrap();
    assert_eq!(next.mode, PetMode::Lite);
    assert_eq!(next.size, 300);
    assert_eq!(next.fps, PetFps::Auto);
    assert_eq!(next.display_id, Some(3));
}

#[test]
fn a_position_reset_clears_the_whole_position() {
    let mut patch = no_change();
    patch.reset_position = Some(true);
    patch.x_given = true;
    patch.display_id = Some(9);
    let next = apply_choices(choices(), patch).unwrap();
    assert!(!next.has_x && !next.has_y);
    assert_eq!(next.display_id, None);
}

#[test]
fn out_of_range_sizes_and_partial_positions_are_refused() {
    let mut patch = no_change();
    patch.size = Some(119);
    assert_eq!(apply_choices(choices(), patch), Err(AppError::InvalidPetSettings));
    let mut empty = choices();
    empty.has_x = false;
    empty.has_y = false;
    empty.display_id = None;
    let mut partial = no_change();
    partial.x_given = true;
    assert_eq!(apply_choices(empty, partial), Err(AppError::InvalidPetSettings));
    partial.y_given = true;
    partial.display_id = Some(1);
    assert!(apply_choices(empty, partial).is_ok());
}
