use mesh_viewer::i18n::TextKey;
use mesh_viewer::input::{PointerEffect, PointerEvent, PointerState, DOUBLE_CLICK_NANOS};
use mesh_viewer::ui::{title_change, MenuEvent, UiAction, UiResponse};

#[test]
fn buttons_close_the_menu_settings_are_saved() {
    let mut r = UiResponse::default();
    assert_eq!(r.actions(false), vec![]);
    r.record(MenuEvent::LoadClicked);
    assert!(r.open_file_dialog && r.close_menu_requested);
    assert!(!r.config_changed);
    r.record(MenuEvent::GridSizeChanged);
    assert!(r.config_changed && r.grid_rebuild);
    r.record(MenuEvent::ResetDefaultsClicked);
    assert!(r.reset_defaults_requested);
    assert_eq!(
        r.actions(true),
        vec![UiAction::OpenFileDialog, UiAction::ResetDefaults, UiAction::SaveConfig, UiAction::RebuildGridAndAxes]
    );
}

#[test]
fn every_setting_marks_the_config() {
    let settings = [
        MenuEvent::ShowGridToggled,
        MenuEvent::GridSizeChanged,
        MenuEvent::GridDivisionsChanged,
        MenuEvent::GridColorChanged,
        MenuEvent::ModelPositionChanged,
        MenuEvent::AxisToggled,
        MenuEvent::AxisDirectionToggled,
        MenuEvent::BackgroundChanged,
        MenuEvent::ObjectColorChanged,
        MenuEvent::MaterialModeChanged,
        MenuEvent::DummyBoxToggled,
        MenuEvent::ScaleChanged,
        MenuEvent::SmoothOrbitToggled,
        MenuEvent::InvertZoomToggled,
        MenuEvent::ZoomSpeedChanged,
    ];
    for e in settings {
        let mut r = UiResponse::default();
        r.record(e);
        assert!(r.config_changed, "{:?}", e);
        assert!(!r.close_menu_requested, "{:?}", e);
    }
    let mut r = UiResponse::default();
    r.record(MenuEvent::ClickedOutside);
    assert_eq!(r, UiResponse { close_menu_requested: true, ..UiResponse::default() });
    let mut r = UiResponse::default();
    r.record(MenuEvent::ExitClicked);
    assert_eq!(r.actions(false), vec![UiAction::CloseApp]);
}

#[test]
fn colour_change_rebuilds_only_a_shown_model() {
    let mut r = UiResponse::default();
    r.record(MenuEvent::ObjectColorChanged);
    assert_eq!(r.actions(true), vec![UiAction::SaveConfig, UiAction::RebuildModel]);
    assert_eq!(r.actions(false), vec![UiAction::SaveConfig, UiAction::ApplyObjectColor]);
    r.record(MenuEvent::UnloadClicked);
    assert_eq!(
        r.actions(true),
        vec![UiAction::UnloadModel, UiAction::SaveConfig, UiAction::ApplyObjectColor]
    );
}

#[test]
fn transform_and_dummy_box_steps() {
    let mut r = UiResponse::default();
    r.record(MenuEvent::ModelPositionChanged);
    assert_eq!(
        r.actions(false),
        vec![UiAction::SaveConfig, UiAction::UpdateTransform { scale_changed: false }]
    );
    r.record(MenuEvent::ScaleChanged);
    r.record(MenuEvent::DummyBoxToggled);
    r.record(MenuEvent::InvertZoomToggled);
    assert_eq!(
        r.actions(false),
        vec![
            UiAction::SaveConfig,
            UiAction::UpdateTransform { scale_changed: true },
            UiAction::ApplyControls,
            UiAction::RefreshDummyBox
        ]
    );
    assert_eq!(
        r.actions(true),
        vec![UiAction::SaveConfig, UiAction::UpdateTransform { scale_changed: true }, UiAction::ApplyControls]
    );
}

#[test]
fn every_request_has_its_step() {
    let all = UiResponse {
        open_file_dialog: true,
        unload_model_requested: true,
        reset_camera_requested: true,
        reset_defaults_requested: true,
        close_app_requested: true,
        open_about_requested: true,
        config_changed: true,
        bg_changed: true,
        obj_color_changed: true,
        materials_changed: true,
        scale_changed: true,
        position_changed: true,
        grid_rebuild: true,
        axes_rebuild: true,
        controls_changed: true,
        dummy_box_changed: true,
        close_menu_requested: true,
    };
    assert_eq!(
        all.actions(true),
        vec![
            UiAction::OpenFileDialog,
            UiAction::UnloadModel,
            UiAction::ResetCamera,
            UiAction::ResetDefaults,
            UiAction::CloseApp,
            UiAction::OpenAbout,
            UiAction::SaveConfig,
            UiAction::ApplyBackground,
            UiAction::ApplyObjectColor,
            UiAction::UpdateTransform { scale_changed: true },
            UiAction::RebuildGridAndAxes,
            UiAction::ApplyControls,
            UiAction::RefreshDummyBox,
        ]
    );
}

#[test]
fn overlay_requests_survive_the_menu() {
    let mut overlay = UiResponse::default();
    overlay.record(MenuEvent::LoadClicked);
    let mut menu = UiResponse::default();
    menu.record(MenuEvent::BackgroundChanged);
    let merged = overlay.merge_menu(menu);
    assert!(merged.open_file_dialog && merged.close_menu_requested);
    assert!(merged.bg_changed && merged.config_changed);
    assert!(!merged.open_about_requested);
    let mut about = UiResponse::default();
    about.record(MenuEvent::AboutClicked);
    assert!(UiResponse::default().merge_menu(about).open_about_requested);
}

#[test]
fn window_title_follows_loading() {
    assert_eq!(title_change(true, false), Some(TextKey::WindowLoadingTitle));
    assert_eq!(title_change(false, true), Some(TextKey::WindowTitle));
    assert_eq!(title_change(true, true), None);
    assert_eq!(title_change(false, false), None);
}

#[test]
fn double_click_requests_a_file() {
    let mut s = PointerState::new();
    assert_eq!(s.handle(PointerEvent::CursorMoved), PointerEffect::Nothing);
    assert_eq!(s.handle(PointerEvent::PrimaryPressed { now: 1_000 }), PointerEffect::StopInertia);
    assert!(s.dragging);
    assert_eq!(s.handle(PointerEvent::CursorMoved), PointerEffect::Orbit);
    assert_eq!(s.handle(PointerEvent::PrimaryReleased), PointerEffect::Nothing);
    assert!(!s.dragging && !s.has_cursor);
    assert_eq!(s.handle(PointerEvent::CursorMoved), PointerEffect::Nothing);
    s.handle(PointerEvent::PrimaryPressed { now: 1_000 + DOUBLE_CLICK_NANOS });
    assert!(s.open_file_requested);
    assert_eq!(s.last_click, None);
}

#[test]
fn slow_clicks_are_single() {
    let mut s = PointerState::new();
    s.handle(PointerEvent::PrimaryPressed { now: 5 });
    s.handle(PointerEvent::PrimaryReleased);
    s.handle(PointerEvent::PrimaryPressed { now: 6 + DOUBLE_CLICK_NANOS });
    assert!(!s.open_file_requested);
    assert_eq!(s.last_click, Some(6 + DOUBLE_CLICK_NANOS));
    // a clock that went backwards counts as no time at all
    s.handle(PointerEvent::PrimaryReleased);
    s.handle(PointerEvent::PrimaryPressed { now: 0 });
    assert!(s.open_file_requested);
}

#[test]
fn menu_and_escape() {
    let mut s = PointerState::new();
    assert_eq!(s.handle(PointerEvent::SecondaryPressed), PointerEffect::Nothing);
    s.handle(PointerEvent::CursorMoved);
    assert_eq!(s.handle(PointerEvent::SecondaryPressed), PointerEffect::PlaceMenu);
    s.menu_open = true;
    let before = s;
    assert_eq!(s.handle(PointerEvent::PrimaryPressed { now: 10 }), PointerEffect::Nothing);
    assert_eq!(s, PointerState { menu_open: false, ..before });
    s.menu_open = true;
    s.handle(PointerEvent::EscapePressed);
    assert!(!s.menu_open && !s.should_close);
    s.handle(PointerEvent::EscapePressed);
    assert!(s.should_close);
    assert_eq!(s.handle(PointerEvent::Scrolled), PointerEffect::Zoom);
    assert_eq!(s.handle(PointerEvent::OtherKey), PointerEffect::Forward);
    assert_eq!(s.handle(PointerEvent::Other), PointerEffect::Forward);
    assert_eq!(s.handle(PointerEvent::OtherButton), PointerEffect::Nothing);
}
