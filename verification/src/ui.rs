//! What the interface asks of the viewer in one frame: the requests that
//! the context menu and the overlays raise, and the order in which the
//! viewer carries them out.

use vstd::prelude::*;

use crate::i18n::keys::TextKey;

verus! {

/// The requests raised during one frame of the interface.
#[derive(Clone, Copy, Debug, PartialEq, Eq, Structural)]
pub struct UiResponse {
    pub open_file_dialog: bool,
    pub unload_model_requested: bool,
    pub reset_camera_requested: bool,
    pub reset_defaults_requested: bool,
    pub close_app_requested: bool,
    pub open_about_requested: bool,
    pub config_changed: bool,
    pub bg_changed: bool,
    pub obj_color_changed: bool,
    pub materials_changed: bool,
    pub scale_changed: bool,
    pub position_changed: bool,
    pub grid_rebuild: bool,
    pub axes_rebuild: bool,
    pub controls_changed: bool,
    pub dummy_box_changed: bool,
    pub close_menu_requested: bool,
}

/// A use of a control of the context menu, or a click beside it.
#[derive(Clone, Copy, Debug, PartialEq, Eq, Structural)]
pub enum MenuEvent {
    LoadClicked,
    UnloadClicked,
    ShowGridToggled,
    GridSizeChanged,
    GridDivisionsChanged,
    GridColorChanged,
    ModelPositionChanged,
    AxisToggled,
    AxisDirectionToggled,
    BackgroundChanged,
    ObjectColorChanged,
    MaterialModeChanged,
    DummyBoxToggled,
    ScaleChanged,
    SmoothOrbitToggled,
    InvertZoomToggled,
    ZoomSpeedChanged,
    ResetCameraClicked,
    ResetDefaultsClicked,
    AboutClicked,
    ExitClicked,
    ClickedOutside,
}

/// One step that the viewer takes to carry out a response.
#[derive(Clone, Copy, Debug, PartialEq, Eq, Structural)]
pub enum UiAction {
    OpenFileDialog,
    UnloadModel,
    ResetCamera,
    ResetDefaults,
    CloseApp,
    OpenAbout,
    SaveConfig,
    ApplyBackground,
    RebuildModel,
    ApplyObjectColor,
    UpdateTransform { scale_changed: bool },
    RebuildGridAndAxes,
    ApplyControls,
    RefreshDummyBox,
}

/// No request.
pub open spec fn quiet() -> UiResponse {
    UiResponse {
        open_file_dialog: false,
        unload_model_requested: false,
        reset_camera_requested: false,
        reset_defaults_requested: false,
        close_app_requested: false,
        open_about_requested: false,
        config_changed: false,
        bg_changed: false,
        obj_color_changed: false,
        materials_changed: false,
        scale_changed: false,
        position_changed: false,
        grid_rebuild: false,
        axes_rebuild: false,
        controls_changed: false,
        dummy_box_changed: false,
        close_menu_requested: false,
    }
}

/// The response after the event: the requests that the event raises are
/// added to those already raised; none is ever withdrawn.
pub open spec fn after_event(r: UiResponse, e: MenuEvent) -> UiResponse {
    match e {
        MenuEvent::LoadClicked => UiResponse { open_file_dialog: true, close_menu_requested: true, ..r },
        MenuEvent::UnloadClicked => UiResponse {
            unload_model_requested: true,
            close_menu_requested: true,
            ..r
        },
        MenuEvent::ShowGridToggled | MenuEvent::GridSizeChanged | MenuEvent::GridDivisionsChanged
        | MenuEvent::GridColorChanged => UiResponse { config_changed: true, grid_rebuild: true, ..r },
        MenuEvent::ModelPositionChanged => UiResponse {
            config_changed: true,
            position_changed: true,
            ..r
        },
        MenuEvent::AxisToggled | MenuEvent::AxisDirectionToggled => UiResponse {
            config_changed: true,
            axes_rebuild: true,
            ..r
        },
        MenuEvent::BackgroundChanged => UiResponse { config_changed: true, bg_changed: true, ..r },
        MenuEvent::ObjectColorChanged => UiResponse {
            config_changed: true,
            obj_color_changed: true,
            ..r
        },
        MenuEvent::MaterialModeChanged => UiResponse {
            config_changed: true,
            materials_changed: true,
            ..r
        },
        MenuEvent::DummyBoxToggled => UiResponse {
            config_changed: true,
            dummy_box_changed: true,
            ..r
        },
        MenuEvent::ScaleChanged => UiResponse { config_changed: true, scale_changed: true, ..r },
        MenuEvent::SmoothOrbitToggled | MenuEvent::InvertZoomToggled | MenuEvent::ZoomSpeedChanged => {
            UiResponse { config_changed: true, controls_changed: true, ..r }
        },
        MenuEvent::ResetCameraClicked => UiResponse {
            reset_camera_requested: true,
            close_menu_requested: true,
            ..r
        },
        MenuEvent::ResetDefaultsClicked => UiResponse { reset_defaults_requested: true, ..r },
        MenuEvent::AboutClicked => UiResponse {
            open_about_requested: true,
            close_menu_requested: true,
            ..r
        },
        MenuEvent::ExitClicked => UiResponse { close_app_requested: true, ..r },
        MenuEvent::ClickedOutside => UiResponse { close_menu_requested: true, ..r },
    }
}

/// The steps for `flag`: `a` alone when it is raised, none otherwise.
#[verifier::opaque]
pub open spec fn step_if(flag: bool, a: UiAction) -> Seq<UiAction> {
    if flag {
        seq![a]
    } else {
        Seq::empty()
    }
}

/// The steps that carry out `r`, in order. Whether a model is shown is read
/// after an unload request has been carried out.
pub open spec fn planned_actions(r: UiResponse, has_model: bool) -> Seq<UiAction> {
    let shown = has_model && !r.unload_model_requested;
    step_if(r.open_file_dialog, UiAction::OpenFileDialog) + step_if(
        r.unload_model_requested,
        UiAction::UnloadModel,
    ) + step_if(r.reset_camera_requested, UiAction::ResetCamera) + step_if(
        r.reset_defaults_requested,
        UiAction::ResetDefaults,
    ) + step_if(r.close_app_requested, UiAction::CloseApp) + step_if(
        r.open_about_requested,
        UiAction::OpenAbout,
    ) + step_if(r.config_changed, UiAction::SaveConfig) + step_if(
        r.bg_changed,
        UiAction::ApplyBackground,
    ) + step_if(
        r.obj_color_changed || r.materials_changed,
        if shown {
            UiAction::RebuildModel
        } else {
            UiAction::ApplyObjectColor
        },
    ) + step_if(
        r.scale_changed || r.position_changed,
        UiAction::UpdateTransform { scale_changed: r.scale_changed },
    ) + step_if(r.grid_rebuild || r.axes_rebuild, UiAction::RebuildGridAndAxes) + step_if(
        r.controls_changed,
        UiAction::ApplyControls,
    ) + step_if(r.dummy_box_changed && !shown, UiAction::RefreshDummyBox)
}

fn push_if(v: &mut Vec<UiAction>, flag: bool, a: UiAction)
    ensures
        final(v)@ == old(v)@ + step_if(flag, a),
{
    reveal(step_if);
    if flag {
        v.push(a);
    } else {
        assert(old(v)@ + step_if(flag, a) =~= old(v)@);
    }
}

impl Default for UiResponse {
    /// No request.
    fn default() -> (res: Self)
        ensures
            res == quiet(),
    {
        UiResponse {
            open_file_dialog: false,
            unload_model_requested: false,
            reset_camera_requested: false,
            reset_defaults_requested: false,
            close_app_requested: false,
            open_about_requested: false,
            config_changed: false,
            bg_changed: false,
            obj_color_changed: false,
            materials_changed: false,
            scale_changed: false,
            position_changed: false,
            grid_rebuild: false,
            axes_rebuild: false,
            controls_changed: false,
            dummy_box_changed: false,
            close_menu_requested: false,
        }
    }
}

impl UiResponse {
    /// Adds the requests that a use of the context menu raises.
    pub fn record(&mut self, e: MenuEvent)
        ensures
            *final(self) == after_event(*old(self), e),
    {
        let r = *self;
        *self = match e {
            MenuEvent::LoadClicked => UiResponse { open_file_dialog: true, close_menu_requested: true, ..r },
            MenuEvent::UnloadClicked => UiResponse {
                unload_model_requested: true,
                close_menu_requested: true,
                ..r
            },
            MenuEvent::ShowGridToggled | MenuEvent::GridSizeChanged
            | MenuEvent::GridDivisionsChanged | MenuEvent::GridColorChanged => UiResponse {
                config_changed: true,
                grid_rebuild: true,
                ..r
            },
            MenuEvent::ModelPositionChanged => UiResponse {
                config_changed: true,
                position_changed: true,
                ..r
            },
            MenuEvent::AxisToggled | MenuEvent::AxisDirectionToggled => UiResponse {
                config_changed: true,
                axes_rebuild: true,
                ..r
            },
            MenuEvent::BackgroundChanged => UiResponse { config_changed: true, bg_changed: true, ..r },
            MenuEvent::ObjectColorChanged => UiResponse {
                config_changed: true,
                obj_color_changed: true,
                ..r
            },
            MenuEvent::MaterialModeChanged => UiResponse {
                config_changed: true,
                materials_changed: true,
                ..r
            },
            MenuEvent::DummyBoxToggled => UiResponse {
                config_changed: true,
                dummy_box_changed: true,
                ..r
            },
            MenuEvent::ScaleChanged => UiResponse { config_changed: true, scale_changed: true, ..r },
            MenuEvent::SmoothOrbitToggled | MenuEvent::InvertZoomToggled
            | MenuEvent::ZoomSpeedChanged => UiResponse {
                config_changed: true,
                controls_changed: true,
                ..r
            },
            MenuEvent::ResetCameraClicked => UiResponse {
                reset_camera_requested: true,
                close_menu_requested: true,
                ..r
            },
            MenuEvent::ResetDefaultsClicked => UiResponse { reset_defaults_requested: true, ..r },
            MenuEvent::AboutClicked => UiResponse {
                open_about_requested: true,
                close_menu_requested: true,
                ..r
            },
            MenuEvent::ExitClicked => UiResponse { close_app_requested: true, ..r },
            MenuEvent::ClickedOutside => UiResponse { close_menu_requested: true, ..r },
        };
    }

    /// The response of a frame in which the context menu was shown: the
    /// menu's requests, with the file dialog, the closing of the menu and
    /// the about dialog also asked for when the overlays asked for them.
    pub fn merge_menu(self, menu: UiResponse) -> (res: UiResponse)
        ensures
            res == (UiResponse {
                open_file_dialog: self.open_file_dialog || menu.open_file_dialog,
                close_menu_requested: self.close_menu_requested || menu.close_menu_requested,
                open_about_requested: self.open_about_requested || menu.open_about_requested,
                ..menu
            }),
    {
        let mut res = menu;
        res.open_file_dialog = self.open_file_dialog || menu.open_file_dialog;
        res.close_menu_requested = self.close_menu_requested || menu.close_menu_requested;
        res.open_about_requested = self.open_about_requested || menu.open_about_requested;
        res
    }

    /// The steps that carry out this response, in the order in which the
    /// viewer takes them, when a model is shown (`has_model`) or not.
    pub fn actions(&self, has_model: bool) -> (res: Vec<UiAction>)
        ensures
            res@ == planned_actions(*self, has_model),
    {
        let shown = has_model && !self.unload_model_requested;
        let mut v: Vec<UiAction> = Vec::new();
        push_if(&mut v, self.open_file_dialog, UiAction::OpenFileDialog);
        push_if(&mut v, self.unload_model_requested, UiAction::UnloadModel);
        push_if(&mut v, self.reset_camera_requested, UiAction::ResetCamera);
        push_if(&mut v, self.reset_defaults_requested, UiAction::ResetDefaults);
        push_if(&mut v, self.close_app_requested, UiAction::CloseApp);
        push_if(&mut v, self.open_about_requested, UiAction::OpenAbout);
        push_if(&mut v, self.config_changed, UiAction::SaveConfig);
        push_if(&mut v, self.bg_changed, UiAction::ApplyBackground);
        let color_step = if shown {
            UiAction::RebuildModel
        } else {
            UiAction::ApplyObjectColor
        };
        push_if(&mut v, self.obj_color_changed || self.materials_changed, color_step);
        push_if(
            &mut v,
            self.scale_changed || self.position_changed,
            UiAction::UpdateTransform { scale_changed: self.scale_changed },
        );
        push_if(&mut v, self.grid_rebuild || self.axes_rebuild, UiAction::RebuildGridAndAxes);
        push_if(&mut v, self.controls_changed, UiAction::ApplyControls);
        push_if(&mut v, self.dummy_box_changed && !shown, UiAction::RefreshDummyBox);
        v
    }
}

/// The title that the main window takes when the loading state changes:
/// the loading title when a load has begun, the plain one when it has
/// ended, nothing when the state is unchanged.
pub fn title_change(now_loading: bool, last_was_loading: bool) -> (res: Option<TextKey>)
    ensures
        res == if now_loading == last_was_loading {
            None
        } else if now_loading {
            Some(TextKey::WindowLoadingTitle)
        } else {
            Some(TextKey::WindowTitle)
        },
{
    if now_loading == last_was_loading {
        None
    } else if now_loading {
        Some(TextKey::WindowLoadingTitle)
    } else {
        Some(TextKey::WindowTitle)
    }
}

/// A recorded request stays recorded, whatever the menu does after.
pub proof fn lemma_requests_stay(r: UiResponse, e: MenuEvent)
    ensures
        r.open_file_dialog ==> after_event(r, e).open_file_dialog,
        r.unload_model_requested ==> after_event(r, e).unload_model_requested,
        r.config_changed ==> after_event(r, e).config_changed,
        r.close_menu_requested ==> after_event(r, e).close_menu_requested,
        r.close_app_requested ==> after_event(r, e).close_app_requested,
{
}

/// Loading, unloading, resetting the camera, the about dialog and a click
/// beside the menu close the menu; reset defaults and exit leave it, and no
/// setting closes it on its own.
pub proof fn lemma_buttons_close_menu(e: MenuEvent)
    ensures
        after_event(quiet(), e).close_menu_requested <==> (e is LoadClicked || e is UnloadClicked
            || e is ResetCameraClicked || e is AboutClicked || e is ClickedOutside),
{
}

/// Every change of a setting asks for the configuration to be saved; only
/// the buttons do not.
pub proof fn lemma_settings_are_saved(r: UiResponse, e: MenuEvent)
    ensures
        after_event(r, e).config_changed <==> (r.config_changed || !(e is LoadClicked
            || e is UnloadClicked || e is ResetCameraClicked || e is ResetDefaultsClicked
            || e is AboutClicked || e is ExitClicked || e is ClickedOutside)),
{
}

proof fn lemma_concat_without(s1: Seq<UiAction>, s2: Seq<UiAction>, x: UiAction)
    requires
        !s1.contains(x),
        !s2.contains(x),
    ensures
        !(s1 + s2).contains(x),
{
    assert forall|i: int| 0 <= i < (s1 + s2).len() implies (s1 + s2)[i] != x by {
        if i < s1.len() {
            assert((s1 + s2)[i] == s1[i]);
        } else {
            assert((s1 + s2)[i] == s2[i - s1.len()]);
        }
    }
}

proof fn lemma_step_without(flag: bool, a: UiAction, x: UiAction)
    requires
        !flag || a != x,
    ensures
        !step_if(flag, a).contains(x),
{
    reveal(step_if);
    if flag {
        assert(step_if(flag, a)[0] == a);
    }
}

/// After an unload request the model is not rebuilt in the same frame.
pub proof fn lemma_unload_then_no_rebuild(r: UiResponse, has_model: bool)
    requires
        r.unload_model_requested,
    ensures
        !planned_actions(r, has_model).contains(UiAction::RebuildModel),
{
    let x = UiAction::RebuildModel;
    let shown = has_model && !r.unload_model_requested;
    let color_step = if shown {
        UiAction::RebuildModel
    } else {
        UiAction::ApplyObjectColor
    };
    let p0 = step_if(r.open_file_dialog, UiAction::OpenFileDialog);
    let p1 = step_if(r.unload_model_requested, UiAction::UnloadModel);
    let p2 = step_if(r.reset_camera_requested, UiAction::ResetCamera);
    let p3 = step_if(r.reset_defaults_requested, UiAction::ResetDefaults);
    let p4 = step_if(r.close_app_requested, UiAction::CloseApp);
    let p5 = step_if(r.open_about_requested, UiAction::OpenAbout);
    let p6 = step_if(r.config_changed, UiAction::SaveConfig);
    let p7 = step_if(r.bg_changed, UiAction::ApplyBackground);
    let p8 = step_if(r.obj_color_changed || r.materials_changed, color_step);
    let p9 = step_if(
        r.scale_changed || r.position_changed,
        UiAction::UpdateTransform { scale_changed: r.scale_changed },
    );
    let p10 = step_if(r.grid_rebuild || r.axes_rebuild, UiAction::RebuildGridAndAxes);
    let p11 = step_if(r.controls_changed, UiAction::ApplyControls);
    let p12 = step_if(r.dummy_box_changed && !shown, UiAction::RefreshDummyBox);
    lemma_step_without(r.open_file_dialog, UiAction::OpenFileDialog, x);
    lemma_step_without(r.unload_model_requested, UiAction::UnloadModel, x);
    lemma_step_without(r.reset_camera_requested, UiAction::ResetCamera, x);
    lemma_step_without(r.reset_defaults_requested, UiAction::ResetDefaults, x);
    lemma_step_without(r.close_app_requested, UiAction::CloseApp, x);
    lemma_step_without(r.open_about_requested, UiAction::OpenAbout, x);
    lemma_step_without(r.config_changed, UiAction::SaveConfig, x);
    lemma_step_without(r.bg_changed, UiAction::ApplyBackground, x);
    lemma_step_without(r.obj_color_changed || r.materials_changed, color_step, x);
    lemma_step_without(
        r.scale_changed || r.position_changed,
        UiAction::UpdateTransform { scale_changed: r.scale_changed },
        x,
    );
    lemma_step_without(r.grid_rebuild || r.axes_rebuild, UiAction::RebuildGridAndAxes, x);
    lemma_step_without(r.controls_changed, UiAction::ApplyControls, x);
    lemma_step_without(r.dummy_box_changed && !shown, UiAction::RefreshDummyBox, x);
    lemma_concat_without(p0, p1, x);
    lemma_concat_without(p0 + p1, p2, x);
    lemma_concat_without(p0 + p1 + p2, p3, x);
    lemma_concat_without(p0 + p1 + p2 + p3, p4, x);
    lemma_concat_without(p0 + p1 + p2 + p3 + p4, p5, x);
    lemma_concat_without(p0 + p1 + p2 + p3 + p4 + p5, p6, x);
    lemma_concat_without(p0 + p1 + p2 + p3 + p4 + p5 + p6, p7, x);
    lemma_concat_without(p0 + p1 + p2 + p3 + p4 + p5 + p6 + p7, p8, x);
    lemma_concat_without(p0 + p1 + p2 + p3 + p4 + p5 + p6 + p7 + p8, p9, x);
    lemma_concat_without(p0 + p1 + p2 + p3 + p4 + p5 + p6 + p7 + p8 + p9, p10, x);
    lemma_concat_without(p0 + p1 + p2 + p3 + p4 + p5 + p6 + p7 + p8 + p9 + p10, p11, x);
    lemma_concat_without(p0 + p1 + p2 + p3 + p4 + p5 + p6 + p7 + p8 + p9 + p10 + p11, p12, x);
}

} // verus!
