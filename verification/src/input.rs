//! How the viewer reads mouse buttons and keys: dragging to orbit, a double
//! click to open a model, the right button for the context menu, and the
//! escape key to close the menu or the viewer.
//!
//! The geometry of orbiting and zooming is the caller's; this module says
//! which of it an event calls for, and what the viewer remembers.

use vstd::prelude::*;

verus! {

/// Two clicks at most this many nanoseconds apart make a double click.
pub const DOUBLE_CLICK_NANOS: u64 = 300_000_000;

/// What the viewer remembers of the pointer between events.
#[derive(Clone, Copy, Debug, PartialEq, Eq, Structural)]
pub struct PointerState {
    /// The primary button is held down over the view.
    pub dragging: bool,
    /// A cursor position is known since the last release.
    pub has_cursor: bool,
    /// When the last single click happened, in nanoseconds of a monotonic
    /// clock.
    pub last_click: Option<u64>,
    /// The context menu is shown.
    pub menu_open: bool,
    /// The viewer is to close.
    pub should_close: bool,
    /// The file dialog is asked for.
    pub open_file_requested: bool,
}

/// An input event, as far as the viewer tells events apart.
#[derive(Clone, Copy, Debug, PartialEq, Eq, Structural)]
pub enum PointerEvent {
    /// The cursor moved.
    CursorMoved,
    /// The primary button went down, at `now` nanoseconds.
    PrimaryPressed { now: u64 },
    /// The primary button went up.
    PrimaryReleased,
    /// The secondary button went down.
    SecondaryPressed,
    /// Any other use of a mouse button.
    OtherButton,
    /// The escape key went down.
    EscapePressed,
    /// Any other key event.
    OtherKey,
    /// The wheel turned.
    Scrolled,
    /// Anything else, such as a resize.
    Other,
}

/// What the viewer does with an event besides updating its state.
#[derive(Clone, Copy, Debug, PartialEq, Eq, Structural)]
pub enum PointerEffect {
    /// Nothing more.
    Nothing,
    /// Turn the view by the cursor's move since its last position.
    Orbit,
    /// Stop the view's inertial turning.
    StopInertia,
    /// Open the context menu at the last cursor position.
    PlaceMenu,
    /// Zoom by the wheel's turn.
    Zoom,
    /// Hand the event to the underlying orbit camera.
    Forward,
}

/// How long after `last` the time `now` lies; no time when it lies before.
pub open spec fn elapsed(last: u64, now: u64) -> u64 {
    if now >= last {
        (now - last) as u64
    } else {
        0
    }
}

/// The state and effect after one event.
pub open spec fn pointer_step(s: PointerState, e: PointerEvent) -> (PointerState, PointerEffect) {
    match e {
        PointerEvent::CursorMoved => (
            PointerState { has_cursor: true, ..s },
            if s.dragging && s.has_cursor {
                PointerEffect::Orbit
            } else {
                PointerEffect::Nothing
            },
        ),
        PointerEvent::PrimaryPressed { now } => if s.menu_open {
            (PointerState { menu_open: false, ..s }, PointerEffect::Nothing)
        } else if s.last_click matches Some(t) && elapsed(t, now) <= DOUBLE_CLICK_NANOS {
            (
                PointerState { last_click: None, open_file_requested: true, ..s },
                PointerEffect::StopInertia,
            )
        } else {
            (
                PointerState { last_click: Some(now), dragging: true, ..s },
                PointerEffect::StopInertia,
            )
        },
        PointerEvent::PrimaryReleased => (
            PointerState { dragging: false, has_cursor: false, ..s },
            PointerEffect::Nothing,
        ),
        PointerEvent::SecondaryPressed => (
            s,
            if s.has_cursor {
                PointerEffect::PlaceMenu
            } else {
                PointerEffect::Nothing
            },
        ),
        PointerEvent::OtherButton => (s, PointerEffect::Nothing),
        PointerEvent::EscapePressed => if s.menu_open {
            (PointerState { menu_open: false, ..s }, PointerEffect::Nothing)
        } else {
            (PointerState { should_close: true, ..s }, PointerEffect::Nothing)
        },
        PointerEvent::OtherKey | PointerEvent::Other => (s, PointerEffect::Forward),
        PointerEvent::Scrolled => (s, PointerEffect::Zoom),
    }
}

impl PointerState {
    /// The state of a viewer that has seen no event.
    pub fn new() -> (res: Self)
        ensures
            res == (PointerState {
                dragging: false,
                has_cursor: false,
                last_click: None,
                menu_open: false,
                should_close: false,
                open_file_requested: false,
            }),
    {
        PointerState {
            dragging: false,
            has_cursor: false,
            last_click: None,
            menu_open: false,
            should_close: false,
            open_file_requested: false,
        }
    }

    /// Takes in one event and says what else the viewer is to do with it.
    pub fn handle(&mut self, e: PointerEvent) -> (res: PointerEffect)
        ensures
            (*final(self), res) == pointer_step(*old(self), e),
    {
        let s = *self;
        match e {
            PointerEvent::CursorMoved => {
                self.has_cursor = true;
                if s.dragging && s.has_cursor {
                    PointerEffect::Orbit
                } else {
                    PointerEffect::Nothing
                }
            },
            PointerEvent::PrimaryPressed { now } => {
                if s.menu_open {
                    self.menu_open = false;
                    return PointerEffect::Nothing;
                }
                let double = match s.last_click {
                    Some(t) => {
                        let gap: u64 = if now >= t {
                            now - t
                        } else {
                            0
                        };
                        gap <= DOUBLE_CLICK_NANOS
                    },
                    None => false,
                };
                if double {
                    self.last_click = None;
                    self.open_file_requested = true;
                } else {
                    self.last_click = Some(now);
                    self.dragging = true;
                }
                PointerEffect::StopInertia
            },
            PointerEvent::PrimaryReleased => {
                self.dragging = false;
                self.has_cursor = false;
                PointerEffect::Nothing
            },
            PointerEvent::SecondaryPressed => {
                if s.has_cursor {
                    PointerEffect::PlaceMenu
                } else {
                    PointerEffect::Nothing
                }
            },
            PointerEvent::OtherButton => PointerEffect::Nothing,
            PointerEvent::EscapePressed => {
                if s.menu_open {
                    self.menu_open = false;
                } else {
                    self.should_close = true;
                }
                PointerEffect::Nothing
            },
            PointerEvent::OtherKey | PointerEvent::Other => PointerEffect::Forward,
            PointerEvent::Scrolled => PointerEffect::Zoom,
        }
    }
}

/// Two presses of the primary button at most 300 ms apart, with no menu
/// open, ask for the file dialog; the first starts a drag.
pub proof fn lemma_double_click_opens_file(s: PointerState, t1: u64, t2: u64)
    requires
        !s.menu_open,
        s.last_click is None,
        t1 <= t2,
        t2 - t1 <= DOUBLE_CLICK_NANOS,
    ensures
        ({
            let (s1, _) = pointer_step(s, PointerEvent::PrimaryPressed { now: t1 });
            let (s2, _) = pointer_step(s1, PointerEvent::PrimaryPressed { now: t2 });
            s1.dragging && s1.last_click == Some(t1) && s2.open_file_requested && s2.last_click
                is None
        }),
{
}

/// A release between two presses does not break a double click.
pub proof fn lemma_release_keeps_click(s: PointerState, t1: u64, t2: u64)
    requires
        !s.menu_open,
        s.last_click is None,
        t1 <= t2,
        t2 - t1 <= DOUBLE_CLICK_NANOS,
    ensures
        ({
            let (s1, _) = pointer_step(s, PointerEvent::PrimaryPressed { now: t1 });
            let (s2, _) = pointer_step(s1, PointerEvent::PrimaryReleased);
            let (s3, _) = pointer_step(s2, PointerEvent::PrimaryPressed { now: t2 });
            s3.open_file_requested
        }),
{
}

/// With the context menu open, the escape key or a click closes the menu
/// and does nothing else: the viewer stays open and no drag begins.
pub proof fn lemma_open_menu_absorbs(s: PointerState, now: u64)
    requires
        s.menu_open,
    ensures
        pointer_step(s, PointerEvent::EscapePressed) == (
            PointerState { menu_open: false, ..s },
            PointerEffect::Nothing,
        ),
        pointer_step(s, PointerEvent::PrimaryPressed { now }) == (
            PointerState { menu_open: false, ..s },
            PointerEffect::Nothing,
        ),
{
}

/// Once asked for, the closing of the viewer is never withdrawn.
pub proof fn lemma_close_stays(s: PointerState, e: PointerEvent)
    requires
        s.should_close,
    ensures
        pointer_step(s, e).0.should_close,
{
}

} // verus!
