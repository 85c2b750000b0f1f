//! Dragging the video moves the undecorated window: a press of the primary
//! button arms the drag, and once the pointer has travelled far enough with
//! the button held the window move starts. The positions themselves stay
//! with the caller, which says whether the pointer left the press point.
use vstd::prelude::*;

verus! {

/// The primary pointer button.
pub const PRIMARY_BUTTON: u32 = 1;

/// Distance in pixels, along each axis, that the pointer must leave the
/// press point by before a drag moves the window.
pub const MOVE_THRESHOLD_PX: u32 = 4;

/// An event on the video surface.
#[derive(Clone, Copy, Debug, PartialEq, Eq, Structural)]
pub enum PointerEvent {
    /// A button press; `button` is none when the event carries no button.
    Press { button: Option<u32>, has_position: bool },
    /// A button release.
    Release { button: Option<u32> },
    /// Pointer motion: whether the primary button is held, whether the event
    /// has a position, and whether that position is at least the threshold
    /// away from the press point along some axis.
    Motion { primary_held: bool, has_position: bool, beyond_threshold: bool },
    /// Anything else.
    Other,
}

/// What the player does with an event, and whether a drag is armed after.
#[derive(Clone, Copy, Debug, PartialEq, Eq, Structural)]
pub struct MoveStep {
    /// A drag is armed after the event.
    pub armed: bool,
    /// The player controls are to be shown.
    pub show_controls: bool,
    /// The event position is to be kept as the press point.
    pub record_press: bool,
    /// The window move is to start (and the event is then consumed, if it
    /// starts).
    pub begin_move: bool,
}

pub open spec fn quiet(armed: bool) -> MoveStep {
    MoveStep { armed, show_controls: false, record_press: false, begin_move: false }
}

/// The step for `event` with a drag `armed` or not, the window being
/// fullscreen or not. In fullscreen nothing happens.
pub open spec fn move_step(armed: bool, event: PointerEvent, fullscreen: bool) -> MoveStep {
    if fullscreen {
        quiet(armed)
    } else {
        match event {
            PointerEvent::Press { button, has_position } => {
                if button == Some(PRIMARY_BUTTON) && has_position {
                    MoveStep { armed: true, show_controls: true, record_press: true, begin_move: false }
                } else {
                    MoveStep { show_controls: true, ..quiet(armed) }
                }
            },
            PointerEvent::Release { button } => {
                if button == Some(PRIMARY_BUTTON) {
                    quiet(false)
                } else {
                    quiet(armed)
                }
            },
            PointerEvent::Motion { primary_held, has_position, beyond_threshold } => {
                if !armed {
                    quiet(false)
                } else if !primary_held {
                    quiet(false)
                } else if !has_position || !beyond_threshold {
                    quiet(true)
                } else {
                    MoveStep { begin_move: true, ..quiet(false) }
                }
            },
            PointerEvent::Other => quiet(armed),
        }
    }
}

/// Decides what an event on the video does to the window-move drag.
pub fn window_move_step(armed: bool, event: PointerEvent, fullscreen: bool) -> (r: MoveStep)
    ensures
        r == move_step(armed, event, fullscreen),
{
    let q = MoveStep { armed, show_controls: false, record_press: false, begin_move: false };
    if fullscreen {
        return q;
    }
    match event {
        PointerEvent::Press { button, has_position } => {
            let primary = match button {
                Some(b) => b == PRIMARY_BUTTON,
                None => false,
            };
            if primary && has_position {
                MoveStep { armed: true, show_controls: true, record_press: true, begin_move: false }
            } else {
                MoveStep { show_controls: true, ..q }
            }
        },
        PointerEvent::Release { button } => {
            let primary = match button {
                Some(b) => b == PRIMARY_BUTTON,
                None => false,
            };
            if primary {
                MoveStep { armed: false, ..q }
            } else {
                q
            }
        },
        PointerEvent::Motion { primary_held, has_position, beyond_threshold } => {
            if !armed || !primary_held {
                MoveStep { armed: false, ..q }
            } else if !has_position || !beyond_threshold {
                q
            } else {
                MoveStep { armed: false, begin_move: true, ..q }
            }
        },
        PointerEvent::Other => q,
    }
}

/// A window move starts only from an armed drag, on motion far enough with
/// the primary button held, and disarms it, so one press moves the window
/// at most once; releasing the primary button disarms; in fullscreen no
/// event does anything.
pub proof fn window_move_rules(armed: bool, event: PointerEvent, fullscreen: bool)
    ensures
        move_step(armed, event, fullscreen).begin_move ==> armed && !fullscreen && (event matches PointerEvent::Motion { primary_held, has_position, beyond_threshold } && primary_held && has_position && beyond_threshold),
        move_step(armed, event, fullscreen).begin_move ==> !move_step(armed, event, fullscreen).armed,
        (!fullscreen && event == PointerEvent::Release { button: Some(PRIMARY_BUTTON) }) ==> !move_step(armed, event, fullscreen).armed,
        fullscreen ==> move_step(armed, event, fullscreen) == quiet(armed),
        move_step(armed, event, fullscreen).armed && !armed ==> (event matches PointerEvent::Press { button, has_position } && button == Some(PRIMARY_BUTTON) && has_position),
{
}

/// The player controls hide after their delay unless an overlay or the
/// stream settings are open; then the delay starts again.
pub fn controls_may_hide(channel_overlay_open: bool, epg_overlay_open: bool, stream_settings_open: bool) -> (r: bool)
    ensures
        r == !(channel_overlay_open || epg_overlay_open || stream_settings_open),
{
    !(channel_overlay_open || epg_overlay_open || stream_settings_open)
}

} // verus!
