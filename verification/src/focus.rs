//! The window that dictation started in.
//!
//! The window that has the focus when the hotkey goes down is remembered, and
//! gets the focus back just before the text is typed.
use vstd::prelude::*;

verus! {

/// The window that had the focus when the hotkey went down, as the number by
/// which the window system knows it; `None` as long as none was captured.
#[derive(Clone, Copy, Debug, PartialEq, Eq, Structural)]
pub struct TargetWindow(pub Option<isize>);

impl Default for TargetWindow {
    fn default() -> (r: TargetWindow)
        ensures
            r == TargetWindow(None),
    {
        TargetWindow(None)
    }
}

/// What is remembered after a capture: the window that has the focus, or what was
/// remembered before where none can be told.
pub open spec fn captured(target: TargetWindow, focused: Option<isize>) -> TargetWindow {
    match focused {
        Some(window) => TargetWindow(Some(window)),
        None => target,
    }
}

/// Remembers the window that has the focus. Where none can be told, the window
/// that was captured before stays.
pub fn capture_foreground(target: &mut TargetWindow, focused: Option<isize>)
    ensures
        *final(target) == captured(*old(target), focused),
{
    match focused {
        Some(window) => {
            target.0 = Some(window);
        },
        None => {},
    }
}

/// True where a variable of the environment is set and not empty.
pub open spec fn is_set(variable: Option<&str>) -> bool {
    variable matches Some(value) && value@.len() > 0
}

fn set(variable: Option<&str>) -> (r: bool)
    ensures
        r == is_set(variable),
{
    match variable {
        Some(value) => !value.is_empty(),
        None => false,
    }
}

/// True where the session is an X11 session, given the variables
/// `WAYLAND_DISPLAY` and `DISPLAY` of its environment: there is an X display and
/// no Wayland display.
pub fn is_x11_session(wayland_display: Option<&str>, display: Option<&str>) -> (r: bool)
    ensures
        r == (!is_set(wayland_display) && is_set(display)),
{
    if set(wayland_display) {
        return false;
    }
    set(display)
}

/// A window that is told is remembered, whatever was remembered before; where none is
/// told, what was remembered stays.
pub proof fn law_what_is_remembered(before: TargetWindow, window: isize)
    ensures
        captured(before, Some(window)).0 == Some(window),
        captured(before, None).0 == before.0,
{
}

/// A variable counts as set where it holds at least one character.
pub proof fn law_what_is_set(value: &str)
    ensures
        is_set(Some(value)) <==> value@.len() > 0,
        !is_set(None),
{
}

} // verus!
