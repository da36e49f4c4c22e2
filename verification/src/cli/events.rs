//! Terminal events and the actions they ask of the panel view.
use vstd::prelude::*;

use crate::cl::events::{KeyCode, KeyPress};
use crate::cli::fslist::Vec2;

verus! {

/// What the panel view is asked to do.
#[derive(Debug, Clone, Copy, PartialEq, Eq)]
pub enum Actions {
    Quit,
    Tick,
    Select,
    Redraw,
    ToggleViewer,
    /// Move the selection by (column, row).
    Move(Vec2<i16>),
}

/// A terminal event, as far as the view tells them apart.
#[derive(Debug, Clone, Copy, PartialEq, Eq)]
pub enum InputEvent {
    Key(KeyPress),
    FocusGained,
    FocusLost,
    Mouse,
    Paste,
    Resize,
}

/// The events the view handles; focus changes and pastes it does not.
pub open spec fn is_handled(event: InputEvent) -> bool {
    !(event is FocusGained || event is FocusLost || event is Paste)
}

/// The action for an event: on a key press, `q` quits, `h`, `l`, `j`, `k`
/// move left, right, down and up, Enter selects and `v` toggles the viewer;
/// a resize redraws; anything else asks nothing.
pub open spec fn event_action(event: InputEvent) -> Option<Actions> {
    match event {
        InputEvent::Key(k) => if !k.press {
            None
        } else {
            match k.code {
                KeyCode::Char(c) => if c == 'q' {
                    Some(Actions::Quit)
                } else if c == 'h' {
                    Some(Actions::Move(Vec2(-1i16, 0i16)))
                } else if c == 'l' {
                    Some(Actions::Move(Vec2(1i16, 0i16)))
                } else if c == 'j' {
                    Some(Actions::Move(Vec2(0i16, 1i16)))
                } else if c == 'k' {
                    Some(Actions::Move(Vec2(0i16, -1i16)))
                } else if c == 'v' {
                    Some(Actions::ToggleViewer)
                } else {
                    None
                },
                KeyCode::Enter => Some(Actions::Select),
                _ => None,
            }
        },
        InputEvent::Resize => Some(Actions::Redraw),
        _ => None,
    }
}

/// Law: in the panel view `j` moves the selection one row down and `l` one
/// column right, `k` and `h` the opposite ways, with or without Control.
pub proof fn lemma_panel_movement_keys(control: bool)
    ensures
        ({
            let key = |c: char| InputEvent::Key(KeyPress { code: KeyCode::Char(c), press: true, control });
            &&& event_action(key('j')) == Some(Actions::Move(Vec2(0i16, 1i16)))
            &&& event_action(key('l')) == Some(Actions::Move(Vec2(1i16, 0i16)))
            &&& event_action(key('k')) matches Some(Actions::Move(s)) && s.0 == 0 && s.1 == -1
            &&& event_action(key('h')) matches Some(Actions::Move(s)) && s.0 == -1 && s.1 == 0
        }),
{
}

/// The action to send for a terminal event, if any.
pub fn handle_event(event: InputEvent) -> (a: Option<Actions>)
    requires
        is_handled(event),
    ensures
        a == event_action(event),
{
    match event {
        InputEvent::Key(key) => {
            if key.press {
                if let KeyCode::Char(c) = key.code {
                    if c == 'q' {
                        return Some(Actions::Quit);
                    }
                    if c == 'h' {
                        return Some(Actions::Move(Vec2(-1, 0)));
                    }
                    if c == 'l' {
                        return Some(Actions::Move(Vec2(1, 0)));
                    }
                    if c == 'j' {
                        return Some(Actions::Move(Vec2(0, 1)));
                    }
                    if c == 'k' {
                        return Some(Actions::Move(Vec2(0, -1)));
                    }
                    if c == 'v' {
                        return Some(Actions::ToggleViewer);
                    }
                }
                if let KeyCode::Enter = key.code {
                    return Some(Actions::Select);
                }
            }
            None
        },
        InputEvent::Mouse => None,
        InputEvent::Resize => Some(Actions::Redraw),
        _ => vstd::pervasive::unreached(),
    }
}

} // verus!
