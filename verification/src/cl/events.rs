//! Keys and what they ask the tree view to do.
use vstd::prelude::*;

verus! {

/// The keys the front ends react to; every other key is `Other`.
#[derive(Debug, Clone, Copy, PartialEq, Eq)]
pub enum KeyCode {
    Char(char),
    Right,
    Enter,
    Other,
}

/// A key event: the key, whether it was pressed (rather than repeated or
/// released) and whether Control was held.
#[derive(Debug, Clone, Copy, PartialEq, Eq)]
pub struct KeyPress {
    pub code: KeyCode,
    pub press: bool,
    pub control: bool,
}

/// A step of the cursor or of the focus, by column and row.
#[derive(Debug, Clone, Copy, PartialEq, Eq)]
pub struct CursorMov {
    pub x: i16,
    pub y: i16,
}

/// What the tree view is asked to do.
#[derive(Debug, Clone, Copy, PartialEq, Eq)]
pub enum Event {
    Close,
    Continue,
    MoveCursor(CursorMov),
    Click,
    ShowData,
    ChangePanel(CursorMov),
}

/// One coordinate of `add_to_cursor`: the step added to the coordinate read
/// as an `i16`, zero when that is negative.
pub open spec fn add_axis(step: i16, coord: u16) -> u16 {
    let sum = step + (coord as i16);
    if sum < 0 {
        0
    } else {
        sum as u16
    }
}

/// Adding the step to the coordinate read as an `i16` stays within `i16`.
pub open spec fn add_axis_fits(step: i16, coord: u16) -> bool {
    i16::MIN <= step + (coord as i16) <= i16::MAX
}

impl CursorMov {
    pub fn new(x: i16, y: i16) -> (m: Self)
        ensures
            m.x == x,
            m.y == y,
    {
        CursorMov { x, y }
    }

    /// The cursor moved by this step, no coordinate below zero.
    pub fn add_to_cursor(&self, cursor: (u16, u16)) -> (r: (u16, u16))
        requires
            add_axis_fits(self.x, cursor.0),
            add_axis_fits(self.y, cursor.1),
        ensures
            r == (add_axis(self.x, cursor.0), add_axis(self.y, cursor.1)),
    {
        let mut x = self.x + cursor.0 as i16;
        let mut y = self.y + cursor.1 as i16;
        if x < 0 {
            x = 0;
        }
        if y < 0 {
            y = 0;
        }
        (x as u16, y as u16)
    }
}

/// The event for a key in the tree view: Control and → show the data; `q`
/// closes; `h`, `j`, `k`, `l` move the cursor left, down, up and right, or,
/// with Control, the focus; Enter clicks. Anything else, and no key,
/// continues.
pub open spec fn key_event(key: Option<KeyPress>) -> Event {
    match key {
        None => Event::Continue,
        Some(k) => if !k.press {
            Event::Continue
        } else if k.control && k.code == KeyCode::Right {
            Event::ShowData
        } else {
            match k.code {
                KeyCode::Char(c) => if c == 'q' {
                    Event::Close
                } else if c == 'j' || c == 'k' || c == 'l' || c == 'h' {
                    let step = if c == 'j' {
                        CursorMov { x: 0, y: 1 }
                    } else if c == 'k' {
                        CursorMov { x: 0, y: -1i16 }
                    } else if c == 'l' {
                        CursorMov { x: 1, y: 0 }
                    } else {
                        CursorMov { x: -1i16, y: 0 }
                    };
                    if k.control {
                        Event::ChangePanel(step)
                    } else {
                        Event::MoveCursor(step)
                    }
                } else {
                    Event::Continue
                },
                KeyCode::Enter => Event::Click,
                _ => Event::Continue,
            }
        },
    }
}

/// The key `c` pressed, with or without Control.
pub open spec fn pressed(c: char, control: bool) -> Option<KeyPress> {
    Some(KeyPress { code: KeyCode::Char(c), press: true, control })
}

/// The step an event moves the cursor or the focus by, if it moves one.
pub open spec fn step_of(e: Event) -> Option<CursorMov> {
    match e {
        Event::MoveCursor(s) => Some(s),
        Event::ChangePanel(s) => Some(s),
        _ => None,
    }
}

/// Law: `j` steps one row down and `l` one column right; `k` and `h` step
/// the opposite ways. With Control each of them moves the focus by the
/// same step that moves the cursor without it.
pub proof fn lemma_movement_keys(control: bool)
    ensures
        step_of(key_event(pressed('j', control))) == Some(CursorMov { x: 0, y: 1 }),
        step_of(key_event(pressed('l', control))) == Some(CursorMov { x: 1, y: 0 }),
        step_of(key_event(pressed('k', control))) matches Some(s) && step_of(key_event(pressed('j', control)))
            matches Some(t) && s.x == -t.x && s.y == -t.y,
        step_of(key_event(pressed('h', control))) matches Some(s) && step_of(key_event(pressed('l', control)))
            matches Some(t) && s.x == -t.x && s.y == -t.y,
        forall|c: char|
            c == 'h' || c == 'j' || c == 'k' || c == 'l' ==> {
                &&& step_of(#[trigger] key_event(pressed(c, true))) == step_of(key_event(pressed(c, false)))
                &&& key_event(pressed(c, true)) is ChangePanel
                &&& key_event(pressed(c, false)) is MoveCursor
            },
{
}

/// The event for the key read, if one was.
pub fn event_for_key(key: Option<KeyPress>) -> (e: Event)
    ensures
        e == key_event(key),
{
    match key {
        None => Event::Continue,
        Some(key) => {
            if !key.press {
                return Event::Continue;
            }
            if key.control {
                if let KeyCode::Right = key.code {
                    return Event::ShowData;
                }
            }
            match key.code {
                KeyCode::Char(c) => {
                    if c == 'q' {
                        return Event::Close;
                    }
                    if c == 'j' {
                        if key.control {
                            return Event::ChangePanel(CursorMov::new(0, 1));
                        }
                        return Event::MoveCursor(CursorMov::new(0, 1));
                    }
                    if c == 'k' {
                        if key.control {
                            return Event::ChangePanel(CursorMov::new(0, -1));
                        }
                        return Event::MoveCursor(CursorMov::new(0, -1));
                    }
                    if c == 'l' {
                        if key.control {
                            return Event::ChangePanel(CursorMov::new(1, 0));
                        }
                        return Event::MoveCursor(CursorMov::new(1, 0));
                    }
                    if c == 'h' {
                        if key.control {
                            return Event::ChangePanel(CursorMov::new(-1, 0));
                        }
                        return Event::MoveCursor(CursorMov::new(-1, 0));
                    }
                    Event::Continue
                },
                KeyCode::Enter => Event::Click,
                _ => Event::Continue,
            }
        },
    }
}

} // verus!
