//! The first front end: a tree of directory entries shown as a list.
pub mod events;
pub mod fs_entries;
pub mod display;

use vstd::prelude::*;

use crate::cl::display::{DisplayFsList, DisplayPanel, DisplayPanelsLayout, PanelType, edges_fit, lies_towards};
use crate::cl::events::{CursorMov, Event};
use crate::cl::fs_entries::{Cords, FsEntry, can_toggle, counts_fit, flatten, lines_view, toggled};
use crate::tools::{Rect, inside, clamp, clamp_simple, clamp_simple_spec, lemma_clamp_simple_range, clamp_axis, clamp_axis_fits, rect_new, clipped_size};

verus! {

/// The colour a line is drawn in.
#[derive(Debug, Clone, Copy, PartialEq, Eq)]
pub enum LineColor {
    White,
    Blue,
}

/// A line of the list: its text and the depth of its entry in the tree.
#[derive(Debug)]
pub struct RufufLine {
    pub text: String,
    pub depth: usize,
    pub color: LineColor,
}



/// A line of a list and a position on it.
#[allow(non_camel_case_types)]
#[derive(Debug, Clone, Copy, PartialEq, Eq)]
pub struct Index_Pos {
    pub index: usize,
    pub pos: usize,
}

impl Index_Pos {
    pub fn new(index: usize, pos: usize) -> (p: Self)
        ensures
            p.index == index,
            p.pos == pos,
    {
        Index_Pos { index, pos }
    }
}

/// What the view does after an event.
#[derive(Debug, Clone, Copy, PartialEq, Eq)]
pub enum Actions {
    Click(Index_Pos),
    Redraw,
    NoAction,
}

/// A cursor coordinate to which a signed step is added.
pub struct Wrap {
    pub num: usize,
}

/// The sum `Wrap::add` gives: the step added to the number read as an
/// `i16`, zero when that is negative.
pub open spec fn wrap_add(num: usize, other: i16) -> usize {
    let r = (num as i16) + other;
    if r < 0 {
        0
    } else {
        r as usize
    }
}

/// The sum in `Wrap::add` stays within `i16`.
pub open spec fn wrap_add_fits(num: usize, other: i16) -> bool {
    i16::MIN <= (num as i16) + other <= i16::MAX
}

impl Wrap {
    pub fn add(self, other: i16) -> (r: usize)
        requires
            wrap_add_fits(self.num, other),
        ensures
            r == wrap_add(self.num, other),
    {
        let mut result: i16 = self.num as i16 + other;
        if result < 0 {
            result = 0;
        }
        result as usize
    }
}

/// What the terminal loop does with an event.
#[derive(Debug, Clone, Copy, PartialEq, Eq)]
pub enum Step {
    /// Leave the loop.
    Quit,
    /// Put the terminal cursor at this column and row; nothing else to do.
    SetCursor(u16, u16),
    /// Click the list with this number: toggle the entry on its fourth line
    /// (`DisplayFsList::click`), then redraw if there was one.
    ClickList(usize),
    /// Act.
    Act(Actions),
}

/// The row `MoveCursor` puts the cursor on: the row moved by the step, kept
/// off the panel's top and bottom border.
pub open spec fn moved_row(p: DisplayPanel, dir: CursorMov) -> u16 {
    clamp_simple_spec(
        wrap_add(p.cursor.y, dir.y) as u16,
        (p.area.y + 1) as u16,
        (p.area.y + p.area.height - 2) as u16,
    )
}

/// Law: in a panel at least three rows high, a cursor move puts the cursor
/// on one of the rows inside the border, and a cursor already there moved
/// by zero stays where it is.
pub proof fn lemma_cursor_row_inside(p: DisplayPanel, dir: CursorMov)
    requires
        p.area.height >= 3,
        p.area.y + p.area.height <= u16::MAX,
    ensures
        p.area.y + 1 <= moved_row(p, dir) <= p.area.y + p.area.height - 2,
        dir.y == 0 && p.cursor.y <= i16::MAX && p.area.y + 1 <= p.cursor.y <= p.area.y + p.area.height - 2
            ==> moved_row(p, dir) == p.cursor.y,
{
    let lo = (p.area.y + 1) as u16;
    let hi = (p.area.y + p.area.height - 2) as u16;
    lemma_clamp_simple_range(wrap_add(p.cursor.y, dir.y) as u16, lo, hi);
}

/// Some panel lies towards `dir` from the focused panel, and `i` is the
/// first.
pub open spec fn is_first_towards(panels: Seq<DisplayPanel>, f: Rect, dir: CursorMov, i: int) -> bool {
    &&& 0 <= i < panels.len()
    &&& lies_towards(panels[i].area, f, dir)
    &&& forall|j: int| 0 <= j < i ==> !lies_towards(#[trigger] panels[j].area, f, dir)
}

/// `handle_event` can take `event` without leaving `u16` or `i16`: the
/// focused panel exists; a cursor move is in a list whose border rows can be
/// computed; a focus change can compute the edges it compares and the
/// corner inside the panel it chooses.
pub open spec fn handles(event: Event, d: DisplayPanelsLayout) -> bool {
    let f = d.panels@[d.current_focused as int];
    match event {
        Event::MoveCursor(dir) => {
            &&& d.current_focused < d.panels@.len()
            &&& f.panel is FsList
            &&& wrap_add_fits(f.cursor.y, dir.y)
            &&& f.area.y + 1 <= u16::MAX
            &&& f.area.y + f.area.height <= u16::MAX
            &&& f.area.y + f.area.height >= 2
        },
        Event::ChangePanel(dir) => {
            &&& d.current_focused < d.panels@.len()
            &&& edges_fit(f.area, dir)
            &&& forall|i: int|
                is_first_towards(d.panels@, f.area, dir, i) ==> (#[trigger] d.panels@[i]).area.x < u16::MAX
                    && d.panels@[i].area.y < u16::MAX
        },
        Event::Click => d.current_focused < d.panels@.len(),
        _ => true,
    }
}

/// What `handle_event` does with `event`: from the layout `o` it leaves
/// `n` and answers `s`.
pub open spec fn handled(event: Event, o: DisplayPanelsLayout, n: DisplayPanelsLayout, s: Step) -> bool {
    let f = o.panels@[o.current_focused as int];
    match event {
        Event::Close => s == Step::Quit && n == o,
        Event::MoveCursor(dir) => {
            let row = moved_row(f, dir);
            &&& s == Step::SetCursor(1, row)
            &&& n.current_focused == o.current_focused
            &&& n.panels@ == o.panels@.update(
                o.current_focused as int,
                DisplayPanel { panel: f.panel, area: f.area, cursor: Cords { x: f.cursor.x, y: row as usize } },
            )
        },
        Event::ChangePanel(dir) => {
            &&& n.panels@ == o.panels@
            &&& if exists|i: int| is_first_towards(o.panels@, f.area, dir, i) {
                &&& is_first_towards(o.panels@, f.area, dir, n.current_focused as int)
                &&& s == Step::SetCursor(
                    (o.panels@[n.current_focused as int].area.x + 1) as u16,
                    (o.panels@[n.current_focused as int].area.y + 1) as u16,
                )
            } else {
                n.current_focused == o.current_focused && s == Step::Act(Actions::NoAction)
            }
        },
        Event::Click => n == o && match f.panel {
            PanelType::FsList(id) => s == Step::ClickList(id),
            PanelType::ShowData => s == Step::Act(Actions::Redraw),
        },
        _ => n == o && s == Step::Act(Actions::NoAction),
    }
}

/// Law: after a focus change the cursor lies inside the newly focused
/// panel, off its border, and that panel lies in the direction asked for
/// (panels at least three cells wide and high, within the screen's
/// coordinates).
pub proof fn lemma_focus_change_cursor_inside(dir: CursorMov, o: DisplayPanelsLayout, n: DisplayPanelsLayout, s: Step)
    requires
        handled(Event::ChangePanel(dir), o, n, s),
        s is SetCursor,
        forall|k: int|
            0 <= k < o.panels@.len() ==> {
                let a = (#[trigger] o.panels@[k]).area;
                &&& a.width >= 3
                &&& a.height >= 3
                &&& a.x + a.width <= u16::MAX
                &&& a.y + a.height <= u16::MAX
            },
    ensures
        0 <= n.current_focused < o.panels@.len(),
        lies_towards(
            o.panels@[n.current_focused as int].area,
            o.panels@[o.current_focused as int].area,
            dir,
        ),
        ({
            let a = o.panels@[n.current_focused as int].area;
            s matches Step::SetCursor(x, y) && a.x < x <= a.x + a.width - 2 && a.y < y <= a.y + a.height - 2
        }),
{
    let a = o.panels@[n.current_focused as int].area;
    assert(a.width >= 3 && a.height >= 3);
}

/// Law: a cursor step that keeps the cursor inside the list's border moves
/// it by exactly that step.
pub proof fn lemma_cursor_step_exact(dir: CursorMov, o: DisplayPanelsLayout, n: DisplayPanelsLayout, s: Step)
    requires
        handled(Event::MoveCursor(dir), o, n, s),
        0 <= o.current_focused < o.panels@.len(),
        ({
            let f = o.panels@[o.current_focused as int];
            &&& f.cursor.y + dir.y <= i16::MAX
            &&& f.cursor.y <= i16::MAX
            &&& f.area.y + f.area.height <= u16::MAX
            &&& f.area.y + 1 <= f.cursor.y + dir.y <= f.area.y + f.area.height - 2
        }),
    ensures
        ({
            let f = o.panels@[o.current_focused as int];
            &&& s == Step::SetCursor(1, (f.cursor.y + dir.y) as u16)
            &&& n.panels@[o.current_focused as int].cursor.y == f.cursor.y + dir.y
        }),
{
    let f = o.panels@[o.current_focused as int];
    assert((f.cursor.y as i16) as int == f.cursor.y as int);
    let w = wrap_add(f.cursor.y, dir.y);
    assert(w as int == f.cursor.y + dir.y);
    assert((w as u16) as int == w as int);
}

/// Handles an event of the tree view: `q` quits; a cursor move sets the
/// focused list's cursor row and puts the terminal cursor there; a focus
/// change moves the focus to the first panel that way and puts the cursor
/// inside its corner; a click on a list asks for that list to be clicked,
/// elsewhere a redraw.
#[verifier::spinoff_prover]
pub fn handle_event(event: Event, display_panels: &mut DisplayPanelsLayout) -> (s: Step)
    requires
        handles(event, *old(display_panels)),
    ensures
        handled(event, *old(display_panels), *final(display_panels), s),
{
    match event {
        Event::Close => Step::Quit,
        Event::MoveCursor(direction) => {
            let panel = display_panels.get_focused_mut();
            let y1 = Wrap { num: panel.cursor.y };
            let y2 = direction.y;
            let new_y = y1.add(y2);
            let cursor_y = clamp_simple(new_y as u16, panel.area.y + 1, panel.area.y + panel.area.height - 2);
            panel.cursor.y = cursor_y as usize;
            Step::SetCursor(1, cursor_y)
        },
        Event::ChangePanel(direction) => {
            let result = display_panels.get_panel(direction);
            match result {
                None => Step::Act(Actions::NoAction),
                Some(i) => {
                    display_panels.current_focused = i;
                    let new_area = display_panels.get_focused().area;
                    let cursor = (new_area.x, new_area.y);
                    let new_pos = clamp(cursor, new_area, true);
                    Step::SetCursor(new_pos.0, new_pos.1)
                },
            }
        },
        Event::Click => {
            let panel = &display_panels.get_focused().panel;
            match panel {
                PanelType::FsList(id) => Step::ClickList(*id),
                PanelType::ShowData => Step::Act(Actions::Redraw),
            }
        },
        Event::ShowData => Step::Act(Actions::NoAction),
        Event::Continue => Step::Act(Actions::NoAction),
    }
}

/// Whether `handle_event` can take `event` on `d`.
fn handles_exec(event: &Event, d: &DisplayPanelsLayout) -> (b: bool)
    ensures
        b == handles(*event, *d),
{
    match event {
        Event::MoveCursor(dir) => {
            if d.current_focused >= d.panels.len() {
                return false;
            }
            let f = &d.panels[d.current_focused];
            let is_list = match f.panel {
                PanelType::FsList(_) => true,
                PanelType::ShowData => false,
            };
            let sum: i32 = (f.cursor.y as i16) as i32 + dir.y as i32;
            let bottom: u32 = f.area.y as u32 + f.area.height as u32;
            is_list && -32768 <= sum && sum <= 32767 && f.area.y < 65535 && bottom <= 65535 && bottom >= 2
        },
        Event::ChangePanel(dir) => {
            if d.current_focused >= d.panels.len() {
                return false;
            }
            let a = d.panels[d.current_focused].area;
            let fits = (dir.x != 1 || a.x as u32 + a.width as u32 <= 65535) && (dir.y != 1 || a.x as u32
                + a.height as u32 <= 65535);
            if !fits {
                return false;
            }
            let ghost ps = d.panels@;
            match d.get_panel(*dir) {
                Some(i) => {
                    proof {
                        assert forall|j: int| is_first_towards(ps, a, *dir, j) implies j == i by {
                            if j < i {
                                assert(!lies_towards(ps[j].area, a, *dir));
                            }
                            if j > i {
                                assert(!lies_towards(ps[i as int].area, a, *dir));
                            }
                        }
                    }
                    d.panels[i].area.x < 65535 && d.panels[i].area.y < 65535
                },
                None => true,
            }
        },
        Event::Click => d.current_focused < d.panels.len(),
        _ => true,
    }
}

/// `handle_event` when it can take the event; `None`, with the layout
/// unchanged, when the event would leave `u16` or `i16` or name a panel that
/// is not there.
pub fn handle_event_checked(event: Event, display_panels: &mut DisplayPanelsLayout) -> (s: Option<Step>)
    ensures
        s is None <==> !handles(event, *old(display_panels)),
        s is None ==> *final(display_panels) == *old(display_panels),
        s matches Some(st) ==> handled(event, *old(display_panels), *final(display_panels), st),
{
    if handles_exec(&event, display_panels) {
        Some(handle_event(event, display_panels))
    } else {
        None
    }
}

impl DisplayFsList {
    /// Clicks the list's fourth line, `children` being the listing of the
    /// directory there if that opens it: with no such line, nothing
    /// changes and nothing is to be done; otherwise the entry toggles, the
    /// lines are recomputed and the view redraws.
    pub fn click(&mut self, children: Vec<FsEntry>) -> (a: Actions)
        requires
            old(self).reference.state.offset + 3 <= usize::MAX,
            old(self).reference.state.offset + 3 < old(self).reference.nodes@.len() ==> {
                let at = old(self).reference.state.offset + 3;
                &&& can_toggle(old(self).reference.nodes@, at)
                &&& counts_fit(toggled(old(self).reference.nodes@, at, children@))
                &&& toggled(old(self).reference.nodes@, at, children@).len() <= usize::MAX / 4
            },
        ensures
            ({
                let at = old(self).reference.state.offset + 3;
                if at < old(self).reference.nodes@.len() {
                    &&& a == Actions::Redraw
                    &&& final(self).reference.nodes@ == toggled(old(self).reference.nodes@, at, children@)
                    &&& final(self).reference.state == old(self).reference.state
                    &&& lines_view(final(self).data@) == flatten(final(self).reference.nodes@, 0, 0, 0)
                } else {
                    a == Actions::NoAction && final(self).reference.nodes@ == old(self).reference.nodes@
                        && final(self).reference.state == old(self).reference.state && final(self).data
                        == old(self).data
                }
            }),
    {
        if self.reference.click_at(3, children).is_none() {
            return Actions::NoAction;
        }
        self.data = self.reference.to_lines();
        Actions::Redraw
    }
}

// ---------------------------------------------------------------------------
// The arrangement of panels
// ---------------------------------------------------------------------------

/// How the screen is split: side by side, one above the other, or a panel
/// by its number.
#[derive(Debug)]
pub enum RufufDirection {
    Horizontal(Vec<RufufDirection>),
    Vertical(Vec<RufufDirection>),
    Panel(usize),
}

/// The panels and how they share the screen.
#[derive(Debug)]
pub struct RufufLayout {
    pub panels: Vec<PanelType>,
    pub layout: RufufDirection,
    pub current_focused_panel: usize,
}

/// ratatui's `Rect::new`, as `rect_new` states it.
pub open spec fn rect_new_spec(x: u16, y: u16, width: u16, height: u16) -> Rect {
    if width * height <= u16::MAX {
        Rect { x, y, width, height }
    } else {
        Rect { x, y, width: clipped_size(width, height).0, height: clipped_size(width, height).1 }
    }
}

/// The panel shown in `area` for the `k`th of the parts of a split: each
/// part gets `fraction` of the length, starting at `start + k * fraction`.
pub open spec fn part_area(area: Rect, vertical: bool, start: int, fraction: int, k: int) -> Rect {
    if vertical {
        rect_new_spec(area.x, (start + k * fraction) as u16, area.width, fraction as u16)
    } else {
        rect_new_spec((start + k * fraction) as u16, area.y, fraction as u16, area.height)
    }
}

/// The length each part of a split of `len` parts gets.
pub open spec fn part_length(area: Rect, vertical: bool, len: nat) -> int {
    if vertical {
        (area.height as int) / ((len as u16) as int)
    } else {
        (area.width as int) / ((len as u16) as int)
    }
}

/// A split can be laid out in `area`: the number of parts read as a `u16` is
/// not zero, and every part starts within `u16`.
pub open spec fn split_fits(area: Rect, vertical: bool, len: nat) -> bool {
    let start = if vertical {
        area.y as int
    } else {
        area.x as int
    };
    &&& (len as u16) != 0
    &&& start + len * part_length(area, vertical, len) <= u16::MAX
}

/// The panels `dir` shows in `area`, in order, each with its area and a
/// cursor at the origin. An empty split shows nothing.
pub open spec fn frames(panels: Seq<PanelType>, dir: RufufDirection, area: Rect) -> Seq<DisplayPanel>
    decreases dir, 0nat,
{
    match dir {
        RufufDirection::Panel(n) => seq![DisplayPanel { panel: panels[n as int], area, cursor: Cords { x: 0, y: 0 } }],
        RufufDirection::Vertical(v) => {
            let start = area.y as int;
            frames_of_parts(panels, v@, area, true, start, part_length(area, true, v@.len()), 0)
        },
        RufufDirection::Horizontal(v) => {
            let start = area.x as int;
            frames_of_parts(panels, v@, area, false, start, part_length(area, false, v@.len()), 0)
        },
    }
}

/// The panels of the parts of a split from the `k`th on.
pub open spec fn frames_of_parts(panels: Seq<PanelType>, parts: Seq<RufufDirection>, area: Rect, vertical: bool, start: int, fraction: int, k: nat) -> Seq<DisplayPanel>
    decreases parts, parts.len() - k,
{
    if k >= parts.len() {
        Seq::empty()
    } else {
        frames(panels, parts[k as int], part_area(area, vertical, start, fraction, k as int)) + frames_of_parts(
            panels,
            parts,
            area,
            vertical,
            start,
            fraction,
            (k + 1) as nat,
        )
    }
}

/// Laying `dir` out in `area` computes nothing out of range and refers to
/// no panel that is not there.
pub open spec fn frames_ok(panels: Seq<PanelType>, dir: RufufDirection, area: Rect) -> bool
    decreases dir, 0nat,
{
    match dir {
        RufufDirection::Panel(n) => n < panels.len(),
        RufufDirection::Vertical(v) => v@.len() == 0 || (split_fits(area, true, v@.len()) && parts_ok(
            panels,
            v@,
            area,
            true,
            area.y as int,
            part_length(area, true, v@.len()),
            0,
        )),
        RufufDirection::Horizontal(v) => v@.len() == 0 || (split_fits(area, false, v@.len()) && parts_ok(
            panels,
            v@,
            area,
            false,
            area.x as int,
            part_length(area, false, v@.len()),
            0,
        )),
    }
}

/// The parts of a split from the `k`th on can be laid out.
pub open spec fn parts_ok(panels: Seq<PanelType>, parts: Seq<RufufDirection>, area: Rect, vertical: bool, start: int, fraction: int, k: nat) -> bool
    decreases parts, parts.len() - k,
{
    if k >= parts.len() {
        true
    } else {
        frames_ok(panels, parts[k as int], part_area(area, vertical, start, fraction, k as int)) && parts_ok(
            panels,
            parts,
            area,
            vertical,
            start,
            fraction,
            (k + 1) as nat,
        )
    }
}

proof fn lemma_panel_parts_frames(panels: Seq<PanelType>, parts: Seq<RufufDirection>, area: Rect, start: int, f: int, k: nat)
    requires
        k <= parts.len(),
        forall|j: int| 0 <= j < parts.len() ==> (#[trigger] parts[j]) is Panel,
    ensures
        frames_of_parts(panels, parts, area, true, start, f, k).len() == parts.len() - k,
        forall|j: int|
            0 <= j < parts.len() - k ==> #[trigger] frames_of_parts(panels, parts, area, true, start, f, k)[j]
                == (DisplayPanel {
                panel: panels[parts[k + j]->Panel_0 as int],
                area: part_area(area, true, start, f, k + j),
                cursor: Cords { x: 0, y: 0 },
            }),
    decreases parts.len() - k,
{
    if k < parts.len() {
        lemma_panel_parts_frames(panels, parts, area, start, f, (k + 1) as nat);
        let rest = frames_of_parts(panels, parts, area, true, start, f, (k + 1) as nat);
        let first = frames(panels, parts[k as int], part_area(area, true, start, f, k as int));
        assert(parts[k as int] is Panel);
        assert forall|j: int| 0 <= j < parts.len() - k implies #[trigger] frames_of_parts(panels, parts, area, true, start, f, k)[j]
            == (DisplayPanel {
                panel: panels[parts[k + j]->Panel_0 as int],
                area: part_area(area, true, start, f, k + j),
                cursor: Cords { x: 0, y: 0 },
            }) by {
            if j > 0 {
                assert(frames_of_parts(panels, parts, area, true, start, f, k)[j] == rest[j - 1]);
            }
        }
    }
}

/// Law: a vertical split whose parts are all panels gives the `k`th panel
/// the `k`th of equal bands of rows, top to bottom, as wide as the area and
/// inside it, when each band's area fits in a `u16` (larger ones ratatui
/// shrinks).
pub proof fn lemma_vertical_bands(panels: Seq<PanelType>, dir: RufufDirection, area: Rect)
    requires
        dir is Vertical,
        dir->Vertical_0@.len() > 0,
        split_fits(area, true, dir->Vertical_0@.len()),
        dir->Vertical_0@.len() <= u16::MAX,
        forall|j: int| 0 <= j < dir->Vertical_0@.len() ==> (#[trigger] dir->Vertical_0@[j]) is Panel,
        area.width * part_length(area, true, dir->Vertical_0@.len()) <= u16::MAX,
    ensures
        ({
            let v = dir->Vertical_0@;
            let f = part_length(area, true, v.len());
            let fr = frames(panels, dir, area);
            &&& f == (area.height as int) / (v.len() as int)
            &&& v.len() * f <= area.height
            &&& fr.len() == v.len()
            &&& forall|k: int|
                0 <= k < v.len() ==> (#[trigger] fr[k]).panel == panels[v[k]->Panel_0 as int] && fr[k].area == (Rect {
                    x: area.x,
                    y: (area.y + k * f) as u16,
                    width: area.width,
                    height: f as u16,
                }) && area.y + k * f + f <= area.y + v.len() * f
        }),
{
    let v = dir->Vertical_0@;
    let n = v.len() as int;
    let f = part_length(area, true, v.len());
    assert((n as u16) as int == n);
    assert(f == (area.height as int) / n);
    assert(n * f <= area.height) by (nonlinear_arith)
        requires
            f == (area.height as int) / n,
            n > 0,
    ;
    assert(0 <= f <= area.height) by (nonlinear_arith)
        requires
            f == (area.height as int) / n,
            n > 0,
            area.height >= 0,
    ;
    lemma_panel_parts_frames(panels, v, area, area.y as int, f, 0);
    let fr = frames(panels, dir, area);
    assert forall|k: int| 0 <= k < n implies (#[trigger] fr[k]).panel == panels[v[k]->Panel_0 as int] && fr[k].area == (Rect {
        x: area.x,
        y: (area.y + k * f) as u16,
        width: area.width,
        height: f as u16,
    }) && area.y + k * f + f <= area.y + n * f by {
        assert(k * f + f <= n * f) by (nonlinear_arith)
            requires
                0 <= k < n,
                f >= 0,
        ;
        assert(area.width * (f as u16) <= u16::MAX);
    }
}

/// Why a layout cannot be drawn.
#[derive(Debug, Clone, Copy, PartialEq, Eq)]
pub enum LayoutError {
    /// A split without parts.
    EmptySplit,
}

/// `dir` is a split without parts.
pub open spec fn is_empty_split(dir: RufufDirection) -> bool {
    match dir {
        RufufDirection::Panel(_) => false,
        RufufDirection::Vertical(v) => v@.len() == 0,
        RufufDirection::Horizontal(v) => v@.len() == 0,
    }
}

impl RufufLayout {
    /// A layout of the one panel.
    pub fn new(panel: PanelType) -> (l: Self)
        ensures
            l.panels@ == seq![panel],
            l.current_focused_panel == 0,
            l.layout matches RufufDirection::Vertical(v) && v@.len() == 1 && v@[0] matches RufufDirection::Panel(0),
    {
        let mut panels: Vec<PanelType> = Vec::new();
        panels.push(panel);
        let mut parts: Vec<RufufDirection> = Vec::new();
        parts.push(RufufDirection::Panel(0));
        let layout = RufufDirection::Vertical(parts);
        RufufLayout { panels, layout, current_focused_panel: 0 }
    }

    /// Adds a panel, and a part for the first panel to the vertical split.
    pub fn add(&mut self, panel: PanelType)
        requires
            old(self).layout is Vertical,
        ensures
            final(self).panels@ == old(self).panels@.push(panel),
            final(self).current_focused_panel == old(self).current_focused_panel,
            old(self).layout matches RufufDirection::Vertical(v0) && final(self).layout matches RufufDirection::Vertical(
                v1,
            ) && v1@.len() == v0@.len() + 1 && v1@.take(v0@.len() as int) == v0@ && v1@.last() matches RufufDirection::Panel(0),
    {
        self.panels.push(panel);
        match &mut self.layout {
            RufufDirection::Vertical(direction) => {
                direction.push(RufufDirection::Panel(0));
                assert(direction@.take(direction@.len() - 1) =~= old(self).layout->Vertical_0@);
            },
            RufufDirection::Horizontal(_) => vstd::pervasive::unreached(),
            RufufDirection::Panel(_) => vstd::pervasive::unreached(),
        }
    }

    /// The panel a layout index gives: always the first.
    pub fn index(&self, _index: usize) -> (p: &PanelType)
        requires
            self.panels@.len() > 0,
        ensures
            *p == self.panels@[0],
    {
        &self.panels[0]
    }

    /// The panel with the given index, to change.
    pub fn index_mut(&mut self, index: usize) -> (p: &mut PanelType)
        requires
            index < old(self).panels@.len(),
        ensures
            *p == old(self).panels@[index as int],
            final(self).panels@ == old(self).panels@.update(index as int, *final(p)),
    {
        &mut self.panels[index]
    }

    /// Lays `dir` out in `area`, appending its panels to `buffer`. An empty
    /// split is an error and adds nothing; inside a split, an empty part
    /// is left out and the others are laid out.
    fn idk(&self, dir: &RufufDirection, area: Rect, buffer: &mut Vec<DisplayPanel>) -> (r: Result<(), LayoutError>)
        requires
            frames_ok(self.panels@, *dir, area),
        ensures
            r is Err <==> is_empty_split(*dir),
            r is Err ==> final(buffer)@ == old(buffer)@,
            r is Ok ==> final(buffer)@ == old(buffer)@ + frames(self.panels@, *dir, area),
            forall|j: int|
                old(buffer)@.len() <= j < final(buffer)@.len() ==> inside(#[trigger] final(buffer)@[j].area, area),
        decreases *dir,
    {
        let ghost buf0 = buffer@;
        match dir {
            RufufDirection::Vertical(direction) => {
                let len = direction.len();
                if len == 0 {
                    return Err(LayoutError::EmptySplit);
                }
                let ghost fraction = part_length(area, true, len as nat);
                let mut start = area.y;
                let mut k: usize = 0;
                assert(buffer@ + frames_of_parts(self.panels@, direction@, area, true, area.y as int, fraction, 0)
                    =~= buf0 + frames(self.panels@, *dir, area));
                while k < len
                    invariant
                        len == direction@.len(),
                        k <= len,
                        fraction == part_length(area, true, len as nat),
                        split_fits(area, true, len as nat),
                        start == area.y + k * fraction,
                        parts_ok(self.panels@, direction@, area, true, area.y as int, fraction, k as nat),
                        *dir == RufufDirection::Vertical(*direction),
                        buffer@ + frames_of_parts(self.panels@, direction@, area, true, area.y as int, fraction, k as nat)
                            == buf0 + frames(self.panels@, *dir, area),
                        buffer@.len() >= buf0.len(),
                        forall|j: int| buf0.len() <= j < buffer@.len() ==> inside(#[trigger] buffer@[j].area, area),
                    decreases len - k,
                {
                    let fraction_here = area.height / (len as u16);
                    assert(fraction_here == fraction);
                    assert(start + fraction <= u16::MAX) by (nonlinear_arith)
                        requires
                            start == area.y + k * fraction,
                            area.y + len * fraction <= u16::MAX,
                            k < len,
                            fraction >= 0,
                    ;
                    let new_area = rect_new(area.x, start, area.width, fraction_here);
                    if len <= 65535 {
                        assert((len as u16) as int == len as int);
                        assert(len * fraction <= area.height) by (nonlinear_arith)
                            requires
                                fraction == (area.height as int) / (len as int),
                                len > 0,
                        ;
                    } else {
                        assert(fraction == 0) by (nonlinear_arith)
                            requires
                                len * fraction <= 65535,
                                len > 65535,
                                fraction >= 0,
                        ;
                        assert(len * fraction == 0) by (nonlinear_arith)
                            requires
                                fraction == 0,
                        ;
                    }
                    assert(k * fraction + fraction <= len * fraction) by (nonlinear_arith)
                        requires
                            k < len,
                            fraction >= 0,
                    ;
                    assert(k * fraction + fraction <= area.height);
                    assert(new_area.height <= fraction);
                    assert(inside(new_area, area));
                    assert(new_area == part_area(area, true, area.y as int, fraction, k as int));
                    start = start + fraction_here;
                    assert(start == area.y + (k + 1) * fraction) by (nonlinear_arith)
                        requires
                            start == area.y + k * fraction + fraction,
                    ;
                    let ghost before = buffer@;
                    assert(decreases_to!(*dir => direction@[k as int]));
                    let part_result = self.idk(&direction[k], new_area, buffer);
                    proof {
                        if part_result is Err {
                            let part = direction@[k as int];
                            if let RufufDirection::Vertical(v) = part {
                                assert(frames(self.panels@, part, new_area) =~= Seq::empty());
                            }
                            if let RufufDirection::Horizontal(v) = part {
                                assert(frames(self.panels@, part, new_area) =~= Seq::empty());
                            }
                        }
                        assert(buffer@ == before + frames(self.panels@, direction@[k as int], new_area));
                    }
                    assert(buffer@ + frames_of_parts(self.panels@, direction@, area, true, area.y as int, fraction, (k + 1) as nat)
                        =~= before + frames_of_parts(self.panels@, direction@, area, true, area.y as int, fraction, k as nat));
                    k = k + 1;
                }
                assert(buffer@ + frames_of_parts(self.panels@, direction@, area, true, area.y as int, fraction, len as nat)
                    =~= buffer@);
                Ok(())
            },
            RufufDirection::Horizontal(direction) => {
                let len = direction.len();
                if len == 0 {
                    return Err(LayoutError::EmptySplit);
                }
                let ghost fraction = part_length(area, false, len as nat);
                let mut start = area.x;
                let mut k: usize = 0;
                assert(buffer@ + frames_of_parts(self.panels@, direction@, area, false, area.x as int, fraction, 0)
                    =~= buf0 + frames(self.panels@, *dir, area));
                while k < len
                    invariant
                        len == direction@.len(),
                        k <= len,
                        fraction == part_length(area, false, len as nat),
                        split_fits(area, false, len as nat),
                        start == area.x + k * fraction,
                        parts_ok(self.panels@, direction@, area, false, area.x as int, fraction, k as nat),
                        *dir == RufufDirection::Horizontal(*direction),
                        buffer@ + frames_of_parts(self.panels@, direction@, area, false, area.x as int, fraction, k as nat)
                            == buf0 + frames(self.panels@, *dir, area),
                        buffer@.len() >= buf0.len(),
                        forall|j: int| buf0.len() <= j < buffer@.len() ==> inside(#[trigger] buffer@[j].area, area),
                    decreases len - k,
                {
                    let fraction_here = area.width / (len as u16);
                    assert(fraction_here == fraction);
                    assert(start + fraction <= u16::MAX) by (nonlinear_arith)
                        requires
                            start == area.x + k * fraction,
                            area.x + len * fraction <= u16::MAX,
                            k < len,
                            fraction >= 0,
                    ;
                    let new_area = rect_new(start, area.y, fraction_here, area.height);
                    if len <= 65535 {
                        assert((len as u16) as int == len as int);
                        assert(len * fraction <= area.width) by (nonlinear_arith)
                            requires
                                fraction == (area.width as int) / (len as int),
                                len > 0,
                        ;
                    } else {
                        assert(fraction == 0) by (nonlinear_arith)
                            requires
                                len * fraction <= 65535,
                                len > 65535,
                                fraction >= 0,
                        ;
                        assert(len * fraction == 0) by (nonlinear_arith)
                            requires
                                fraction == 0,
                        ;
                    }
                    assert(k * fraction + fraction <= len * fraction) by (nonlinear_arith)
                        requires
                            k < len,
                            fraction >= 0,
                    ;
                    assert(k * fraction + fraction <= area.width);
                    assert(new_area.width <= fraction);
                    assert(inside(new_area, area));
                    assert(new_area == part_area(area, false, area.x as int, fraction, k as int));
                    start = start + fraction_here;
                    assert(start == area.x + (k + 1) * fraction) by (nonlinear_arith)
                        requires
                            start == area.x + k * fraction + fraction,
                    ;
                    let ghost before = buffer@;
                    assert(decreases_to!(*dir => direction@[k as int]));
                    let part_result = self.idk(&direction[k], new_area, buffer);
                    proof {
                        if part_result is Err {
                            let part = direction@[k as int];
                            if let RufufDirection::Vertical(v) = part {
                                assert(frames(self.panels@, part, new_area) =~= Seq::empty());
                            }
                            if let RufufDirection::Horizontal(v) = part {
                                assert(frames(self.panels@, part, new_area) =~= Seq::empty());
                            }
                        }
                        assert(buffer@ == before + frames(self.panels@, direction@[k as int], new_area));
                    }
                    assert(buffer@ + frames_of_parts(self.panels@, direction@, area, false, area.x as int, fraction, (k + 1) as nat)
                        =~= before + frames_of_parts(self.panels@, direction@, area, false, area.x as int, fraction, k as nat));
                    k = k + 1;
                }
                assert(buffer@ + frames_of_parts(self.panels@, direction@, area, false, area.x as int, fraction, len as nat)
                    =~= buffer@);
                Ok(())
            },
            RufufDirection::Panel(number) => {
                let reference = &self.panels[*number];
                let display_panel = DisplayPanel::new(reference, area, Cords { x: 0, y: 0 });
                buffer.push(display_panel);
                assert(buffer@ =~= buf0 + frames(self.panels@, *dir, area));
                Ok(())
            },
        }
    }

    /// The panels of the layout laid out on a screen of the size `area`;
    /// every one lies inside it.
    pub fn get_display_frames(&self, area: Rect) -> (v: Vec<DisplayPanel>)
        requires
            frames_ok(self.panels@, self.layout, area),
            !is_empty_split(self.layout),
        ensures
            v@ == frames(self.panels@, self.layout, area),
            forall|k: int| 0 <= k < v@.len() ==> inside(#[trigger] v@[k].area, area),
    {
        let mut buffer: Vec<DisplayPanel> = Vec::new();
        let _ = self.idk(&self.layout, area, &mut buffer);
        assert(buffer@ =~= frames(self.panels@, self.layout, area));
        buffer
    }
}

} // verus!
