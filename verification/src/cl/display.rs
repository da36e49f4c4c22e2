//! The panels of the tree view as laid out on the screen, and the focus.
use vstd::prelude::*;

use crate::cl::events::CursorMov;
use crate::cl::fs_entries::{Cords, FsListLayout, counts_fit, flatten, lines_view};
use crate::cl::RufufLine;
use crate::tools::Rect;

verus! {

/// What a panel shows: a tree list, known by its number, or data.
#[derive(Debug, Clone, Copy, PartialEq, Eq)]
pub enum PanelType {
    FsList(usize),
    ShowData,
}

/// A panel with its area on the screen and its cursor.
#[derive(Debug, Clone, Copy, PartialEq, Eq)]
pub struct DisplayPanel {
    pub panel: PanelType,
    pub area: Rect,
    pub cursor: Cords,
}

/// The panels on the screen and which of them has the focus.
pub struct DisplayPanelsLayout {
    pub panels: Vec<DisplayPanel>,
    pub current_focused: usize,
}

/// A tree list with the lines it shows.
pub struct DisplayFsList {
    pub data: Vec<RufufLine>,
    pub reference: FsListLayout,
}

impl DisplayPanel {
    pub fn new(panel: &PanelType, area: Rect, offset: Cords) -> (p: DisplayPanel)
        ensures
            p.panel == *panel,
            p.area == area,
            p.cursor == offset,
    {
        DisplayPanel { panel: *panel, area, cursor: offset }
    }
}

impl DisplayFsList {
    /// The list with its lines computed.
    pub fn new(fs_list: FsListLayout) -> (l: Self)
        requires
            counts_fit(fs_list.nodes@),
            fs_list.nodes@.len() <= usize::MAX / 4,
        ensures
            l.reference == fs_list,
            lines_view(l.data@) == flatten(fs_list.nodes@, 0, 0, 0),
    {
        let data = fs_list.to_lines();
        DisplayFsList { data, reference: fs_list }
    }
}

/// The panel at `p` lies in direction `dir` from the focused panel at `f`:
/// right of it, left of (or level with) its left edge, below it (measured,
/// as the view does, from its left edge plus its height), or above (or level
/// with) its top.
pub open spec fn lies_towards(p: Rect, f: Rect, dir: CursorMov) -> bool {
    ||| dir.x == 1 && p.x >= f.x + f.width
    ||| dir.x == -1 && p.x <= f.x
    ||| dir.y == 1 && p.y >= f.x + f.height
    ||| dir.y == -1 && p.y <= f.y
}

/// The focused panel's edges can be computed in `u16`.
pub open spec fn edges_fit(f: Rect, dir: CursorMov) -> bool {
    &&& dir.x == 1 ==> f.x + f.width <= u16::MAX
    &&& dir.y == 1 ==> f.x + f.height <= u16::MAX
}

impl DisplayPanelsLayout {
    /// The first panel, in order, that lies in direction `dir` from the
    /// focused one.
    pub fn get_panel(&self, dir: CursorMov) -> (r: Option<usize>)
        requires
            self.current_focused < self.panels@.len(),
            edges_fit(self.panels@[self.current_focused as int].area, dir),
        ensures
            ({
                let f = self.panels@[self.current_focused as int].area;
                match r {
                    Some(i) => i < self.panels@.len() && lies_towards(self.panels@[i as int].area, f, dir)
                        && forall|j: int| 0 <= j < i ==> !lies_towards(#[trigger] self.panels@[j].area, f, dir),
                    None => forall|j: int|
                        0 <= j < self.panels@.len() ==> !lies_towards(#[trigger] self.panels@[j].area, f, dir),
                }
            }),
    {
        let focused = self.get_focused();
        let mut index: usize = 0;
        while index < self.panels.len()
            invariant
                index <= self.panels@.len(),
                *focused == self.panels@[self.current_focused as int],
                edges_fit(focused.area, dir),
                forall|j: int| 0 <= j < index ==> !lies_towards(#[trigger] self.panels@[j].area, focused.area, dir),
            decreases self.panels@.len() - index,
        {
            let panel = &self.panels[index];
            let mut hit = false;
            if dir.x == 1 {
                if panel.area.x >= focused.area.x + focused.area.width {
                    hit = true;
                }
            }
            if dir.x == -1 {
                if panel.area.x <= focused.area.x {
                    hit = true;
                }
            }
            if dir.y == 1 {
                if panel.area.y >= focused.area.x + focused.area.height {
                    hit = true;
                }
            }
            if dir.y == -1 {
                if panel.area.y <= focused.area.y {
                    hit = true;
                }
            }
            if hit {
                return Some(index);
            }
            index = index + 1;
        }
        None
    }

    /// The focused panel.
    pub fn get_focused(&self) -> (p: &DisplayPanel)
        requires
            self.current_focused < self.panels@.len(),
        ensures
            *p == self.panels@[self.current_focused as int],
    {
        &self.panels[self.current_focused]
    }

    /// The focused panel, to change.
    pub fn get_focused_mut(&mut self) -> (p: &mut DisplayPanel)
        requires
            old(self).current_focused < old(self).panels@.len(),
        ensures
            *p == old(self).panels@[old(self).current_focused as int],
            final(self).panels@ == old(self).panels@.update(old(self).current_focused as int, *final(p)),
            final(self).current_focused == old(self).current_focused,
    {
        &mut self.panels[self.current_focused]
    }

    /// No panels.
    pub fn empty() -> (l: DisplayPanelsLayout)
        ensures
            l.panels@.len() == 0,
            l.current_focused == 0,
    {
        DisplayPanelsLayout { panels: Vec::new(), current_focused: 0 }
    }
}

} // verus!
