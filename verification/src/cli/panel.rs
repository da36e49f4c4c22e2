//! A panel: a widget shown in a rectangle of the screen, maybe with a
//! viewer panel over it.
use vstd::prelude::*;

use crate::cli::tabs::RufLayout;
use crate::tools::{Rect, center};

verus! {

/// How a panel is drawn.
#[derive(Debug, Clone, Copy, PartialEq, Eq)]
pub struct PanelState {
    pub boxed: bool,
}

impl PanelState {
    pub fn new(boxed: bool) -> (s: Self)
        ensures
            s.boxed == boxed,
    {
        PanelState { boxed }
    }
}

/// A cursor position in a panel.
#[derive(Debug, Clone, Copy, PartialEq, Eq)]
pub struct CursorPos {
    pub x: u16,
    pub y: u16,
}

impl CursorPos {
    pub fn new(x: u16, y: u16) -> (c: Self)
        ensures
            c.x == x,
            c.y == y,
    {
        CursorPos { x, y }
    }
}

/// A panel showing the widget `buffer`. Panels are told apart by `id`; a
/// panel with its viewer open names the viewer's panel in `overlay`.
pub struct Panel<B> {
    pub buffer: B,
    pub cursor: CursorPos,
    pub state: PanelState,
    pub focus: bool,
    pub rect: Rect,
    pub overlay: Option<usize>,
    pub id: usize,
}

/// A viewer to open: its widget, its size and the id of its panel.
pub struct Viewer<B> {
    pub buffer: B,
    pub size: Rect,
    pub id: usize,
}

/// A new panel: cursor at the origin, drawn in a box, no viewer.
pub open spec fn new_panel<B>(buffer: B, focus: bool, rect: Rect, id: usize) -> Panel<B> {
    Panel {
        buffer,
        cursor: CursorPos { x: 0, y: 0 },
        state: PanelState { boxed: true },
        focus,
        rect,
        overlay: None,
        id,
    }
}

/// `p` without a viewer.
pub open spec fn without_overlay<B>(p: Panel<B>) -> Panel<B> {
    Panel { overlay: None, ..p }
}

/// `p` with the viewer panel `id`.
pub open spec fn with_overlay<B>(p: Panel<B>, id: usize) -> Panel<B> {
    Panel { overlay: Some(id), ..p }
}

/// Where a viewer of the size `divided` goes over a panel at `panel_rect`:
/// centred in it, then five rows down.
pub open spec fn overlay_rect(divided: Rect, panel_rect: Rect) -> Rect {
    Rect {
        x: ((panel_rect.width - divided.width) / 2) as u16,
        y: ((panel_rect.height - divided.height) / 2 + 5) as u16,
        width: divided.width,
        height: divided.height,
    }
}

/// A viewer of the size `divided` can be placed over a panel at `panel_rect`.
pub open spec fn overlay_fits(divided: Rect, panel_rect: Rect) -> bool {
    &&& divided.width <= panel_rect.width
    &&& divided.height <= panel_rect.height
    &&& (panel_rect.height - divided.height) / 2 + 5 <= u16::MAX
}

/// The index of the first panel of `panels` with the given id, if any.
pub open spec fn first_with_id<B>(panels: Seq<Panel<B>>, id: usize) -> Option<int>
    decreases panels.len(),
{
    if panels.len() == 0 {
        None
    } else {
        match first_with_id(panels.drop_last(), id) {
            Some(i) => Some(i),
            None => if panels.last().id == id {
                Some(panels.len() - 1)
            } else {
                None
            },
        }
    }
}

pub proof fn lemma_first_with_id_bounds<B>(panels: Seq<Panel<B>>, id: usize)
    ensures
        first_with_id(panels, id) matches Some(i) ==> 0 <= i < panels.len() && panels[i].id == id,
    decreases panels.len(),
{
    if panels.len() > 0 {
        lemma_first_with_id_bounds(panels.drop_last(), id);
    }
}

/// `panels` without the first panel with the given id.
pub open spec fn remove_id<B>(panels: Seq<Panel<B>>, id: usize) -> Seq<Panel<B>> {
    match first_with_id(panels, id) {
        Some(i) => panels.remove(i),
        None => panels,
    }
}

/// The index of the first panel with the given id in `panels`, if any.
pub fn find_id<B>(panels: &Vec<Panel<B>>, id: usize) -> (r: Option<usize>)
    ensures
        match r {
            Some(i) => first_with_id(panels@, id) == Some(i as int) && i < panels@.len(),
            None => first_with_id(panels@, id) is None,
        },
{
    let mut k: usize = 0;
    while k < panels.len()
        invariant
            k <= panels@.len(),
            first_with_id(panels@.take(k as int), id) is None,
        decreases panels@.len() - k,
    {
        assert(panels@.take(k + 1).drop_last() =~= panels@.take(k as int));
        if panels[k].id == id {
            proof {
                lemma_first_with_id_prefix(panels@, id, k as int);
            }
            assert(k < panels@.len());
            return Some(k);
        }
        k = k + 1;
    }
    assert(panels@.take(panels@.len() as int) =~= panels@);
    None
}

proof fn lemma_first_with_id_prefix<B>(panels: Seq<Panel<B>>, id: usize, k: int)
    requires
        0 <= k < panels.len(),
        first_with_id(panels.take(k), id) is None,
        panels[k].id == id,
    ensures
        first_with_id(panels, id) == Some(k),
    decreases panels.len(),
{
    assert(panels.take(k + 1).drop_last() =~= panels.take(k));
    if panels.len() > k + 1 {
        assert(panels.drop_last().take(k) =~= panels.take(k));
        lemma_first_with_id_prefix(panels.drop_last(), id, k);
    } else {
        assert(panels.take(k + 1) =~= panels);
    }
}

impl<B> Panel<B> {
    pub fn new(buffer: B, focus: bool, rect: Rect, id: usize) -> (p: Self)
        ensures
            p == new_panel(buffer, focus, rect, id),
    {
        let cursor = CursorPos::new(0, 0);
        let state = PanelState::new(true);
        Panel { buffer, cursor, state, focus, rect, overlay: None, id }
    }

    /// Opens or closes the viewer of the panel at `index` in `layout`. With
    /// a viewer open, the panel forgets it and the viewer's panel leaves the
    /// layout. Otherwise `viewer` gives the viewer's widget, its size and
    /// its id, which no panel of the layout has yet: a panel with them,
    /// unfocused, goes over this one (see `overlay_rect`) at the end of the
    /// layout.
    pub fn toggle_viewer(layout: &mut RufLayout<B>, index: usize, viewer: Option<Viewer<B>>)
        requires
            index < old(layout).panels@.len(),
            old(layout).panels@[index as int].overlay is None ==> (viewer matches Some(v) && overlay_fits(
                v.size,
                old(layout).panels@[index as int].rect,
            ) && forall|k: int| 0 <= k < old(layout).panels@.len() ==> (#[trigger] old(layout).panels@[k]).id != v.id),
        ensures
            final(layout).boundries == old(layout).boundries,
            ({
                let ps = old(layout).panels@;
                let p = ps[index as int];
                match p.overlay {
                    Some(ov) => final(layout).panels@ == remove_id(ps.update(index as int, without_overlay(p)), ov),
                    None => final(layout).panels@ == ps.update(index as int, with_overlay(p, viewer->0.id)).push(
                        new_panel(viewer->0.buffer, false, overlay_rect(viewer->0.size, p.rect), viewer->0.id),
                    ),
                }
            }),
    {
        let ghost ps = layout.panels@;
        match layout.panels[index].overlay {
            Some(ov) => {
                let mut p = layout.panels.remove(index);
                p.overlay = None;
                layout.panels.insert(index, p);
                assert(layout.panels@ =~= ps.update(index as int, without_overlay(ps[index as int])));
                match find_id(&layout.panels, ov) {
                    Some(i) => {
                        layout.panels.remove(i);
                    },
                    None => {},
                }
            },
            None => {
                match viewer {
                    Some(Viewer { buffer, size: divided, id }) => {
                        let panel_rect = layout.panels[index].rect;
                        let mut rect = center(divided, panel_rect);
                        rect.y = rect.y + 5;
                        let panel = Panel::new(buffer, false, rect, id);
                        let mut p = layout.panels.remove(index);
                        p.overlay = Some(id);
                        layout.panels.insert(index, p);
                        layout.panels.push(panel);
                        assert(layout.panels@ =~= ps.update(index as int, with_overlay(ps[index as int], id)).push(
                            new_panel(buffer, false, overlay_rect(divided, panel_rect), id),
                        ));
                    },
                    None => vstd::pervasive::unreached(),
                }
            },
        }
    }
}


proof fn lemma_first_with_id_absent<B>(panels: Seq<Panel<B>>, id: usize)
    requires
        forall|k: int| 0 <= k < panels.len() ==> (#[trigger] panels[k]).id != id,
    ensures
        first_with_id(panels, id) is None,
    decreases panels.len(),
{
    if panels.len() > 0 {
        lemma_first_with_id_absent(panels.drop_last(), id);
    }
}

/// Law: opening a viewer whose id no panel has and closing it again gives
/// back the same panels.
pub proof fn lemma_viewer_open_close<B>(ps: Seq<Panel<B>>, i: int, v: Viewer<B>)
    requires
        0 <= i < ps.len(),
        ps[i].overlay is None,
        forall|k: int| 0 <= k < ps.len() ==> (#[trigger] ps[k]).id != v.id,
    ensures
        ({
            let opened = ps.update(i, with_overlay(ps[i], v.id)).push(
                new_panel(v.buffer, false, overlay_rect(v.size, ps[i].rect), v.id),
            );
            &&& opened[i].overlay == Some(v.id)
            &&& remove_id(opened.update(i, without_overlay(opened[i])), v.id) == ps
        }),
{
    let opened = ps.update(i, with_overlay(ps[i], v.id)).push(
        new_panel(v.buffer, false, overlay_rect(v.size, ps[i].rect), v.id),
    );
    let closed = opened.update(i, without_overlay(opened[i]));
    let front = ps.update(i, with_overlay(ps[i], v.id)).update(i, without_overlay(opened[i]));
    assert(front =~= ps);
    assert(closed.drop_last() =~= front);
    lemma_first_with_id_absent(front, v.id);
    assert(first_with_id(closed, v.id) == Some(ps.len() as int));
    assert(closed.remove(ps.len() as int) =~= ps);
}

} // verus!
