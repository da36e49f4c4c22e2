//! The layout of the panel view: how the screen is shared, and the panels.
use vstd::prelude::*;

use crate::cli::panel::{Panel, first_with_id, find_id};
use crate::tools::{Rect, center};

verus! {

/// How a part of the screen is split: side by side, one above the other,
/// or a panel by its id.
pub enum Directions {
    Horizontal(Vec<Boundry>),
    Vertical(Vec<Boundry>),
    Panel(usize),
}

/// A part of the screen: the percentage of it used, and how it is split.
pub struct Boundry {
    pub ratio: usize,
    pub directions: Directions,
}

impl Boundry {
    pub fn new(ratio: usize, directions: Directions) -> (b: Self)
        ensures
            b.ratio == ratio,
            b.directions == directions,
    {
        Boundry { ratio, directions }
    }
}

/// The panels and how the screen is shared among them.
pub struct RufLayout<B> {
    pub boundries: Boundry,
    pub panels: Vec<Panel<B>>,
}

impl<B> RufLayout<B> {
    /// A layout of one panel using the whole screen.
    pub fn new(panel: Panel<B>) -> (l: Self)
        ensures
            l.boundries.ratio == 100,
            l.boundries.directions == Directions::Panel(panel.id),
            l.panels@ == seq![panel],
    {
        let boundries = Boundry::new(100, Directions::Panel(panel.id));
        let mut panels: Vec<Panel<B>> = Vec::new();
        panels.push(panel);
        RufLayout { boundries, panels }
    }

    /// Sizes the panel of a one-panel layout on a screen `frame`: the
    /// rectangle `divided`, the layout's share of the screen, centred in it.
    pub fn update_panels_size(&mut self, frame: Rect, divided: Rect)
        requires
            old(self).boundries.directions matches Directions::Panel(id) && first_with_id(old(self).panels@, id) is Some,
            divided.width <= frame.width,
            divided.height <= frame.height,
        ensures
            final(self).boundries == old(self).boundries,
            old(self).boundries.directions matches Directions::Panel(id) && ({
                let i = first_with_id(old(self).panels@, id)->0;
                let p = old(self).panels@[i];
                final(self).panels@ == old(self).panels@.update(
                    i,
                    Panel {
                        rect: Rect {
                            x: ((frame.width - divided.width) / 2) as u16,
                            y: ((frame.height - divided.height) / 2) as u16,
                            width: divided.width,
                            height: divided.height,
                        },
                        ..p
                    },
                )
            }),
    {
        let ghost ps = self.panels@;
        match &self.boundries.directions {
            Directions::Panel(id) => {
                let rect = center(divided, frame);
                match find_id(&self.panels, *id) {
                    Some(i) => {
                        let mut p = self.panels.remove(i);
                        p.rect = rect;
                        self.panels.insert(i, p);
                        assert(self.panels@ =~= ps.update(i as int, Panel { rect, ..ps[i as int] }));
                    },
                    None => vstd::pervasive::unreached(),
                }
            },
            _ => vstd::pervasive::unreached(),
        }
    }

    /// The index of the first focused panel.
    pub fn get_current_focus(&self) -> (i: usize)
        requires
            exists|k: int| 0 <= k < self.panels@.len() && (#[trigger] self.panels@[k]).focus,
        ensures
            i < self.panels@.len(),
            self.panels@[i as int].focus,
            forall|k: int| 0 <= k < i ==> !(#[trigger] self.panels@[k]).focus,
    {
        let mut k: usize = 0;
        while k < self.panels.len()
            invariant
                k <= self.panels@.len(),
                exists|k: int| 0 <= k < self.panels@.len() && (#[trigger] self.panels@[k]).focus,
                forall|j: int| 0 <= j < k ==> !(#[trigger] self.panels@[j]).focus,
            decreases self.panels@.len() - k,
        {
            if self.panels[k].focus {
                return k;
            }
            k = k + 1;
        }
        vstd::pervasive::unreached()
    }
}

} // verus!
