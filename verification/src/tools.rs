//! Geometry on terminal cells: rectangles, clamping and centring.
use vstd::prelude::*;

verus! {

/// A rectangle of terminal cells: its top-left corner and its size.
#[derive(Clone, Copy, Debug, PartialEq, Eq)]
pub struct Rect {
    pub x: u16,
    pub y: u16,
    pub width: u16,
    pub height: u16,
}

/// `a + b` in `u16`, stopping at the largest value.
pub open spec fn sat_add(a: u16, b: u16) -> u16 {
    if a + b > u16::MAX {
        u16::MAX
    } else {
        (a + b) as u16
    }
}

/// `a - b` in `u16`, stopping at zero.
pub open spec fn sat_sub(a: u16, b: u16) -> u16 {
    if a < b {
        0
    } else {
        (a - b) as u16
    }
}

/// The area inside a one-cell border drawn all around `r`.
pub open spec fn bordered_inner_spec(r: Rect) -> Rect {
    let x = if sat_add(r.x, 1) < sat_add(r.x, r.width) {
        sat_add(r.x, 1)
    } else {
        sat_add(r.x, r.width)
    };
    let y = if sat_add(r.y, 1) < sat_add(r.y, r.height) {
        sat_add(r.y, 1)
    } else {
        sat_add(r.y, r.height)
    };
    Rect {
        x,
        y,
        width: sat_sub(sat_sub(r.width, 1), 1),
        height: sat_sub(sat_sub(r.height, 1), 1),
    }
}

/// The size that ratatui's `Rect::new` gives a rectangle whose area does not
/// fit in a `u16`.
pub uninterp spec fn clipped_size(width: u16, height: u16) -> (u16, u16);

/// Builds a rectangle with ratatui's `Rect::new`. That function keeps the
/// corner, and keeps the size whenever `width * height` fits in a `u16`;
/// otherwise it shrinks the size, keeping the aspect ratio, by a floating
/// point computation on the two sizes alone, which is named here: the new
/// height is the square root of `u16::MAX` over the aspect ratio and the
/// new width that times the ratio, each truncated, so neither grows.
#[verifier::external_body]
pub(crate) fn rect_new(x: u16, y: u16, width: u16, height: u16) -> (r: Rect)
    ensures
        r.x == x,
        r.y == y,
        width * height <= u16::MAX ==> r.width == width && r.height == height,
        width * height > u16::MAX ==> (r.width, r.height) == clipped_size(width, height),
        r.width <= width,
        r.height <= height,
{
    let r = ratatui::layout::Rect::new(x, y, width, height);
    Rect { x: r.x, y: r.y, width: r.width, height: r.height }
}

/// The inner area of ratatui's `Block::bordered()` around `area`
/// (`Block::inner`): one cell comes off each side, without going below zero
/// or past the right and bottom edges.
#[verifier::external_body]
pub(crate) fn bordered_inner(area: Rect) -> (r: Rect)
    ensures
        r == bordered_inner_spec(area),
{
    let outer = ratatui::layout::Rect {
        x: area.x,
        y: area.y,
        width: area.width,
        height: area.height,
    };
    let inner = ratatui::widgets::Block::bordered().inner(outer);
    Rect { x: inner.x, y: inner.y, width: inner.width, height: inner.height }
}

/// `r` lies inside `a`.
pub open spec fn inside(r: Rect, a: Rect) -> bool {
    &&& a.x <= r.x
    &&& r.x + r.width <= a.x + a.width
    &&& a.y <= r.y
    &&& r.y + r.height <= a.y + a.height
}

/// One coordinate of `clamp`: `p` kept between `base + off` and
/// `base + len - off - 1`.
pub open spec fn clamp_axis(p: u16, base: u16, len: u16, off: u16) -> u16 {
    if p < base + off {
        (base + off) as u16
    } else if p > base + len - off - 1 {
        (base + len - off - 1) as u16
    } else {
        p
    }
}

/// The bounds of one coordinate of `clamp` can be computed in `u16`.
pub open spec fn clamp_axis_fits(p: u16, base: u16, len: u16, off: u16) -> bool {
    &&& base + off <= u16::MAX
    &&& p >= base + off ==> base + len <= u16::MAX && base + len >= off + 1
}

/// The border width that `clamp` keeps clear.
pub open spec fn border_offset(bordered: bool) -> u16 {
    if bordered {
        1
    } else {
        0
    }
}

fn clamp_one(p: u16, base: u16, len: u16, off: u16) -> (r: u16)
    requires
        clamp_axis_fits(p, base, len, off),
    ensures
        r == clamp_axis(p, base, len, off),
{
    if p < base + off {
        base + off
    } else if p > base + len - off - 1 {
        base + len - off - 1
    } else {
        p
    }
}

/// Moves `pos` into `rect`; with `bordered`, also off the one-cell border.
pub fn clamp(pos: (u16, u16), rect: Rect, bordered: bool) -> (r: (u16, u16))
    requires
        clamp_axis_fits(pos.0, rect.x, rect.width, border_offset(bordered)),
        clamp_axis_fits(pos.1, rect.y, rect.height, border_offset(bordered)),
    ensures
        r.0 == clamp_axis(pos.0, rect.x, rect.width, border_offset(bordered)),
        r.1 == clamp_axis(pos.1, rect.y, rect.height, border_offset(bordered)),
{
    let offset: u16 = if bordered {
        1
    } else {
        0
    };
    let x = clamp_one(pos.0, rect.x, rect.width, offset);
    let y = clamp_one(pos.1, rect.y, rect.height, offset);
    (x, y)
}

/// The value `clamp_simple` gives.
pub open spec fn clamp_simple_spec(value: u16, start: u16, end: u16) -> u16 {
    if value < start {
        start
    } else if value > end {
        end
    } else {
        value
    }
}

/// `value`, raised to `start` or lowered to `end` when it lies outside them.
pub fn clamp_simple(value: u16, start: u16, end: u16) -> (r: u16)
    ensures
        r == clamp_simple_spec(value, start, end),
{
    if value < start {
        return start;
    } else if value > end {
        return end;
    }
    value
}

/// The rectangle of `rect`'s size centred in `term_size`.
pub fn center(rect: Rect, term_size: Rect) -> (r: Rect)
    requires
        rect.width <= term_size.width,
        rect.height <= term_size.height,
    ensures
        r.x == (term_size.width - rect.width) / 2,
        r.y == (term_size.height - rect.height) / 2,
        r.width == rect.width,
        r.height == rect.height,
{
    let x = (term_size.width - rect.width) / 2;
    let y = (term_size.height - rect.height) / 2;
    Rect { x, y, width: rect.width, height: rect.height }
}

/// Law: the rectangle `center` gives lies inside the terminal, with as much
/// room on its right (or below) as on its left (or above), or one cell more.
pub proof fn lemma_center_inside(rect: Rect, term_size: Rect)
    requires
        rect.width <= term_size.width,
        rect.height <= term_size.height,
    ensures
        ({
            let x = (term_size.width - rect.width) / 2;
            let y = (term_size.height - rect.height) / 2;
            &&& x + rect.width <= term_size.width
            &&& y + rect.height <= term_size.height
            &&& term_size.width - (x + rect.width) - x == (term_size.width - rect.width) % 2
            &&& term_size.height - (y + rect.height) - y == (term_size.height - rect.height) % 2
        }),
{
}

/// Law: with `start <= end`, `clamp_simple` lands between them, leaves a
/// value already there alone, and clamping twice changes nothing more.
pub proof fn lemma_clamp_simple_range(value: u16, start: u16, end: u16)
    requires
        start <= end,
    ensures
        start <= clamp_simple_spec(value, start, end) <= end,
        start <= value <= end ==> clamp_simple_spec(value, start, end) == value,
        clamp_simple_spec(clamp_simple_spec(value, start, end), start, end)
            == clamp_simple_spec(value, start, end),
{
}

/// Law: when the rectangle is at least `2 * off + 1` cells long, `clamp`
/// puts the coordinate between `base + off` and `base + len - off - 1`, keeps
/// a coordinate already there, and a second clamp changes nothing.
pub proof fn lemma_clamp_axis_inside(p: u16, base: u16, len: u16, off: u16)
    requires
        clamp_axis_fits(p, base, len, off),
        base + len <= u16::MAX,
        len >= 2 * off + 1,
    ensures
        base + off <= clamp_axis(p, base, len, off) <= base + len - off - 1,
        base + off <= p <= base + len - off - 1 ==> clamp_axis(p, base, len, off) == p,
        clamp_axis(clamp_axis(p, base, len, off), base, len, off) == clamp_axis(p, base, len, off),
{
}

} // verus!
