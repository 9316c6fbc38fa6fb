//! Integer geometry used by the layout and render phases.
//!
//! Bounds are relative to the parent entity's origin.
use vstd::prelude::*;

verus! {

/// A point in window coordinates.
#[derive(Clone, Copy, Debug, PartialEq, Eq, Structural)]
pub struct Point {
    pub x: i32,
    pub y: i32,
}

/// A size constraint: the width and height an entity asks for.
#[derive(Clone, Copy, Debug, PartialEq, Eq, Structural)]
pub struct Constraint {
    pub width: u32,
    pub height: u32,
}

/// A rectangle whose origin is an offset inside the parent's area.
#[derive(Clone, Copy, Debug, PartialEq, Eq, Structural)]
pub struct Rectangle {
    pub x: u32,
    pub y: u32,
    pub width: u32,
    pub height: u32,
}

/// How an entity is placed inside the area of its parent.
#[derive(Clone, Copy, Debug, PartialEq, Eq, Structural)]
pub enum Layout {
    /// Fill the parent's area, less `margin` on every side.
    Stretch { margin: u32 },
    /// Take the entity's own constraint (or the whole area when it has none),
    /// clipped to the parent's area less `margin` on every side.
    Sized { margin: u32 },
}

impl Rectangle {
    /// The rectangle lies inside an area of `width` by `height` at the origin.
    pub open spec fn fits_in(self, width: int, height: int) -> bool {
        self.x + self.width <= width && self.y + self.height <= height
    }

    pub open spec fn is_empty_spec(self) -> bool {
        self.width == 0 || self.height == 0
    }

    /// True when the rectangle covers no area.
    pub fn is_empty(&self) -> (r: bool)
        ensures
            r == self.is_empty_spec(),
    {
        self.width == 0 || self.height == 0
    }

    pub open spec fn from_constraint_spec(c: Constraint) -> Rectangle {
        Rectangle { x: 0, y: 0, width: c.width, height: c.height }
    }

    /// The rectangle at the origin with the size of `c`.
    pub fn from_constraint(c: Constraint) -> (r: Rectangle)
        ensures
            r == Rectangle::from_constraint_spec(c),
    {
        Rectangle { x: 0, y: 0, width: c.width, height: c.height }
    }
}

/// Offset and length left on one axis of length `len` after `margin` on both ends;
/// a margin too large for the axis leaves nothing, at the far end.
pub open spec fn inset_axis(len: u32, margin: u32) -> (u32, u32) {
    if 2 * margin <= len {
        (margin, (len - 2 * margin) as u32)
    } else {
        (len, 0u32)
    }
}

pub open spec fn min_u32(a: u32, b: u32) -> u32 {
    if a <= b { a } else { b }
}

/// Where `layout` places an entity inside a parent area of `width` by `height`,
/// given the entity's own constraint, if it has one.
pub open spec fn arrange_spec(layout: Layout, desired: Option<Constraint>, width: u32, height: u32) -> Rectangle {
    match layout {
        Layout::Stretch { margin } => {
            let (x, w) = inset_axis(width, margin);
            let (y, h) = inset_axis(height, margin);
            Rectangle { x, y, width: w, height: h }
        },
        Layout::Sized { margin } => {
            let (x, w) = inset_axis(width, margin);
            let (y, h) = inset_axis(height, margin);
            match desired {
                Some(c) => Rectangle { x, y, width: min_u32(c.width, w), height: min_u32(c.height, h) },
                None => Rectangle { x, y, width: w, height: h },
            }
        },
    }
}

fn inset(len: u32, margin: u32) -> (r: (u32, u32))
    ensures
        r == inset_axis(len, margin),
{
    if 2 * (margin as u64) <= len as u64 {
        (margin, len - 2 * margin)
    } else {
        (len, 0)
    }
}

/// Places an entity inside its parent's area; the result always lies inside that area.
pub fn arrange(layout: Layout, desired: Option<Constraint>, width: u32, height: u32) -> (r: Rectangle)
    ensures
        r == arrange_spec(layout, desired, width, height),
        r.fits_in(width as int, height as int),
{
    match layout {
        Layout::Stretch { margin } => {
            let (x, w) = inset(width, margin);
            let (y, h) = inset(height, margin);
            Rectangle { x, y, width: w, height: h }
        },
        Layout::Sized { margin } => {
            let (x, w) = inset(width, margin);
            let (y, h) = inset(height, margin);
            match desired {
                Some(c) => {
                    let cw = if c.width <= w { c.width } else { w };
                    let ch = if c.height <= h { c.height } else { h };
                    Rectangle { x, y, width: cw, height: ch }
                },
                None => Rectangle { x, y, width: w, height: h },
            }
        },
    }
}

/// Wherever a layout strategy places an entity, it lies inside its parent's area.
pub proof fn lemma_arrange_fits(layout: Layout, desired: Option<Constraint>, width: u32, height: u32)
    ensures
        arrange_spec(layout, desired, width, height).fits_in(width as int, height as int),
{
}

} // verus!
