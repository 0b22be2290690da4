//! Small screen-space value types used by the drawing layer around this
//! library: an axis-aligned rectangle, an integer point and a color.

use vstd::prelude::*;

verus! {

/// An axis-aligned rectangle in screen space: `x`, `y` is the top-left
/// corner, `w` and `h` the extent.
#[derive(PartialEq, Eq, Structural, Clone, Copy, Hash, Debug)]
pub struct Rect {
    pub x: i32,
    pub y: i32,
    pub w: u16,
    pub h: u16,
}

impl Rect {
    /// Moves the rectangle by the given offsets, keeping its extent.
    pub fn translate(&mut self, x: i32, y: i32)
        requires
            i32::MIN <= old(self).x + x <= i32::MAX,
            i32::MIN <= old(self).y + y <= i32::MAX,
        ensures
            final(self).x == old(self).x + x,
            final(self).y == old(self).y + y,
            final(self).w == old(self).w,
            final(self).h == old(self).h,
    {
        self.x += x;
        self.y += y;
    }
}

/// An integer point or offset in screen space.
#[derive(PartialEq, Eq, Structural, Clone, Copy, Hash, Debug)]
pub struct Vec2i(pub i32, pub i32);

/// A color with red, green, blue and alpha channels.
#[derive(PartialEq, Eq, Structural, Clone, Copy, Hash, Debug)]
pub struct Rgba(pub u8, pub u8, pub u8, pub u8);

} // verus!
