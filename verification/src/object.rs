use vstd::prelude::*;
use crate::tile::{Grid, spec_blocked, is_blocked};

verus! {

/// An RGB color, stored as plain channel values; the presentation layer
/// converts it to whatever its rendering backend expects.
#[derive(Clone, Copy, Debug, PartialEq, Eq, Structural)]
pub struct Color {
    pub r: u8,
    pub g: u8,
    pub b: u8,
}

/// A movable entity on the grid: a position, a display glyph and a color.
#[derive(Clone, Copy, Debug)]
pub struct Object {
    pub x: i32,
    pub y: i32,
    pub ch: char,
    pub color: Color,
}

impl Object {
    pub fn new(x: i32, y: i32, ch: char, color: Color) -> (o: Object)
        ensures
            o.x == x && o.y == y && o.ch == ch && o.color == color,
    {
        Object { x, y, ch, color }
    }

    /// Apply the position delta when the destination cell is inside the
    /// grid and does not block movement; otherwise stay in place.
    pub fn move_by(&mut self, dx: i32, dy: i32, grid: &Grid)
        requires
            i32::MIN <= old(self).x + dx <= i32::MAX,
            i32::MIN <= old(self).y + dy <= i32::MAX,
        ensures
            final(self).ch == old(self).ch && final(self).color == old(self).color,
            if spec_blocked(grid@, old(self).x + dx, old(self).y + dy) {
                final(self).x == old(self).x && final(self).y == old(self).y
            } else {
                final(self).x == old(self).x + dx && final(self).y == old(self).y + dy
            },
    {
        let nx = self.x + dx;
        let ny = self.y + dy;
        if !is_blocked(grid, nx, ny) {
            self.x = nx;
            self.y = ny;
        }
    }
}

} // verus!
