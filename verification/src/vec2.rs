//! A pair of 16-bit cell coordinates, used for pane positions and sizes.

use vstd::prelude::*;

verus! {

/// A two-dimensional point or extent in terminal cells.
#[derive(Debug, Clone, Copy, PartialEq, Eq, Structural)]
pub struct Vec2(pub u16, pub u16);

impl Vec2 {
    /// The point `(x, y)`.
    pub fn new(x: u16, y: u16) -> (r: Vec2)
        ensures
            r.0 == x,
            r.1 == y,
    {
        Vec2(x, y)
    }

    /// The horizontal component.
    pub fn x(&self) -> (r: u16)
        ensures
            r == self.0,
    {
        self.0
    }

    /// The vertical component.
    pub fn y(&self) -> (r: u16)
        ensures
            r == self.1,
    {
        self.1
    }

    /// The horizontal component, for writing.
    pub fn x_mut(&mut self) -> (r: &mut u16)
        ensures
            *r == old(self).0,
            final(self).0 == *final(r),
            final(self).1 == old(self).1,
    {
        &mut self.0
    }

    /// The vertical component, for writing.
    pub fn y_mut(&mut self) -> (r: &mut u16)
        ensures
            *r == old(self).1,
            final(self).1 == *final(r),
            final(self).0 == old(self).0,
    {
        &mut self.1
    }

    /// The product of the squared components.
    pub fn len_squared(&self) -> (r: u16)
        requires
            self.0 * self.0 * (self.1 * self.1) <= u16::MAX,
        ensures
            r == self.0 * self.0 * (self.1 * self.1),
    {
        let a = self.0 as u64;
        let b = self.1 as u64;
        proof {
            assert(a * a <= 0xFFFF * 0xFFFF && b * b <= 0xFFFF * 0xFFFF && (a * a) * (b * b) == (
            a * a * (b * b))) by (nonlinear_arith)
                requires
                    a <= 0xFFFF,
                    b <= 0xFFFF,
            ;
            assert((a * a) * (b * b) <= 0xFFFF * 0xFFFF * (0xFFFF * 0xFFFF)) by (nonlinear_arith)
                requires
                    a * a <= 0xFFFF * 0xFFFF,
                    b * b <= 0xFFFF * 0xFFFF,
            ;
        }
        let total = (a * a) * (b * b);
        total as u16
    }
}

} // verus!
