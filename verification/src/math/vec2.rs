//! Pairs of numbers: a position or an extent of rows and columns.

use vstd::prelude::*;

verus! {

/// A pair `(x, y)`.
#[derive(Copy, Clone)]
pub struct Vec2<T> {
    pub x: T,
    pub y: T,
}

impl Vec2<usize> {
    /// The pair `(_x, _y)`.
    pub fn new(_x: usize, _y: usize) -> (v: Self)
        ensures
            v.x == _x,
            v.y == _y,
    {
        Vec2 { x: _x, y: _y }
    }

    /// The sum of two pairs, component by component.
    pub fn plus(self, rhs: Vec2<usize>) -> (v: Self)
        requires
            self.x + rhs.x <= usize::MAX,
            self.y + rhs.y <= usize::MAX,
        ensures
            v.x == self.x + rhs.x,
            v.y == self.y + rhs.y,
    {
        Vec2 { x: self.x + rhs.x, y: self.y + rhs.y }
    }

    /// The difference of two pairs, component by component.
    pub fn minus(self, rhs: Vec2<usize>) -> (v: Self)
        requires
            self.x >= rhs.x,
            self.y >= rhs.y,
        ensures
            v.x == self.x - rhs.x,
            v.y == self.y - rhs.y,
    {
        Vec2 { x: self.x - rhs.x, y: self.y - rhs.y }
    }

    /// The dot product of two pairs.
    pub fn dot(self, rhs: Vec2<usize>) -> (product: usize)
        requires
            self.x * rhs.x + self.y * rhs.y <= usize::MAX,
        ensures
            product == self.x * rhs.x + self.y * rhs.y,
    {
        assert(self.x * rhs.x >= 0 && self.y * rhs.y >= 0) by (nonlinear_arith);
        self.x * rhs.x + self.y * rhs.y
    }

    /// The pair scaled by `rhs`.
    pub fn scaled(self, rhs: usize) -> (v: Self)
        requires
            self.x * rhs <= usize::MAX,
            self.y * rhs <= usize::MAX,
        ensures
            v.x == self.x * rhs,
            v.y == self.y * rhs,
    {
        Vec2 { x: self.x * rhs, y: self.y * rhs }
    }
}

} // verus!
