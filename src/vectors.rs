//! Two-dimensional vectors.

use vstd::prelude::*;

verus! {

/// A two-dimensional vector.
#[derive(PartialEq, Eq, Copy, Clone, Debug)]
pub struct Vec2<T> {
    pub x: T,
    pub y: T,
}

impl<T> Vec2<T> {
    /// The vector `(x, y)`.
    pub fn new(x: T, y: T) -> (r: Vec2<T>)
        ensures
            r.x == x,
            r.y == y,
    {
        Vec2 { x, y }
    }
}

/// Integer vectors: offsets between grid cells.
impl Vec2<i32> {
    /// The vector of length zero.
    pub fn zero() -> (r: Vec2<i32>)
        ensures
            r.x == 0 && r.y == 0,
    {
        Vec2 { x: 0, y: 0 }
    }

    /// The unit vector along x.
    pub fn unit_x() -> (r: Vec2<i32>)
        ensures
            r.x == 1 && r.y == 0,
    {
        Vec2 { x: 1, y: 0 }
    }

    /// The unit vector along y.
    pub fn unit_y() -> (r: Vec2<i32>)
        ensures
            r.x == 0 && r.y == 1,
    {
        Vec2 { x: 0, y: 1 }
    }

    /// The dot product with `other`.
    pub fn dot(&self, other: &Vec2<i32>) -> (r: i128)
        ensures
            r == self.x * other.x + self.y * other.y,
    {
        assert(-0x4000_0000_0000_0000 <= self.x * other.x <= 0x4000_0000_0000_0000) by (nonlinear_arith)
            requires
                -0x8000_0000 <= self.x < 0x8000_0000,
                -0x8000_0000 <= other.x < 0x8000_0000,
        ;
        assert(-0x4000_0000_0000_0000 <= self.y * other.y <= 0x4000_0000_0000_0000) by (nonlinear_arith)
            requires
                -0x8000_0000 <= self.y < 0x8000_0000,
                -0x8000_0000 <= other.y < 0x8000_0000,
        ;
        (self.x as i128) * (other.x as i128) + (self.y as i128) * (other.y as i128)
    }

    /// The squared length, which needs no square root.
    pub fn length_sqr(&self) -> (r: i128)
        ensures
            r == self.x * self.x + self.y * self.y,
    {
        self.dot(self)
    }

    /// The vector scaled by `scalar`, where both products fit in an `i32`.
    pub fn scale(&self, scalar: i32) -> (r: Vec2<i32>)
        requires
            i32::MIN <= self.x * scalar <= i32::MAX,
            i32::MIN <= self.y * scalar <= i32::MAX,
        ensures
            r.x == self.x * scalar,
            r.y == self.y * scalar,
    {
        Vec2 { x: self.x * scalar, y: self.y * scalar }
    }
}

} // verus!
