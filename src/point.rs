//! Points and offset vectors of the two-dimensional funge space.

use vstd::prelude::*;

verus! {

/// Negation of a cell value in two's complement, wrapping `i32::MIN` onto itself.
pub open spec fn neg(v: i32) -> i32 {
    0i32.wrapping_sub(v)
}

/// A point in funge space.
#[derive(Clone, Copy, Debug, PartialEq, Eq, Hash, Structural)]
pub struct Point {
    /// The x coordinate of the point.
    pub x: i32,
    /// The y coordinate of the point.
    pub y: i32,
}

/// An offset vector in funge space.
#[derive(Clone, Copy, Debug, PartialEq, Eq, Hash, Structural)]
pub struct Delta {
    /// The x component of the offset vector.
    pub dx: i32,
    /// The y component of the offset vector.
    pub dy: i32,
}

impl Point {
    /// `p + d`, componentwise and wrapping.
    pub open spec fn plus(self, d: Delta) -> Point {
        Point { x: self.x.wrapping_add(d.dx), y: self.y.wrapping_add(d.dy) }
    }

    /// `p - d`, componentwise and wrapping.
    pub open spec fn minus(self, d: Delta) -> Point {
        Point { x: self.x.wrapping_sub(d.dx), y: self.y.wrapping_sub(d.dy) }
    }

    /// Moves the point by the offset vector, wrapping around the `i32` range.
    pub fn add(self, d: Delta) -> (r: Point)
        ensures
            r == self.plus(d),
    {
        Point { x: self.x.wrapping_add(d.dx), y: self.y.wrapping_add(d.dy) }
    }

    /// Moves the point against the offset vector, wrapping around the `i32` range.
    pub fn sub(self, d: Delta) -> (r: Point)
        ensures
            r == self.minus(d),
    {
        Point { x: self.x.wrapping_sub(d.dx), y: self.y.wrapping_sub(d.dy) }
    }
}

impl Delta {
    /// The reversed vector.
    pub open spec fn reversed(self) -> Delta {
        Delta { dx: neg(self.dx), dy: neg(self.dy) }
    }

    /// The vector turned 90 degrees to the left: `(dx, dy) -> (dy, -dx)`.
    pub open spec fn left(self) -> Delta {
        Delta { dx: self.dy, dy: neg(self.dx) }
    }

    /// The vector turned 90 degrees to the right: `(dx, dy) -> (-dy, dx)`.
    pub open spec fn right(self) -> Delta {
        Delta { dx: neg(self.dy), dy: self.dx }
    }

    /// The vector multiplied by a scalar, wrapping.
    pub open spec fn scaled(self, n: i32) -> Delta {
        Delta { dx: self.dx.wrapping_mul(n), dy: self.dy.wrapping_mul(n) }
    }

    /// Returns the negative of the vector.
    pub fn reverse(&self) -> (r: Delta)
        ensures
            r == self.reversed(),
    {
        Delta { dx: 0i32.wrapping_sub(self.dx), dy: 0i32.wrapping_sub(self.dy) }
    }

    /// Returns the vector rotated 90 degrees to the left.
    pub fn rotate_left(&self) -> (r: Delta)
        ensures
            r == self.left(),
    {
        Delta { dx: self.dy, dy: 0i32.wrapping_sub(self.dx) }
    }

    /// Returns the vector rotated 90 degrees to the right.
    pub fn rotate_right(&self) -> (r: Delta)
        ensures
            r == self.right(),
    {
        Delta { dx: 0i32.wrapping_sub(self.dy), dy: self.dx }
    }

    /// Returns the vector multiplied by `n`, wrapping.
    pub fn mul(self, n: i32) -> (r: Delta)
        ensures
            r == self.scaled(n),
    {
        Delta { dx: self.dx.wrapping_mul(n), dy: self.dy.wrapping_mul(n) }
    }
}

/// Negating twice gives the value back, `i32::MIN` included.
pub proof fn lemma_neg_neg(v: i32)
    ensures
        neg(neg(v)) == v,
{
}

/// Reversing a vector twice gives the vector back.
pub proof fn lemma_reverse_reverse(d: Delta)
    ensures
        d.reversed().reversed() == d,
{
    lemma_neg_neg(d.dx);
    lemma_neg_neg(d.dy);
}

/// Turning right and then left gives the vector back, and so does turning
/// left and then right.
pub proof fn lemma_rotate_inverse(d: Delta)
    ensures
        d.right().left() == d,
        d.left().right() == d,
{
    lemma_neg_neg(d.dx);
    lemma_neg_neg(d.dy);
}

} // verus!
