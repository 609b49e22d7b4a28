//! Two-dimensional points used for cell coordinates and for world-space
//! positions (world space in fixed-point units).

use vstd::prelude::*;

verus! {

/// A pair of coordinates.  Grid code uses `Point<usize>` for cell
/// coordinates and `Point<i64>` for signed offsets and fixed-point
/// world positions.
#[derive(Clone, Copy, Debug, PartialEq, Eq, Structural)]
pub struct Point<T> {
    pub x: T,
    pub y: T,
}

impl<T: Copy> Point<T> {
    pub fn new(x: T, y: T) -> (r: Self)
        ensures
            r.x == x,
            r.y == y,
    {
        Self { x, y }
    }
}

impl Point<usize> {
    pub fn zero() -> (r: Self)
        ensures
            r.x == 0,
            r.y == 0,
    {
        Self { x: 0, y: 0 }
    }

    /// Linear cell index of this point in a grid of the given width.
    pub fn index(&self, width: usize) -> (r: usize)
        requires
            self.y * width + self.x <= usize::MAX,
        ensures
            r == self.y * width + self.x,
    {
        self.y * width + self.x
    }

    pub fn min(&self, other: Self) -> (r: Self)
        ensures
            r.x == if self.x <= other.x { self.x } else { other.x },
            r.y == if self.y <= other.y { self.y } else { other.y },
    {
        Self {
            x: if self.x <= other.x { self.x } else { other.x },
            y: if self.y <= other.y { self.y } else { other.y },
        }
    }

    pub fn max(&self, other: Self) -> (r: Self)
        ensures
            r.x == if self.x >= other.x { self.x } else { other.x },
            r.y == if self.y >= other.y { self.y } else { other.y },
    {
        Self {
            x: if self.x >= other.x { self.x } else { other.x },
            y: if self.y >= other.y { self.y } else { other.y },
        }
    }
}

impl Point<i64> {
    pub fn zero() -> (r: Self)
        ensures
            r.x == 0,
            r.y == 0,
    {
        Self { x: 0, y: 0 }
    }

    /// Componentwise absolute value.
    pub fn abs(&self) -> (r: Self)
        requires
            self.x > i64::MIN,
            self.y > i64::MIN,
        ensures
            r.x == if self.x >= 0 { self.x as int } else { -(self.x as int) },
            r.y == if self.y >= 0 { self.y as int } else { -(self.y as int) },
    {
        Self {
            x: if self.x >= 0 { self.x } else { -self.x },
            y: if self.y >= 0 { self.y } else { -self.y },
        }
    }

    /// Clamps each signed coordinate into `[0, max]` and converts to `usize`.
    pub fn clamp_usize(&self, max: Point<usize>) -> (r: Point<usize>)
        ensures
            r.x == if self.x < 0 { 0 } else if self.x as int > max.x as int { max.x as int } else { self.x as int },
            r.y == if self.y < 0 { 0 } else if self.y as int > max.y as int { max.y as int } else { self.y as int },
    {
        let x: usize = if self.x < 0 {
            0
        } else if self.x as u64 > max.x as u64 {
            max.x
        } else {
            self.x as usize
        };
        let y: usize = if self.y < 0 {
            0
        } else if self.y as u64 > max.y as u64 {
            max.y
        } else {
            self.y as usize
        };
        Point { x, y }
    }

    pub fn min(&self, other: Self) -> (r: Self)
        ensures
            r.x == if self.x <= other.x { self.x } else { other.x },
            r.y == if self.y <= other.y { self.y } else { other.y },
    {
        Self {
            x: if self.x <= other.x { self.x } else { other.x },
            y: if self.y <= other.y { self.y } else { other.y },
        }
    }

    pub fn max(&self, other: Self) -> (r: Self)
        ensures
            r.x == if self.x >= other.x { self.x } else { other.x },
            r.y == if self.y >= other.y { self.y } else { other.y },
    {
        Self {
            x: if self.x >= other.x { self.x } else { other.x },
            y: if self.y >= other.y { self.y } else { other.y },
        }
    }
}

} // verus!
