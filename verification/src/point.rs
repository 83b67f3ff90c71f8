//! Grid coordinates and the small arithmetic the centring of a pattern needs.

use vstd::prelude::*;
use vstd::arithmetic::power2::pow2;
use vstd::bits::lemma_usize_shr_is_div;

verus! {

/// Distance between two numbers.
pub open spec fn gap(a: int, b: int) -> int {
    if a >= b {
        a - b
    } else {
        b - a
    }
}

/// A position in the grid: a row and a column, both counted from zero.
#[derive(Clone, Copy, Debug, PartialEq, Eq, Structural)]
pub struct Point {
    pub row: usize,
    pub col: usize,
}

impl Point {
    /// The point whose coordinates are the distances between those of `self` and `p`.
    pub open spec fn spec_sub(self, p: Point) -> Point {
        Point {
            row: gap(self.row as int, p.row as int) as usize,
            col: gap(self.col as int, p.col as int) as usize,
        }
    }

    /// The point whose coordinates are the distances of those of `self` from `s`.
    pub open spec fn spec_sub_scalar(self, s: usize) -> Point {
        self.spec_sub(Point { row: s, col: s })
    }

    /// The point whose coordinates are those of `self` divided by two, `n` times over.
    pub open spec fn spec_shr(self, n: nat) -> Point {
        Point {
            row: (self.row as nat / pow2(n)) as usize,
            col: (self.col as nat / pow2(n)) as usize,
        }
    }

    /// Component-wise absolute difference of two points.
    pub fn sub(self, p: Point) -> (r: Point)
        ensures
            r == self.spec_sub(p),
            r.row == gap(self.row as int, p.row as int),
            r.col == gap(self.col as int, p.col as int),
    {
        Point { row: distance(self.row, p.row), col: distance(self.col, p.col) }
    }

    /// Component-wise absolute difference of a point and a number.
    pub fn sub_scalar(self, s: usize) -> (r: Point)
        ensures
            r == self.spec_sub_scalar(s),
            r.row == gap(self.row as int, s as int),
            r.col == gap(self.col as int, s as int),
    {
        Point { row: distance(self.row, s), col: distance(self.col, s) }
    }

    /// Component-wise right shift: each coordinate is halved `n` times, rounding down.
    pub fn shr(self, n: usize) -> (r: Point)
        requires
            n < usize::BITS,
        ensures
            r == self.spec_shr(n as nat),
            r.row == self.row as nat / pow2(n as nat),
            r.col == self.col as nat / pow2(n as nat),
    {
        proof {
            lemma_usize_shr_is_div(self.row, n);
            lemma_usize_shr_is_div(self.col, n);
        }
        Point { row: self.row >> n, col: self.col >> n }
    }
}

/// How far a pattern is moved to centre it in an arena of side `size`, when
/// its live cells span the rows and columns from `start` to `end`: the
/// distance between `size` and half the extent of the pattern, in each
/// coordinate.
pub open spec fn centering_shift(start: Point, end: Point, size: usize) -> Point {
    end.spec_sub(start).spec_shr(1).spec_sub_scalar(size)
}

/// Distance between two machine integers.
fn distance(a: usize, b: usize) -> (d: usize)
    ensures
        d == gap(a as int, b as int),
{
    if a >= b {
        a - b
    } else {
        b - a
    }
}

} // verus!
