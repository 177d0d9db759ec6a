use vstd::prelude::*;

verus! {

/// A pixel coordinate: origin top-left, `x` grows right, `y` grows down.
#[derive(Clone, Copy, Debug, PartialEq, Eq, Structural, Hash)]
pub struct Point {
    pub x: i32,
    pub y: i32,
}

/// A width (`x`) and height (`y`) in pixels.
#[derive(Clone, Copy, Debug, PartialEq, Eq, Structural, Hash)]
pub struct Size {
    pub x: i32,
    pub y: i32,
}

impl Point {
    pub fn new(x: i32, y: i32) -> (p: Point)
        ensures
            p == (Point { x, y }),
    {
        Point { x, y }
    }
}

impl Size {
    pub fn new(x: i32, y: i32) -> (s: Size)
        ensures
            s == (Size { x, y }),
    {
        Size { x, y }
    }

    /// A size that a bitmap can have: no negative side, and a pixel count
    /// whose byte view fits in memory.
    pub open spec fn valid(self) -> bool {
        &&& self.x >= 0
        &&& self.y >= 0
        &&& self.x * self.y * 4 <= usize::MAX
    }

    /// Tests `valid`.
    pub fn is_valid(&self) -> (r: bool)
        ensures
            r == self.valid(),
    {
        if self.x < 0 || self.y < 0 {
            return false;
        }
        let xw = self.x as u64;
        let yh = self.y as u64;
        assert(xw * yh <= 0x4000_0000_0000_0000) by (nonlinear_arith)
            requires
                xw <= 0x8000_0000,
                yh <= 0x8000_0000,
        ;
        let area = xw * yh;
        (area as u128) * 4 <= usize::MAX as u128
    }
}

} // verus!
