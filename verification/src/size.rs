use vstd::prelude::*;

verus! {

/// The width and height, in cells, of a rectangular field grid.
#[derive(Debug, Copy, Clone, PartialEq, Eq, Structural)]
pub struct Size {
    pub width: u32,
    pub height: u32,
}

impl Size {
    /// The number of cells in a grid of this size.
    pub open spec fn area(self) -> int {
        self.width * self.height
    }

    pub fn new(width: u32, height: u32) -> (r: Self)
        ensures
            r.width == width,
            r.height == height,
    {
        Size { width, height }
    }

    /// The length of the flat, row-major field buffer backing a grid of this
    /// size.
    pub fn len(&self) -> (r: usize)
        requires
            self.area() <= u32::MAX,
        ensures
            r == self.area(),
    {
        (self.width * self.height) as usize
    }

    /// Whether a grid of this size has no cells at all.
    pub fn is_empty(&self) -> (r: bool)
        ensures
            r == (self.area() == 0),
    {
        proof {
            assert((self.width * self.height == 0) == (self.width == 0 || self.height == 0))
                by (nonlinear_arith);
        }
        self.width == 0 || self.height == 0
    }
}

} // verus!
