use vstd::prelude::*;

verus! {

/// A rectangle with integer sides.
#[derive(Debug, Clone, Copy, PartialEq, Eq)]
pub struct Rectangle {
    pub width: u32,
    pub height: u32,
}

impl Rectangle {
    /// The area of a rectangle with sides `width` and `height`.
    pub open spec fn spec_area(width: u32, height: u32) -> int {
        width * height
    }

    /// The area of a rectangle is the product of its sides, whichever way
    /// round they are given.
    pub proof fn lemma_area_is_product(width: u32, height: u32)
        ensures
            Self::spec_area(width, height) == width * height,
            Self::spec_area(width, height) == Self::spec_area(height, width),
    {
        assert(width * height == height * width) by (nonlinear_arith);
    }

    /// A square's area is its side times itself.
    pub proof fn lemma_square_area(size: u32)
        ensures
            Self::spec_area(size, size) == size * size,
    {
    }

    /// A square whose sides are both `size`.
    pub fn square(size: u32) -> (r: Rectangle)
        ensures
            r.width == size,
            r.height == size,
    {
        Rectangle { width: size, height: size }
    }

    /// The area of the rectangle; the product must fit in a `u32`.
    pub fn area(&self) -> (a: u32)
        requires
            self.width * self.height <= u32::MAX,
        ensures
            a == Self::spec_area(self.width, self.height),
            a == self.width * self.height,
    {
        self.width * self.height
    }
}

} // verus!
