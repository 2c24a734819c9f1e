use vstd::prelude::*;

verus! {

/// A board-relative offset or position; `y` grows downwards.
#[derive(Clone, Copy, Debug, Default, PartialEq, Eq, Structural)]
pub struct Point {
    pub x: i8,
    pub y: i8,
}

impl Point {
    pub fn constant(x: i8, y: i8) -> (r: Self)
        ensures
            r == (Point { x, y }),
    {
        Point { x, y }
    }

    pub fn new(x: i8, y: i8) -> (r: Self)
        ensures
            r == (Point { x, y }),
    {
        Point { x, y }
    }

    pub fn x(&self) -> (r: i8)
        ensures
            r == self.x,
    {
        self.x
    }

    pub fn y(&self) -> (r: i8)
        ensures
            r == self.y,
    {
        self.y
    }

    /// The component-wise sum of two points, where it fits in `i8`.
    pub open spec fn fits_sum(self, o: Point) -> bool {
        i8::MIN <= self.x + o.x <= i8::MAX && i8::MIN <= self.y + o.y <= i8::MAX
    }

    pub open spec fn spec_plus(self, o: Point) -> Point {
        Point { x: (self.x + o.x) as i8, y: (self.y + o.y) as i8 }
    }

    pub fn plus(self, o: Point) -> (r: Point)
        requires
            self.fits_sum(o),
        ensures
            r == self.spec_plus(o),
    {
        Point { x: self.x + o.x, y: self.y + o.y }
    }

    pub open spec fn fits_difference(self, o: Point) -> bool {
        i8::MIN <= self.x - o.x <= i8::MAX && i8::MIN <= self.y - o.y <= i8::MAX
    }

    pub fn minus(self, o: Point) -> (r: Point)
        requires
            self.fits_difference(o),
        ensures
            r.x == self.x - o.x,
            r.y == self.y - o.y,
    {
        Point { x: self.x - o.x, y: self.y - o.y }
    }
}

} // verus!
