use vstd::prelude::*;

verus! {

/// A point in the integer plane.
#[derive(Clone, Copy, Debug)]
pub struct Point {
    pub x: i32,
    pub y: i32,
}

impl Point {
    /// A point from its coordinates.
    pub fn new(x: i32, y: i32) -> (p: Point)
        ensures
            p.x == x,
            p.y == y,
    {
        Point { x, y }
    }

    /// Componentwise sum of two points.
    pub fn add(self, other: Point) -> (p: Point)
        requires
            i32::MIN <= self.x + other.x <= i32::MAX,
            i32::MIN <= self.y + other.y <= i32::MAX,
        ensures
            p.x == self.x + other.x,
            p.y == self.y + other.y,
    {
        Point { x: self.x + other.x, y: self.y + other.y }
    }
}

/// The fixed sample point.
pub fn new_point() -> (p: Point)
    ensures
        p.x == 10,
        p.y == 20,
{
    Point { x: 10, y: 20 }
}

/// The fixed sample point, allocated on the heap.
pub fn new_point_on_heap() -> (p: Box<Point>)
    ensures
        p.x == 10,
        p.y == 20,
{
    Box::new(Point { x: 10, y: 20 })
}

} // verus!
