//! Plain integer geometry: points, edge insets and axis-aligned rectangles
//! in page space.

use vstd::prelude::*;

verus! {

/// A position in page space, in pixels.
#[derive(Debug, Clone, Copy, PartialEq, Eq, Structural)]
pub struct Point {
    pub x: i32,
    pub y: i32,
}

/// Per-side insets of a box: margins or paddings.
#[derive(Debug, Clone, Copy, PartialEq, Eq, Structural)]
pub struct Edge {
    pub top: i32,
    pub right: i32,
    pub bottom: i32,
    pub left: i32,
}

/// An axis-aligned rectangle, `min` inclusive, `max` exclusive.
#[derive(Debug, Clone, Copy, PartialEq, Eq, Structural)]
pub struct Rectangle {
    pub min: Point,
    pub max: Point,
}

impl Point {
    pub fn new(x: i32, y: i32) -> (r: Point)
        ensures
            r == (Point { x, y }),
    {
        Point { x, y }
    }
}

impl Default for Point {
    fn default() -> (r: Point)
        ensures
            r == (Point { x: 0, y: 0 }),
    {
        Point { x: 0, y: 0 }
    }
}

impl Default for Edge {
    fn default() -> (r: Edge)
        ensures
            r == (Edge { top: 0, right: 0, bottom: 0, left: 0 }),
    {
        Edge { top: 0, right: 0, bottom: 0, left: 0 }
    }
}

impl Rectangle {
    /// A rectangle is well formed when its sides are ordered and its extent
    /// fits in `i32` arithmetic.
    pub open spec fn wf(self) -> bool {
        &&& self.min.x <= self.max.x
        &&& self.min.y <= self.max.y
        &&& self.max.x - self.min.x <= i32::MAX
        &&& self.max.y - self.min.y <= i32::MAX
    }

    pub open spec fn spec_width(self) -> int {
        self.max.x - self.min.x
    }

    pub open spec fn spec_height(self) -> int {
        self.max.y - self.min.y
    }

    pub fn new(x0: i32, y0: i32, x1: i32, y1: i32) -> (r: Rectangle)
        ensures
            r == (Rectangle { min: Point { x: x0, y: y0 }, max: Point { x: x1, y: y1 } }),
    {
        Rectangle { min: Point { x: x0, y: y0 }, max: Point { x: x1, y: y1 } }
    }

    pub fn width(&self) -> (r: i32)
        requires
            self.wf(),
        ensures
            r == self.spec_width(),
    {
        self.max.x - self.min.x
    }

    pub fn height(&self) -> (r: i32)
        requires
            self.wf(),
        ensures
            r == self.spec_height(),
    {
        self.max.y - self.min.y
    }
}

impl Default for Rectangle {
    fn default() -> (r: Rectangle)
        ensures
            r == (Rectangle { min: Point { x: 0, y: 0 }, max: Point { x: 0, y: 0 } }),
    {
        Rectangle { min: Point { x: 0, y: 0 }, max: Point { x: 0, y: 0 } }
    }
}

} // verus!
