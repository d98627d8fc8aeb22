//! Pen state and line segments, in exact micro-unit coordinates.

use vstd::prelude::*;
use crate::MICRO;

verus! {

/// Mathematical model of a segment: endpoints and stroke width in
/// micro-units.
pub struct SegModel {
    pub x0: int,
    pub y0: int,
    pub x1: int,
    pub y1: int,
    pub w: int,
}

/// One drawable stroke: both endpoints in source space plus the stroke
/// width that was in effect when it was emitted.
#[derive(Clone, Copy, PartialEq, Eq, Structural, Debug)]
pub struct Segment {
    pub x0: i64,
    pub y0: i64,
    pub x1: i64,
    pub y1: i64,
    pub w: i64,
}

impl View for Segment {
    type V = SegModel;

    open spec fn view(&self) -> SegModel {
        SegModel { x0: self.x0 as int, y0: self.y0 as int, x1: self.x1 as int, y1: self.y1 as int, w: self.w as int }
    }
}

/// Mathematical model of the pen.
pub struct PointModel {
    pub x: int,
    pub y: int,
    pub w: int,
}

/// The pen: current position and current stroke width.
#[derive(Clone, Copy, PartialEq, Eq, Structural, Debug)]
pub struct Point {
    pub x: i64,
    pub y: i64,
    pub w: i64,
}

impl View for Point {
    type V = PointModel;

    open spec fn view(&self) -> PointModel {
        PointModel { x: self.x as int, y: self.y as int, w: self.w as int }
    }
}

impl Point {
    /// A fresh pen: position at the origin, stroke width one unit.
    pub fn new() -> (p: Point)
        ensures
            p@ == (PointModel { x: 0, y: 0, w: MICRO as int }),
    {
        Point { x: 0, y: 0, w: MICRO }
    }

    /// Sets the position; the width is untouched and nothing is emitted.
    pub fn moveto(&mut self, x: i64, y: i64)
        ensures
            final(self).x == x,
            final(self).y == y,
            final(self).w == old(self).w,
    {
        self.x = x;
        self.y = y;
    }

    /// Emits the stroke from the current position to `(x, y)` with the
    /// current width, then moves there.
    pub fn lineto(&mut self, x: i64, y: i64) -> (seg: Segment)
        ensures
            seg == (Segment { x0: old(self).x, y0: old(self).y, x1: x, y1: y, w: old(self).w }),
            final(self).x == x,
            final(self).y == y,
            final(self).w == old(self).w,
    {
        let x0 = self.x;
        let y0 = self.y;
        let w = self.w;
        self.moveto(x, y);
        Segment { x0, y0, x1: x, y1: y, w }
    }

    /// Overwrites the stroke width; the position is untouched.
    pub fn set_width(&mut self, w: i64)
        ensures
            final(self).w == w,
            final(self).x == old(self).x,
            final(self).y == old(self).y,
    {
        self.w = w;
    }
}

} // verus!
