//! The segment model: a path element is a straight line or a cubic Bézier,
//! parametrized from its start (parameter zero) to its end (parameter one).

use vstd::prelude::*;
use crate::ext::{point_midpoint, line_subsegment, cubic_subsegment};

verus! {

/// One elementary path segment. The control points are opaque plane points;
/// the shape of the segment (line or cubic) is plain data.
#[derive(Clone, Copy)]
pub enum Segment {
    Line(kurbo::Point, kurbo::Point),
    Cubic(kurbo::Point, kurbo::Point, kurbo::Point, kurbo::Point),
}

impl Segment {
    /// The point at parameter zero.
    pub open spec fn spec_start(self) -> kurbo::Point {
        match self {
            Segment::Line(p0, _) => p0,
            Segment::Cubic(p0, _, _, _) => p0,
        }
    }

    /// The point at parameter one.
    pub open spec fn spec_end(self) -> kurbo::Point {
        match self {
            Segment::Line(_, p1) => p1,
            Segment::Cubic(_, _, _, p1) => p1,
        }
    }

    pub fn start(&self) -> (r: kurbo::Point)
        ensures
            r == self.spec_start(),
    {
        match self {
            Segment::Line(p0, _) => *p0,
            Segment::Cubic(p0, _, _, _) => *p0,
        }
    }

    pub fn end(&self) -> (r: kurbo::Point)
        ensures
            r == self.spec_end(),
    {
        match self {
            Segment::Line(_, p1) => *p1,
            Segment::Cubic(_, _, _, p1) => *p1,
        }
    }

    /// The segment's representative sample point: its point at parameter one
    /// half. For a line that is the midpoint of the endpoints; for a cubic it
    /// is obtained by de Casteljau subdivision, which at one half takes only
    /// midpoints.
    pub fn sample_point(&self) -> kurbo::Point {
        match self {
            Segment::Line(p0, p1) => point_midpoint(p0, p1),
            Segment::Cubic(p0, p1, p2, p3) => {
                let m01 = point_midpoint(p0, p1);
                let m12 = point_midpoint(p1, p2);
                let m23 = point_midpoint(p2, p3);
                let m012 = point_midpoint(&m01, &m12);
                let m123 = point_midpoint(&m12, &m23);
                point_midpoint(&m012, &m123)
            }
        }
    }

    /// The part of the segment between the two recorded parameters; `None`
    /// stands for the start respectively the end of the parameter range. The
    /// part has the same shape as the whole.
    pub fn subsegment(
        &self,
        from: Option<kurbo::LineIntersection>,
        to: Option<kurbo::LineIntersection>,
    ) -> (r: Segment)
        ensures
            r is Line <==> self is Line,
    {
        match self {
            Segment::Line(p0, p1) => {
                let (q0, q1) = line_subsegment(p0, p1, from, to);
                Segment::Line(q0, q1)
            }
            Segment::Cubic(p0, p1, p2, p3) => {
                let (q0, q1, q2, q3) = cubic_subsegment(p0, p1, p2, p3, from, to);
                Segment::Cubic(q0, q1, q2, q3)
            }
        }
    }
}

} // verus!
