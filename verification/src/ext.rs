//! The trusted boundary around the outside crates.
//!
//! Every item here is believed, not verified: each wrapper makes one call into
//! `kurbo` or `std` and converts arguments and results, nothing more. All
//! floating-point arithmetic of the crate lives behind these items; the rest
//! of the library only moves the opaque values around.

use vstd::prelude::*;
use kurbo::ParamCurve;
use kurbo::ParamCurveExtrema;
use kurbo::Shape;
use crate::geom::Segment;

verus! {

// ----- kurbo's types, declared so that they can stand in signatures -----

/// A point of the document plane; two coordinates, opaque here.
#[verifier::external_type_specification]
#[verifier::external_body]
pub struct ExPoint(kurbo::Point);

/// A record of one intersection: the parameter on the line and the parameter
/// on the segment, both opaque here.
#[verifier::external_type_specification]
#[verifier::external_body]
pub struct ExLineIntersection(kurbo::LineIntersection);

/// kurbo's element list form of a path, used for winding and SVG output.
#[verifier::external_type_specification]
#[verifier::external_body]
pub struct ExBezPath(kurbo::BezPath);

// ----- scalar carrier -----

/// The flattening tolerance of the intersection engine, carried as an opaque
/// scalar pair (numerator, denominator) so that no floating-point value has
/// to appear in verified code.
pub struct Tolerance {
    units: kurbo::Point,
}

impl Tolerance {
    /// Relies on `kurbo::Point::new`: carries `hundredths / 100` document
    /// units as the pair (hundredths, 100). A zero tolerance is excluded:
    /// flattening would subdivide without bound.
    #[verifier::external_body]
    pub fn from_hundredths(hundredths: u32) -> Tolerance
        requires
            hundredths >= 1,
    {
        Tolerance { units: kurbo::Point::new(hundredths.into(), 100u32.into()) }
    }
}

// ----- point wrappers -----

/// Relies on `kurbo::Point::midpoint`: the point halfway between the two.
#[verifier::external_body]
pub(crate) fn point_midpoint(a: &kurbo::Point, b: &kurbo::Point) -> kurbo::Point {
    a.midpoint(*b)
}

/// Relies on `kurbo::Point`'s `PartialEq`: coordinate-wise equality of the
/// underlying values. Nothing is claimed of the result: floating-point
/// equality neither implies nor follows from equality of the opaque values.
#[verifier::external_body]
pub(crate) fn points_equal(a: &kurbo::Point, b: &kurbo::Point) -> bool {
    *a == *b
}

// ----- intersection wrappers -----

/// Relies on `kurbo::PathSeg::intersect_line`: the intersections of the
/// segment with the line through `b0` and `b1`, at most three, and at most
/// one when `seg` is itself a line (the closed-form line-line test yields
/// zero or one point; collinear overlap is not specially handled); the
/// `segment_t` of each record is the parameter on `seg`.
#[verifier::external_body]
pub(crate) fn line_hits(seg: &Segment, b0: &kurbo::Point, b1: &kurbo::Point)
    -> (r: Vec<kurbo::LineIntersection>)
    ensures
        r@.len() <= 3,
        seg is Line ==> r@.len() <= 1,
{
    let ps = match seg {
        Segment::Line(p0, p1) => kurbo::PathSeg::Line(kurbo::Line::new(*p0, *p1)),
        Segment::Cubic(p0, p1, p2, p3) =>
            kurbo::PathSeg::Cubic(kurbo::CubicBez::new(*p0, *p1, *p2, *p3)),
    };
    ps.intersect_line(kurbo::Line::new(*b0, *b1)).to_vec()
}

/// Relies on `kurbo::PathSeg::intersect_line`, called with the roles
/// reversed: the cubic through `c0..c3` is intersected with the line
/// `l0..l1`, and the two parameters of each record are swapped so that
/// `segment_t` is the parameter on the line.
#[verifier::external_body]
pub(crate) fn cubic_line_hits_swapped(
    c0: &kurbo::Point, c1: &kurbo::Point, c2: &kurbo::Point, c3: &kurbo::Point,
    l0: &kurbo::Point, l1: &kurbo::Point,
) -> (r: Vec<kurbo::LineIntersection>)
    ensures
        r@.len() <= 3,
{
    let cubic = kurbo::PathSeg::Cubic(kurbo::CubicBez::new(*c0, *c1, *c2, *c3));
    cubic.intersect_line(kurbo::Line::new(*l0, *l1))
        .iter()
        .map(|hit| kurbo::LineIntersection { line_t: hit.segment_t, segment_t: hit.line_t })
        .collect()
}

/// Relies on `kurbo::ParamCurveExtrema::bounding_box`, `kurbo::Rect::intersect`
/// and `kurbo::Rect::is_zero_area`: whether the two segments' axis-aligned
/// bounding boxes share interior area.
#[verifier::external_body]
pub(crate) fn bboxes_overlap(a: &Segment, b: &Segment) -> bool {
    let ka = match a {
        Segment::Line(p0, p1) => kurbo::PathSeg::Line(kurbo::Line::new(*p0, *p1)),
        Segment::Cubic(p0, p1, p2, p3) =>
            kurbo::PathSeg::Cubic(kurbo::CubicBez::new(*p0, *p1, *p2, *p3)),
    };
    let kb = match b {
        Segment::Line(p0, p1) => kurbo::PathSeg::Line(kurbo::Line::new(*p0, *p1)),
        Segment::Cubic(p0, p1, p2, p3) =>
            kurbo::PathSeg::Cubic(kurbo::CubicBez::new(*p0, *p1, *p2, *p3)),
    };
    let ra = kurbo::ParamCurveExtrema::bounding_box(&ka);
    let rb = kurbo::ParamCurveExtrema::bounding_box(&kb);
    !ra.intersect(rb).is_zero_area()
}

/// Relies on `kurbo::flatten`: a polyline approximation of the cubic through
/// `p0..p3`, within the carried tolerance; the emitted points come in curve
/// order, and the curve's start point and its end point are always among
/// them, so there are at least two.
#[verifier::external_body]
pub(crate) fn flatten_cubic(
    p0: &kurbo::Point, p1: &kurbo::Point, p2: &kurbo::Point, p3: &kurbo::Point,
    tolerance: &Tolerance,
) -> (r: Vec<kurbo::Point>)
    ensures
        r@.len() >= 2,
{
    let accuracy = tolerance.units.x / tolerance.units.y;
    let elements = [kurbo::PathEl::MoveTo(*p0), kurbo::PathEl::CurveTo(*p1, *p2, *p3)];
    let mut points = Vec::new();
    kurbo::flatten(elements, accuracy, |element| match element {
        kurbo::PathEl::MoveTo(q) => points.push(q),
        kurbo::PathEl::LineTo(q) => points.push(q),
        _ => {}
    });
    points
}

/// Relies on `kurbo::ParamCurve::subsegment` on a `kurbo::Line`: the part of
/// the line `p0..p1` between the two parameters; `None` stands for the start
/// respectively the end of the parameter range.
#[verifier::external_body]
pub(crate) fn line_subsegment(
    p0: &kurbo::Point, p1: &kurbo::Point,
    from: Option<kurbo::LineIntersection>, to: Option<kurbo::LineIntersection>,
) -> (kurbo::Point, kurbo::Point) {
    let a = from.map(|hit| hit.segment_t).unwrap_or_default();
    let b = to.map(|hit| hit.segment_t).unwrap_or(1u8.into());
    let part = kurbo::Line::new(*p0, *p1).subsegment(a..b);
    (part.p0, part.p1)
}

/// Relies on `kurbo::ParamCurve::subsegment` on a `kurbo::CubicBez`: the part
/// of the cubic through `p0..p3` between the two parameters; `None` stands
/// for the start respectively the end of the parameter range.
#[verifier::external_body]
pub(crate) fn cubic_subsegment(
    p0: &kurbo::Point, p1: &kurbo::Point, p2: &kurbo::Point, p3: &kurbo::Point,
    from: Option<kurbo::LineIntersection>, to: Option<kurbo::LineIntersection>,
) -> (kurbo::Point, kurbo::Point, kurbo::Point, kurbo::Point) {
    let a = from.map(|hit| hit.segment_t).unwrap_or_default();
    let b = to.map(|hit| hit.segment_t).unwrap_or(1u8.into());
    let part = kurbo::CubicBez::new(*p0, *p1, *p2, *p3).subsegment(a..b);
    (part.p0, part.p1, part.p2, part.p3)
}

/// Relies on `<[T]>::sort_by` and `f64::total_cmp`: afterwards the records
/// are ordered by ascending `segment_t`; the records themselves are only
/// rearranged.
#[verifier::external_body]
pub(crate) fn sort_by_parameter(records: &mut Vec<kurbo::LineIntersection>)
    ensures
        final(records)@.len() == old(records)@.len(),
        final(records)@.to_multiset() == old(records)@.to_multiset(),
{
    records.sort_by(|a, b| a.segment_t.total_cmp(&b.segment_t));
}

// ----- contour building, winding, SVG path text -----

/// An element list under construction. `begun` records whether a start point
/// has been set: kurbo's `line_to` and `curve_to` must not be called before
/// `move_to`.
pub struct Contour {
    raw: kurbo::BezPath,
    begun: bool,
}

impl Contour {
    /// Whether a start point has been set.
    pub closed spec fn spec_begun(&self) -> bool {
        self.begun
    }

    /// Relies on `kurbo::BezPath::new`: the empty element list.
    #[verifier::external_body]
    pub(crate) fn new() -> (r: Contour)
        ensures
            !r.spec_begun(),
    {
        Contour { raw: kurbo::BezPath::new(), begun: false }
    }

    /// Relies on `kurbo::BezPath::move_to`: starts a subpath at `p`.
    #[verifier::external_body]
    pub(crate) fn move_to(&mut self, p: &kurbo::Point)
        ensures
            final(self).spec_begun(),
    {
        self.raw.move_to(*p);
        self.begun = true;
    }

    /// Relies on `kurbo::BezPath::line_to`: a line from the current point to
    /// `p`. Requires a begun subpath, which kurbo otherwise rejects.
    #[verifier::external_body]
    pub(crate) fn line_to(&mut self, p: &kurbo::Point)
        requires
            old(self).spec_begun(),
        ensures
            final(self).spec_begun(),
    {
        self.raw.line_to(*p);
    }

    /// Relies on `kurbo::BezPath::curve_to`: a cubic from the current point
    /// with the three given control points. Requires a begun subpath.
    #[verifier::external_body]
    pub(crate) fn curve_to(&mut self, p1: &kurbo::Point, p2: &kurbo::Point, p3: &kurbo::Point)
        requires
            old(self).spec_begun(),
        ensures
            final(self).spec_begun(),
    {
        self.raw.curve_to(*p1, *p2, *p3);
    }

    /// Relies on `kurbo::Shape::winding` on a `kurbo::BezPath`: the signed
    /// number of times the contour wraps around `p`. Nothing is claimed of
    /// the value.
    #[verifier::external_body]
    pub(crate) fn winding(&self, p: &kurbo::Point) -> i32 {
        self.raw.winding(*p)
    }

    /// Relies on `kurbo::BezPath::to_svg`: the SVG path data text of the
    /// element list.
    #[verifier::external_body]
    pub(crate) fn to_svg(&self) -> String {
        self.raw.to_svg()
    }
}

// ----- coordinate text -----

/// Which character sequences `f64`'s `FromStr` accepts; named here because
/// stating it exactly would mean restating the parser.
pub uninterp spec fn float_token(s: Seq<char>) -> bool;

/// Relies on `f64::from_str` (through `str::parse`), applied to both tokens:
/// succeeds exactly when both are float tokens; the pair is carried back as
/// one opaque point.
#[verifier::external_body]
pub(crate) fn parse_point(sx: &str, sy: &str) -> (r: Option<kurbo::Point>)
    ensures
        r is Some <==> (float_token(sx@) && float_token(sy@)),
{
    match (sx.parse(), sy.parse()) {
        (Ok(x), Ok(y)) => Some(kurbo::Point::new(x, y)),
        _ => None,
    }
}

/// Relies on `f64`'s `Display` and `f64::from_str`: each coordinate is
/// written as a token that `from_str` accepts, with no whitespace and no
/// newline inside it.
#[verifier::external_body]
pub(crate) fn coordinate_tokens(p: &kurbo::Point) -> (r: (String, String))
    ensures
        float_token(r.0@) && float_token(r.1@),
        r.0@.len() > 0 && r.1@.len() > 0,
        forall|i: int| 0 <= i < r.0@.len() ==> !crate::text::is_space(#[trigger] r.0@[i]) && r.0@[i] != '\n',
        forall|i: int| 0 <= i < r.1@.len() ==> !crate::text::is_space(#[trigger] r.1@[i]) && r.1@[i] != '\n',
{
    (format!("{}", p.x), format!("{}", p.y))
}

} // verus!
