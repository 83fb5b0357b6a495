//! The coverage oracle: whether a point lies inside a closed, filled shape
//! under the shape's fill rule. The winding number itself comes from kurbo
//! and is opaque; the fill rule applied to it is verified, and a shape never
//! covers a point of a path derived from the same source.

use vstd::prelude::*;
use vstd::arithmetic::div_mod::lemma_fundamental_div_mod;
use vstd::arithmetic::div_mod::lemma_fundamental_div_mod_converse_mod;
use crate::geom::Segment;
use crate::path::{Path, FillRule};
use crate::ext::{Contour, points_equal};

verus! {

/// What a winding number means under a fill rule: `NonZero` takes any
/// nonzero count as inside, `EvenOdd` any odd count.
pub open spec fn winding_hit(rule: FillRule, winding: int) -> bool {
    match rule {
        FillRule::NonZero => winding != 0,
        FillRule::EvenOdd => winding % 2 != 0,
    }
}

/// Negation keeps parity.
proof fn lemma_neg_parity(a: int)
    ensures
        (a % 2 == 0) <==> ((-a) % 2 == 0),
{
    lemma_fundamental_div_mod(a, 2);
    if a % 2 == 0 {
        lemma_fundamental_div_mod_converse_mod(-a, 2, -(a / 2), 0);
    } else {
        lemma_fundamental_div_mod_converse_mod(-a, 2, -(a / 2) - 1, 1);
    }
}

/// Applies a fill rule to a winding number.
pub fn test_winding(rule: FillRule, winding: i32) -> (r: bool)
    ensures
        r == winding_hit(rule, winding as int),
{
    match rule {
        FillRule::NonZero => winding != 0,
        FillRule::EvenOdd => {
            let wide: i64 = winding as i64;
            let magnitude: i64 = if wide < 0 { -wide } else { wide };
            proof {
                lemma_neg_parity(winding as int);
            }
            magnitude % 2 != 0
        },
    }
}

/// A winding of plus or minus one is inside under both fill rules; a winding
/// of zero is inside under neither.
pub proof fn lemma_unit_winding(rule: FillRule)
    ensures
        winding_hit(rule, 1),
        winding_hit(rule, -1),
        !winding_hit(rule, 0),
{
}

/// A read-only view of a closed, filled path: its contour and its fill rule,
/// used only for the coverage test.
pub struct CoveringShape {
    pub source_id: usize,
    pub fill_rule: FillRule,
    pub contour: Contour,
}

impl CoveringShape {
    /// Derives the covering shape of a path: `Some` exactly for a path that
    /// can cover (closed and filled) and has at least one segment. The
    /// contour is the path's full segment sequence; a new subpath is started
    /// wherever consecutive segments do not connect.
    pub fn new(path: &Path) -> (r: Option<CoveringShape>)
        ensures
            r is Some <==> (path.spec_can_cover() && path.segments@.len() > 0),
            r matches Some(shape) ==> shape.source_id == path.source_id && shape.fill_rule
                == path.fill_rule,
    {
        if !path.can_cover() || path.segments.len() == 0 {
            return None;
        }

        let mut contour = Contour::new();
        let mut last_end: Option<kurbo::Point> = None;
        let mut i: usize = 0;
        while i < path.segments.len()
            invariant
                i <= path.segments@.len(),
                last_end is Some ==> contour.spec_begun(),
                i > 0 ==> last_end is Some,
            decreases path.segments@.len() - i,
        {
            let seg = path.segments[i];
            let start = seg.start();
            let detached = match &last_end {
                None => true,
                Some(prev) => !points_equal(prev, &start),
            };
            if detached {
                contour.move_to(&start);
            }
            match seg {
                Segment::Line(_, p1) => contour.line_to(&p1),
                Segment::Cubic(_, c1, c2, p1) => contour.curve_to(&c1, &c2, &p1),
            }
            last_end = Some(seg.end());
            i = i + 1;
        }

        Some(CoveringShape { source_id: path.source_id, fill_rule: path.fill_rule, contour })
    }

    /// Whether the point lies inside the shape under its fill rule: the
    /// point's winding number against the contour, passed through
    /// [`test_winding`]. The winding number is computed by kurbo and opaque,
    /// so nothing is claimed of the result.
    pub fn covers_point(&self, point: kurbo::Point) -> bool {
        let winding = self.contour.winding(&point);
        test_winding(self.fill_rule, winding)
    }
}

impl Path {
    /// Whether this path's representative point — the midpoint-parameter
    /// sample of its first segment — is covered by the shape. A shape never
    /// covers a path derived from the same source (self-occlusion is out of
    /// scope), and an empty path is never covered.
    pub fn is_covered_by(&self, shape: &CoveringShape) -> (r: bool)
        ensures
            self.source_id == shape.source_id ==> r == false,
            self.segments@.len() == 0 ==> r == false,
    {
        if self.source_id == shape.source_id {
            return false;
        }
        if self.segments.len() == 0 {
            return false;
        }
        let probe = self.segments[0].sample_point();
        shape.covers_point(probe)
    }
}

} // verus!
