//! The intersection engine: parametric intersections of one segment against
//! another, and of a path against all later paths of a document.
//!
//! The results are floating-point parameters and stay opaque; what is
//! verified here is the shape of the result — one sorted record list per
//! segment of the intersected path, and that a path is never intersected
//! against itself or against an earlier path.

use vstd::prelude::*;
use crate::geom::Segment;
use crate::path::Path;
use crate::cut::{seg_total, prefix_total, lemma_prefix_total_eq};
use crate::ext::{
    Tolerance, line_hits, cubic_line_hits_swapped, bboxes_overlap, flatten_cubic,
    sort_by_parameter,
};

verus! {

/// Per-segment intersection records of one path: `records[j]` lists the
/// intersections on segment `j`.
pub type PathIntersections = Vec<Vec<kurbo::LineIntersection>>;

/// Intersections of `intersected` against the cubic through `c0..c3`: the
/// cubic is flattened into a polyline within the tolerance and every polyline
/// edge is intersected against `intersected`, except that a line on the
/// intersected side uses the closed-form test with the parameter roles
/// swapped, and that segments whose bounding boxes do not overlap yield
/// nothing without flattening.
fn curve_intersections(
    intersected: &Segment,
    c0: &kurbo::Point,
    c1: &kurbo::Point,
    c2: &kurbo::Point,
    c3: &kurbo::Point,
    tolerance: &Tolerance,
) -> Vec<kurbo::LineIntersection> {
    if let Segment::Line(l0, l1) = intersected {
        return cubic_line_hits_swapped(c0, c1, c2, c3, l0, l1);
    }

    let curve = Segment::Cubic(*c0, *c1, *c2, *c3);
    if !bboxes_overlap(intersected, &curve) {
        return Vec::new();
    }

    let points = flatten_cubic(c0, c1, c2, c3, tolerance);
    let mut hits: Vec<kurbo::LineIntersection> = Vec::new();
    if points.len() > 0 {
        let edge_count = points.len() - 1;
        let mut i: usize = 0;
        while i < edge_count
            invariant
                edge_count == points@.len() - 1,
                i <= edge_count,
            decreases edge_count - i,
        {
            let edge_start = points[i];
            let edge_end = points[i + 1];
            let mut edge_hits = line_hits(intersected, &edge_start, &edge_end);
            hits.append(&mut edge_hits);
            i = i + 1;
        }
    }
    hits
}

/// Intersections of `intersected` against `intersecting`; `segment_t` of
/// every returned record is the parameter on `intersected`. The values are
/// numeric and opaque; two segments with disjoint bounding boxes yield none,
/// and two lines cross in at most one recorded point (collinear overlap is
/// not specially handled).
pub fn segment_intersections(
    intersected: &Segment,
    intersecting: &Segment,
    tolerance: &Tolerance,
) -> (r: Vec<kurbo::LineIntersection>)
    ensures
        intersected is Line && intersecting is Line ==> r@.len() <= 1,
{
    match intersecting {
        Segment::Line(b0, b1) => line_hits(intersected, b0, b1),
        Segment::Cubic(c0, c1, c2, c3) => {
            curve_intersections(intersected, c0, c1, c2, c3, tolerance)
        },
    }
}

/// For every segment of `path`, all of its intersections with every segment
/// of `paths[from..]`, sorted ascending by parameter on that segment: one
/// record list per segment of `path`. With no path at or after `from` every
/// list is empty.
pub fn path_intersections(
    path: &Path,
    paths: &Vec<Path>,
    from: usize,
    tolerance: &Tolerance,
) -> (r: PathIntersections)
    ensures
        r@.len() == path.segments@.len(),
        from >= paths@.len() ==> seg_total(r@) == 0,
{
    let ghost all_empty = from >= paths@.len();
    let mut r: PathIntersections = Vec::new();
    let mut k: usize = 0;
    while k < path.segments.len()
        invariant
            k <= path.segments@.len(),
            r@.len() == k,
            all_empty == (from >= paths@.len()),
            all_empty ==> seg_total(r@) == 0,
        decreases path.segments@.len() - k,
    {
        let ghost r0 = r@;
        let seg = path.segments[k];
        let mut column: Vec<kurbo::LineIntersection> = Vec::new();
        let mut j: usize = from;
        while j < paths.len()
            invariant
                from <= paths@.len() ==> from <= j <= paths@.len(),
                all_empty ==> j >= paths@.len(),
                all_empty ==> column@.len() == 0,
            decreases paths@.len() - j,
        {
            let other = &paths[j];
            let mut m: usize = 0;
            while m < other.segments.len()
                invariant
                    m <= other.segments@.len(),
                    !all_empty,
                decreases other.segments@.len() - m,
            {
                let mut hits = segment_intersections(&seg, &other.segments[m], tolerance);
                column.append(&mut hits);
                m = m + 1;
            }
            j = j + 1;
        }
        sort_by_parameter(&mut column);
        r.push(column);
        proof {
            assert(r@.drop_last() =~= r0);
            if all_empty {
                assert(forall|t: int| 0 <= t < r0.len() ==> r@[t] == r0[t]);
                lemma_prefix_total_eq(r0, r@, r0.len() as int);
                assert(prefix_total(r@, r@.len() as int) == prefix_total(r@, r@.len() as int - 1)
                    + r@[r@.len() - 1]@.len());
            }
        }
        k = k + 1;
    }
    r
}

/// For every path of the document, the sorted per-segment records of its
/// intersections with every path drawn after it: `r[i]` belongs to
/// `paths[i]`. Earlier paths are never intersected against later positions'
/// results, and the last path of the document has no records at all.
pub fn intersect_paths(paths: &Vec<Path>, tolerance: &Tolerance) -> (r: Vec<PathIntersections>)
    ensures
        r@.len() == paths@.len(),
        forall|i: int| 0 <= i < r@.len() ==> (#[trigger] r@[i])@.len()
            == paths@[i].segments@.len(),
        r@.len() > 0 ==> seg_total(r@[r@.len() - 1]@) == 0,
{
    let mut r: Vec<PathIntersections> = Vec::new();
    let mut i: usize = 0;
    while i < paths.len()
        invariant
            i <= paths@.len(),
            r@.len() == i,
            forall|t: int| 0 <= t < r@.len() ==> (#[trigger] r@[t])@.len()
                == paths@[t].segments@.len(),
            i > 0 && i == paths@.len() ==> seg_total(r@[i - 1]@) == 0,
        decreases paths@.len() - i,
    {
        let records = path_intersections(&paths[i], paths, i + 1, tolerance);
        r.push(records);
        i = i + 1;
    }
    r
}

} // verus!
