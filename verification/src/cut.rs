//! The path cutter: splitting a path at recorded intersection parameters.
//!
//! Each cut ends one sub-path and begins the next, so a path with `k`
//! intersection records over all of its segments yields exactly `1 + k`
//! sub-paths, and every record adds exactly one segment boundary.

use vstd::prelude::*;
use crate::geom::Segment;
use crate::intersect::PathIntersections;
use crate::path::Path;

verus! {

/// The number of records on the first `j` segments.
pub open spec fn prefix_total(records: Seq<Vec<kurbo::LineIntersection>>, j: int) -> nat
    decreases j,
{
    if j <= 0 {
        0
    } else {
        prefix_total(records, j - 1) + records[j - 1]@.len()
    }
}

/// The number of records over all segments.
pub open spec fn seg_total(records: Seq<Vec<kurbo::LineIntersection>>) -> nat {
    prefix_total(records, records.len() as int)
}

/// All segments of a sub-path list, in order.
pub open spec fn flat_seq(paths: Seq<Path>) -> Seq<Segment>
    decreases paths.len(),
{
    if paths.len() == 0 {
        Seq::empty()
    } else {
        flat_seq(paths.drop_last()) + paths.last().segments@
    }
}

proof fn lemma_flat_empty()
    ensures
        flat_seq(Seq::<Path>::empty()) =~= Seq::<Segment>::empty(),
{
}

proof fn lemma_flat_push(paths: Seq<Path>, p: Path)
    ensures
        flat_seq(paths.push(p)) == flat_seq(paths) + p.segments@,
{
    assert(paths.push(p).drop_last() =~= paths);
    assert(paths.push(p).last() == p);
}

proof fn lemma_prefix_total_le(records: Seq<Vec<kurbo::LineIntersection>>, a: int, b: int)
    requires
        a <= b,
    ensures
        prefix_total(records, a) <= prefix_total(records, b),
    decreases b - a,
{
    if a < b {
        lemma_prefix_total_le(records, a, b - 1);
    }
}

/// Two record tables agreeing on their first `j` columns count the same there.
pub proof fn lemma_prefix_total_eq(
    a: Seq<Vec<kurbo::LineIntersection>>,
    b: Seq<Vec<kurbo::LineIntersection>>,
    j: int,
)
    requires
        forall|t: int| 0 <= t < j ==> a[t] == b[t],
    ensures
        prefix_total(a, j) == prefix_total(b, j),
    decreases j,
{
    if j > 0 {
        lemma_prefix_total_eq(a, b, j - 1);
    }
}

/// Splits one segment at each recorded parameter, in record order: with `k`
/// records the result holds the `k + 1` consecutive parts of the segment,
/// each of the segment's own shape. The records must be sorted ascending by
/// parameter for the parts to be forward-oriented.
pub fn cut_segment(segment: &Segment, records: &Vec<kurbo::LineIntersection>) -> (r: Vec<Segment>)
    ensures
        r@.len() == records@.len() + 1,
        forall|i: int| 0 <= i < r@.len() ==> ((#[trigger] r@[i]) is Line <==> segment is Line),
{
    let mut parts: Vec<Segment> = Vec::new();
    let mut i: usize = 0;
    while i < records.len()
        invariant
            i <= records@.len(),
            parts@.len() == i,
            forall|t: int| 0 <= t < parts@.len() ==> ((#[trigger] parts@[t]) is Line <==> segment is Line),
        decreases records@.len() - i,
    {
        let from = if i == 0 { None } else { Some(records[i - 1]) };
        parts.push(segment.subsegment(from, Some(records[i])));
        i = i + 1;
    }
    let from = if records.len() == 0 { None } else { Some(records[records.len() - 1]) };
    parts.push(segment.subsegment(from, None));
    parts
}

/// Walks the path's segments in order; a segment with no records is appended
/// unchanged to the current (last) sub-path, and a segment with records is
/// split, its first part ending the current sub-path and each further part
/// beginning a new one. `records[j]` lists the intersections on segment `j`,
/// sorted ascending by parameter.
pub fn cut_path(path: &Path, records: &PathIntersections) -> (r: Vec<Path>)
    requires
        records@.len() == path.segments@.len(),
    ensures
        r@.len() == 1 + seg_total(records@),
        flat_seq(r@).len() == path.segments@.len() + seg_total(records@),
        forall|i: int| 0 <= i < r@.len() ==> {
            &&& (#[trigger] r@[i]).source_id == path.source_id
            &&& r@[i].has_fill == path.has_fill
            &&& r@[i].fill_rule == path.fill_rule
            &&& !r@[i].closed
        },
        forall|j: int|
            0 <= j < path.segments@.len() && records@[j]@.len() == 0 ==> #[trigger] flat_seq(
                r@,
            )[j + prefix_total(records@, j)] == path.segments@[j],
        forall|j: int, t: int|
            0 <= j < path.segments@.len() && 0 <= t <= records@[j]@.len() ==> ((#[trigger] flat_seq(
                r@,
            )[j + prefix_total(records@, j) + t]) is Line <==> path.segments@[j] is Line),
        seg_total(records@) == 0 ==> r@.len() == 1 && r@[0].segments@ =~= path.segments@,
{
    let mut out: Vec<Path> = Vec::new();
    out.push(Path::new(path.source_id, false, path.has_fill, path.fill_rule));
    proof {
        lemma_flat_empty();
        assert(out@.drop_last() =~= Seq::<Path>::empty());
        assert(flat_seq(out@) =~= Seq::<Segment>::empty());
    }

    let mut j: usize = 0;
    while j < path.segments.len()
        invariant
            records@.len() == path.segments@.len(),
            j <= path.segments@.len(),
            out@.len() == 1 + prefix_total(records@, j as int),
            flat_seq(out@).len() == j + prefix_total(records@, j as int),
            forall|i: int| 0 <= i < out@.len() ==> {
                &&& (#[trigger] out@[i]).source_id == path.source_id
                &&& out@[i].has_fill == path.has_fill
                &&& out@[i].fill_rule == path.fill_rule
                &&& !out@[i].closed
            },
            forall|jj: int|
                0 <= jj < j && records@[jj]@.len() == 0 ==> #[trigger] flat_seq(
                    out@,
                )[jj + prefix_total(records@, jj)] == path.segments@[jj],
            forall|jj: int, t: int|
                0 <= jj < j && 0 <= t <= records@[jj]@.len() ==> ((#[trigger] flat_seq(
                    out@,
                )[jj + prefix_total(records@, jj) + t]) is Line <==> path.segments@[jj] is Line),
        decreases path.segments@.len() - j,
    {
        let ghost flat0 = flat_seq(out@);
        let ghost out0 = out@;
        let seg = path.segments[j];
        if records[j].len() == 0 {
            let mut lastp = out.pop().unwrap();
            lastp.segments.push(seg);
            proof {
                lemma_flat_push(out@, lastp);
                assert(flat_seq(out@.push(lastp)) =~= flat0.push(seg));
            }
            out.push(lastp);
            proof {
                assert(flat_seq(out@) == flat0.push(seg));
                assert(forall|x: int| 0 <= x < flat0.len() ==> #[trigger] flat_seq(out@)[x] == flat0[x]);
                assert(flat_seq(out@)[flat0.len() as int] == seg);
            }
        } else {
            let parts = cut_segment(&seg, &records[j]);
            let mut lastp = out.pop().unwrap();
            lastp.segments.push(parts[0]);
            proof {
                lemma_flat_push(out@, lastp);
                assert(flat_seq(out@.push(lastp)) =~= flat0.push(parts@[0]));
            }
            out.push(lastp);
            let mut t: usize = 1;
            while t < parts.len()
                invariant
                    1 <= t <= parts@.len(),
                    0 <= j < path.segments@.len(),
                    seg == path.segments@[j as int],
                    forall|i: int|
                        0 <= i < parts@.len() ==> ((#[trigger] parts@[i]) is Line <==> seg
                            is Line),
                    out@.len() == out0.len() + t - 1,
                    flat_seq(out@).len() == flat0.len() + t,
                    forall|i: int| 0 <= i < out@.len() ==> {
                        &&& (#[trigger] out@[i]).source_id == path.source_id
                        &&& out@[i].has_fill == path.has_fill
                        &&& out@[i].fill_rule == path.fill_rule
                        &&& !out@[i].closed
                    },
                    forall|x: int| 0 <= x < flat0.len() ==> #[trigger] flat_seq(out@)[x] == flat0[x],
                    forall|x: int|
                        flat0.len() <= x < flat_seq(out@).len() ==> ((#[trigger] flat_seq(
                            out@,
                        )[x]) is Line <==> path.segments@[j as int] is Line),
                decreases parts@.len() - t,
            {
                let ghost flat_before = flat_seq(out@);
                let mut np = Path::new(path.source_id, false, path.has_fill, path.fill_rule);
                np.segments.push(parts[t]);
                proof {
                    lemma_flat_push(out@, np);
                    assert(np.segments@ =~= seq![parts@[t as int]]);
                }
                out.push(np);
                proof {
                    assert(flat_seq(out@) =~= flat_before.push(parts@[t as int]));
                    assert(flat_seq(out@)[flat_before.len() as int] == parts@[t as int]);
                }
                t = t + 1;
            }
        }
        proof {
            assert(prefix_total(records@, j as int + 1) == prefix_total(records@, j as int)
                + records@[j as int]@.len());
            assert forall|jj: int|
                0 <= jj < j + 1 && records@[jj]@.len() == 0 implies #[trigger] flat_seq(
                    out@,
                )[jj + prefix_total(records@, jj)] == path.segments@[jj] by {
                lemma_prefix_total_le(records@, jj, j as int);
                if jj < j {
                    assert(jj + prefix_total(records@, jj) < flat0.len());
                    assert(flat_seq(out@)[jj + prefix_total(records@, jj)] == flat0[jj
                        + prefix_total(records@, jj)]);
                } else {
                    assert(jj == j);
                    assert(jj + prefix_total(records@, jj) == flat0.len());
                }
            }
            assert forall|jj: int, t: int|
                0 <= jj < j + 1 && 0 <= t <= records@[jj]@.len() implies ((#[trigger] flat_seq(
                    out@,
                )[jj + prefix_total(records@, jj) + t]) is Line <==> path.segments@[jj]
                is Line) by {
                if jj < j {
                    lemma_prefix_total_le(records@, jj + 1, j as int);
                    assert(prefix_total(records@, jj + 1) == prefix_total(records@, jj)
                        + records@[jj]@.len());
                    assert(jj + prefix_total(records@, jj) + t < flat0.len());
                    assert(flat_seq(out@)[jj + prefix_total(records@, jj) + t] == flat0[jj
                        + prefix_total(records@, jj) + t]);
                } else {
                    assert(jj == j);
                    assert(jj + prefix_total(records@, jj) + t == flat0.len() + t);
                }
            }
        }
        j = j + 1;
    }

    proof {
        assert(seg_total(records@) == prefix_total(records@, records@.len() as int));
        if seg_total(records@) == 0 {
            assert forall|jj: int| 0 <= jj < path.segments@.len() implies records@[jj]@.len() == 0
                && prefix_total(records@, jj) == 0 by {
                lemma_prefix_total_le(records@, jj, records@.len() as int);
                lemma_prefix_total_le(records@, jj + 1, records@.len() as int);
                assert(prefix_total(records@, jj + 1) == prefix_total(records@, jj)
                    + records@[jj]@.len());
            }
            assert(out@[0].segments@ =~= flat_seq(out@)) by {
                lemma_flat_empty();
                assert(out@.drop_last() =~= Seq::<Path>::empty());
                assert(flat_seq(out@) == flat_seq(out@.drop_last()) + out@.last().segments@);
                assert(out@.last() == out@[0]);
            }
            assert forall|jj: int| 0 <= jj < path.segments@.len() implies out@[0].segments@[jj]
                == path.segments@[jj] by {
                assert(prefix_total(records@, jj) == 0);
                assert(flat_seq(out@)[jj + prefix_total(records@, jj)] == path.segments@[jj]);
            }
            assert(out@[0].segments@ =~= path.segments@);
        }
    }
    out
}

} // verus!
