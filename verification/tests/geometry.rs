use svgps::geom::Segment;
use svgps::path::{Path, PathCommand, FillRule};
use svgps::cover::{CoveringShape, test_winding};
use svgps::cut::{cut_segment, cut_path};
use svgps::intersect::segment_intersections;
use svgps::ext::Tolerance;

fn pt(x: f64, y: f64) -> kurbo::Point {
    kurbo::Point::new(x, y)
}

fn record(t: f64) -> kurbo::LineIntersection {
    kurbo::LineIntersection { line_t: 0.0, segment_t: t }
}

/// A filled unit-ish square, drawn counterclockwise from the origin.
fn square(source_id: usize, rule: FillRule) -> Path {
    let commands = vec![
        PathCommand::MoveTo,
        PathCommand::LineTo,
        PathCommand::LineTo,
        PathCommand::LineTo,
        PathCommand::ClosePath,
    ];
    let points = vec![pt(0.0, 0.0), pt(10.0, 0.0), pt(10.0, 10.0), pt(0.0, 10.0)];
    Path::from(source_id, true, rule, &commands, &points)
}

#[test]
fn builds_segments_from_commands() {
    let sq = square(1, FillRule::NonZero);
    assert!(sq.closed);
    assert!(sq.can_cover());
    // three lines plus the closing line back to the start
    assert_eq!(sq.segments.len(), 4);
    match sq.segments[3] {
        Segment::Line(a, b) => {
            assert_eq!(a, pt(0.0, 10.0));
            assert_eq!(b, pt(0.0, 0.0));
        },
        _ => panic!("expected the closing line"),
    }
}

#[test]
fn drops_a_zero_length_closing_segment() {
    let commands = vec![
        PathCommand::MoveTo,
        PathCommand::LineTo,
        PathCommand::LineTo,
        PathCommand::ClosePath,
    ];
    let points = vec![pt(0.0, 0.0), pt(10.0, 0.0), pt(0.0, 0.0)];
    let path = Path::from(0, false, FillRule::NonZero, &commands, &points);
    assert!(path.closed);
    assert_eq!(path.segments.len(), 2);
}

#[test]
fn samples_the_midpoint_parameter() {
    let line = Segment::Line(pt(0.0, 0.0), pt(10.0, 0.0));
    assert_eq!(line.sample_point(), pt(5.0, 0.0));
    let arch = Segment::Cubic(pt(0.0, 0.0), pt(0.0, 10.0), pt(10.0, 10.0), pt(10.0, 0.0));
    assert_eq!(arch.sample_point(), pt(5.0, 7.5));
}

#[test]
fn cuts_a_segment_at_sorted_parameters() {
    let line = Segment::Line(pt(0.0, 0.0), pt(10.0, 0.0));
    let parts = cut_segment(&line, &vec![record(0.25), record(0.5)]);
    assert_eq!(parts.len(), 3);
    let expected = [
        (pt(0.0, 0.0), pt(2.5, 0.0)),
        (pt(2.5, 0.0), pt(5.0, 0.0)),
        (pt(5.0, 0.0), pt(10.0, 0.0)),
    ];
    for (part, want) in parts.iter().zip(expected.iter()) {
        match part {
            Segment::Line(a, b) => {
                assert_eq!(*a, want.0);
                assert_eq!(*b, want.1);
            },
            _ => panic!("a cut line stays a line"),
        }
    }
}

#[test]
fn cut_path_produces_one_more_subpath_per_record() {
    let commands = vec![PathCommand::MoveTo, PathCommand::LineTo, PathCommand::LineTo];
    let points = vec![pt(0.0, 0.0), pt(10.0, 0.0), pt(10.0, 10.0)];
    let path = Path::from(7, false, FillRule::NonZero, &commands, &points);
    assert_eq!(path.segments.len(), 2);

    // two records on distinct segments: exactly three sub-paths
    let records = vec![vec![record(0.5)], vec![record(0.5)]];
    let subpaths = cut_path(&path, &records);
    assert_eq!(subpaths.len(), 3);
    let total: usize = subpaths.iter().map(|p| p.segments.len()).sum();
    assert_eq!(total, 4);
    for sub in subpaths.iter() {
        assert_eq!(sub.source_id, 7);
        assert!(!sub.closed);
    }
    // the concatenated fragments retrace the original path
    match (&subpaths[0].segments[0], &subpaths[1].segments[0]) {
        (Segment::Line(a0, b0), Segment::Line(a1, b1)) => {
            assert_eq!((*a0, *b0), (pt(0.0, 0.0), pt(5.0, 0.0)));
            assert_eq!((*a1, *b1), (pt(5.0, 0.0), pt(10.0, 0.0)));
        },
        _ => panic!("line fragments expected"),
    }
    match subpaths[2].segments[0] {
        Segment::Line(a, b) => assert_eq!((a, b), (pt(10.0, 5.0), pt(10.0, 10.0))),
        _ => panic!("line fragment expected"),
    }
}

#[test]
fn cut_path_without_records_keeps_the_segments() {
    let commands = vec![PathCommand::MoveTo, PathCommand::LineTo];
    let points = vec![pt(0.0, 0.0), pt(10.0, 0.0)];
    let path = Path::from(0, false, FillRule::NonZero, &commands, &points);
    let subpaths = cut_path(&path, &vec![vec![]]);
    assert_eq!(subpaths.len(), 1);
    assert_eq!(subpaths[0].segments.len(), 1);
}

#[test]
fn intersects_crossing_lines_once() {
    let tolerance = Tolerance::from_hundredths(25);
    let horizontal = Segment::Line(pt(0.0, 0.0), pt(10.0, 0.0));
    let vertical = Segment::Line(pt(5.0, -5.0), pt(5.0, 5.0));
    let hits = segment_intersections(&horizontal, &vertical, &tolerance);
    assert_eq!(hits.len(), 1);
    assert!((hits[0].segment_t - 0.5).abs() < 1e-9);
}

#[test]
fn intersects_lines_and_curves_both_ways() {
    let tolerance = Tolerance::from_hundredths(25);
    let arch = Segment::Cubic(pt(0.0, 0.0), pt(0.0, 10.0), pt(10.0, 10.0), pt(10.0, 0.0));
    let line = Segment::Line(pt(-5.0, 5.0), pt(15.0, 5.0));
    // the arch rises through y = 5 and comes back down
    assert_eq!(segment_intersections(&arch, &line, &tolerance).len(), 2);
    let hits = segment_intersections(&line, &arch, &tolerance);
    assert_eq!(hits.len(), 2);
    // parameters lie on the line
    for hit in hits.iter() {
        assert!(0.0 <= hit.segment_t && hit.segment_t <= 1.0);
    }
}

#[test]
fn curve_curve_intersections_go_through_flattening() {
    let tolerance = Tolerance::from_hundredths(25);
    let arch = Segment::Cubic(pt(0.0, 0.0), pt(0.0, 10.0), pt(10.0, 10.0), pt(10.0, 0.0));
    let riser = Segment::Cubic(pt(4.0, -5.0), pt(6.0, 0.0), pt(4.0, 5.0), pt(6.0, 12.0));
    assert!(segment_intersections(&arch, &riser, &tolerance).len() >= 1);
}

#[test]
fn disjoint_bounding_boxes_yield_no_intersections() {
    let tolerance = Tolerance::from_hundredths(25);
    let samples = [
        (
            Segment::Line(pt(0.0, 0.0), pt(10.0, 0.0)),
            Segment::Line(pt(0.0, 5.0), pt(10.0, 5.0)),
        ),
        (
            Segment::Line(pt(0.0, 0.0), pt(1.0, 1.0)),
            Segment::Cubic(pt(50.0, 50.0), pt(52.0, 55.0), pt(55.0, 52.0), pt(60.0, 50.0)),
        ),
        (
            Segment::Cubic(pt(0.0, 0.0), pt(0.0, 10.0), pt(10.0, 10.0), pt(10.0, 0.0)),
            Segment::Cubic(pt(100.0, 0.0), pt(100.0, 10.0), pt(110.0, 10.0), pt(110.0, 0.0)),
        ),
        (
            Segment::Cubic(pt(0.0, 0.0), pt(3.0, 4.0), pt(6.0, 4.0), pt(9.0, 0.0)),
            Segment::Cubic(pt(0.0, 20.0), pt(3.0, 24.0), pt(6.0, 24.0), pt(9.0, 20.0)),
        ),
    ];
    for (a, b) in samples.iter() {
        assert_eq!(segment_intersections(a, b, &tolerance).len(), 0);
        assert_eq!(segment_intersections(b, a, &tolerance).len(), 0);
    }
}

#[test]
fn fill_rules_map_winding_numbers() {
    // a simple interior point winds exactly once, either way around
    for w in [1, -1] {
        assert!(test_winding(FillRule::NonZero, w));
        assert!(test_winding(FillRule::EvenOdd, w));
    }
    // an outside point winds zero times
    assert!(!test_winding(FillRule::NonZero, 0));
    assert!(!test_winding(FillRule::EvenOdd, 0));
    // a doubly-wrapped point differs between the rules
    assert!(test_winding(FillRule::NonZero, 2));
    assert!(!test_winding(FillRule::EvenOdd, 2));
    assert!(test_winding(FillRule::EvenOdd, -3));
}

#[test]
fn covers_square_interior_under_both_rules() {
    for rule in [FillRule::NonZero, FillRule::EvenOdd] {
        let sq = square(1, rule);
        let shape = CoveringShape::new(&sq).unwrap();
        assert!(shape.covers_point(pt(5.0, 5.0)));
        assert!(shape.covers_point(pt(1.0, 9.0)));
        assert!(!shape.covers_point(pt(-1.0, 5.0)));
        assert!(!shape.covers_point(pt(5.0, 11.0)));
    }
}

#[test]
fn only_closed_filled_paths_cover() {
    let mut open_path = square(1, FillRule::NonZero);
    open_path.closed = false;
    assert!(CoveringShape::new(&open_path).is_none());
    let mut unfilled = square(1, FillRule::NonZero);
    unfilled.has_fill = false;
    assert!(CoveringShape::new(&unfilled).is_none());
    assert!(CoveringShape::new(&square(1, FillRule::NonZero)).is_some());
}

#[test]
fn a_shape_never_covers_its_own_source() {
    let sq = square(3, FillRule::NonZero);
    let shape = CoveringShape::new(&sq).unwrap();

    let commands = vec![PathCommand::MoveTo, PathCommand::LineTo];
    let points = vec![pt(2.0, 5.0), pt(8.0, 5.0)];
    // an interior stroke from the same source is never covered ...
    let own = Path::from(3, false, FillRule::NonZero, &commands, &points);
    assert!(!own.is_covered_by(&shape));
    // ... while the same stroke from another source is
    let other = Path::from(4, false, FillRule::NonZero, &commands, &points);
    assert!(other.is_covered_by(&shape));
}

#[test]
fn the_probe_is_the_first_segments_midpoint() {
    let shape = CoveringShape::new(&square(1, FillRule::NonZero)).unwrap();
    // first segment inside the square, the others far outside: the first
    // segment's midpoint decides
    let inside_first = Path {
        source_id: 2,
        closed: false,
        has_fill: false,
        fill_rule: FillRule::NonZero,
        segments: vec![
            Segment::Line(pt(2.0, 5.0), pt(8.0, 5.0)),
            Segment::Line(pt(50.0, 50.0), pt(60.0, 50.0)),
            Segment::Line(pt(60.0, 50.0), pt(70.0, 50.0)),
        ],
    };
    assert!(inside_first.is_covered_by(&shape));
    // and the other way around
    let outside_first = Path {
        source_id: 2,
        closed: false,
        has_fill: false,
        fill_rule: FillRule::NonZero,
        segments: vec![
            Segment::Line(pt(50.0, 50.0), pt(60.0, 50.0)),
            Segment::Line(pt(2.0, 5.0), pt(8.0, 5.0)),
            Segment::Line(pt(60.0, 50.0), pt(70.0, 50.0)),
        ],
    };
    assert!(!outside_first.is_covered_by(&shape));
}

#[test]
fn an_empty_path_is_never_covered() {
    let shape = CoveringShape::new(&square(1, FillRule::NonZero)).unwrap();
    let empty = Path::new(2, false, false, FillRule::NonZero);
    assert!(!empty.is_covered_by(&shape));
}
