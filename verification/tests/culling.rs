use svgps::geom::Segment;
use svgps::path::{Path, PathCommand, FillRule};
use svgps::cull::autocut_paths;
use svgps::ext::Tolerance;

fn pt(x: f64, y: f64) -> kurbo::Point {
    kurbo::Point::new(x, y)
}

fn square(source_id: usize) -> Path {
    let commands = vec![
        PathCommand::MoveTo,
        PathCommand::LineTo,
        PathCommand::LineTo,
        PathCommand::LineTo,
        PathCommand::ClosePath,
    ];
    let points = vec![pt(0.0, 0.0), pt(10.0, 0.0), pt(10.0, 10.0), pt(0.0, 10.0)];
    Path::from(source_id, true, FillRule::NonZero, &commands, &points)
}

fn stroke(source_id: usize, a: kurbo::Point, b: kurbo::Point) -> Path {
    let commands = vec![PathCommand::MoveTo, PathCommand::LineTo];
    let points = vec![a, b];
    Path::from(source_id, false, FillRule::NonZero, &commands, &points)
}

fn tolerance() -> Tolerance {
    Tolerance::from_hundredths(25)
}

#[test]
fn a_single_path_passes_through_unchanged() {
    let path = stroke(0, pt(0.0, 0.0), pt(10.0, 0.0));
    let survivors = autocut_paths(vec![path], &tolerance());
    assert_eq!(survivors.len(), 1);
    assert_eq!(survivors[0].source_id, 0);
    assert_eq!(survivors[0].segments.len(), 1);
    match survivors[0].segments[0] {
        Segment::Line(a, b) => {
            assert_eq!(a, pt(0.0, 0.0));
            assert_eq!(b, pt(10.0, 0.0));
        },
        _ => panic!("the line survives as a line"),
    }
}

#[test]
fn a_later_fill_swallows_a_fully_covered_stroke() {
    // the stroke lies inside the square and the square is drawn after it
    let survivors = autocut_paths(
        vec![stroke(0, pt(2.0, 5.0), pt(8.0, 5.0)), square(1)],
        &tolerance(),
    );
    assert_eq!(survivors.len(), 1);
    assert_eq!(survivors[0].source_id, 1);
}

#[test]
fn draw_order_decides_occlusion() {
    // the same geometry, with the square drawn first: the stroke survives
    let survivors = autocut_paths(
        vec![square(1), stroke(0, pt(2.0, 5.0), pt(8.0, 5.0))],
        &tolerance(),
    );
    assert_eq!(survivors.len(), 2);
    assert_eq!(survivors[0].source_id, 1);
    assert_eq!(survivors[1].source_id, 0);
    assert_eq!(survivors[1].segments.len(), 1);
}

#[test]
fn a_crossing_stroke_loses_exactly_its_hidden_middle() {
    // the stroke runs straight through the square: it is cut where it enters
    // and leaves, and only the middle piece disappears
    let survivors = autocut_paths(
        vec![stroke(0, pt(-5.0, 5.0), pt(15.0, 5.0)), square(1)],
        &tolerance(),
    );
    assert_eq!(survivors.len(), 3);
    assert_eq!(survivors[0].source_id, 0);
    assert_eq!(survivors[1].source_id, 0);
    assert_eq!(survivors[2].source_id, 1);

    match survivors[0].segments[0] {
        Segment::Line(a, b) => {
            assert_eq!(a, pt(-5.0, 5.0));
            assert!((b.x - 0.0).abs() < 1e-9 && (b.y - 5.0).abs() < 1e-9);
        },
        _ => panic!("line fragment expected"),
    }
    match survivors[1].segments[0] {
        Segment::Line(a, b) => {
            assert!((a.x - 10.0).abs() < 1e-9 && (a.y - 5.0).abs() < 1e-9);
            assert_eq!(b, pt(15.0, 5.0));
        },
        _ => panic!("line fragment expected"),
    }
}

#[test]
fn an_unfilled_later_shape_hides_nothing() {
    let mut outline = square(1);
    outline.has_fill = false;
    let survivors = autocut_paths(
        vec![stroke(0, pt(2.0, 5.0), pt(8.0, 5.0)), outline],
        &tolerance(),
    );
    // the stroke does not even touch the outline, and the outline cannot cover
    assert_eq!(survivors.len(), 2);
    assert_eq!(survivors[0].source_id, 0);
}

#[test]
fn the_last_path_always_survives_whole() {
    let survivors = autocut_paths(
        vec![square(0), square(1), stroke(2, pt(-5.0, 5.0), pt(15.0, 5.0))],
        &tolerance(),
    );
    let last = survivors.last().unwrap();
    assert_eq!(last.source_id, 2);
    assert_eq!(last.segments.len(), 1);
}

#[test]
fn a_curve_is_cut_where_it_crosses_a_later_fill() {
    // an arch rising through the square from outside: its hidden part goes
    let commands = vec![PathCommand::MoveTo, PathCommand::CurveTo];
    let points = vec![
        pt(-5.0, 5.0),
        pt(0.0, 15.0),
        pt(10.0, 15.0),
        pt(15.0, 5.0),
    ];
    let arch = Path::from(0, false, FillRule::NonZero, &commands, &points);
    let survivors = autocut_paths(vec![arch, square(1)], &tolerance());
    // the arch is split and at least one of its pieces survives, and the
    // square itself always survives whole at the end
    assert!(survivors.len() >= 2);
    assert!(survivors.iter().any(|p| p.source_id == 0));
    assert_eq!(survivors.last().unwrap().source_id, 1);
    assert_eq!(survivors.last().unwrap().segments.len(), 4);
}

#[test]
fn crossing_strokes_are_cut_but_nothing_is_removed() {
    // neither stroke can cover, so every fragment survives, in order
    let survivors = autocut_paths(
        vec![
            stroke(0, pt(-5.0, 5.0), pt(15.0, 5.0)),
            stroke(1, pt(5.0, -5.0), pt(5.0, 15.0)),
        ],
        &tolerance(),
    );
    assert_eq!(survivors.len(), 3);
    assert_eq!(survivors[0].source_id, 0);
    assert_eq!(survivors[1].source_id, 0);
    assert_eq!(survivors[2].source_id, 1);
    match survivors[0].segments[0] {
        Segment::Line(a, b) => {
            assert_eq!(a, pt(-5.0, 5.0));
            assert!((b.x - 5.0).abs() < 1e-9 && (b.y - 5.0).abs() < 1e-9);
        },
        _ => panic!("line fragment expected"),
    }
}

#[test]
fn culling_nothing_yields_nothing() {
    let survivors = autocut_paths(Vec::new(), &tolerance());
    assert_eq!(survivors.len(), 0);
}
