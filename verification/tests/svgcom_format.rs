use svgps::svgcom::{SvgCom, CommandKind, FormatError, svgcom_of_paths, render_path_data};
use svgps::path::{Path, PathCommand, FillRule};
use svgps::geom::Segment;

fn tokens(sc: &SvgCom) -> Vec<&str> {
    sc.coordinates.iter().map(|s| s.as_str()).collect()
}

#[test]
fn parses_a_plain_document() {
    let sc = SvgCom::from_svgcom_str("2 3 2 4\nML\n0 0 10.5 0\n").unwrap();
    assert_eq!(sc.view_size.width, 2);
    assert_eq!(sc.view_size.height, 3);
    assert_eq!(sc.commands, vec![CommandKind::Move, CommandKind::Line]);
    assert_eq!(tokens(&sc), vec!["0", "0", "10.5", "0"]);
    assert_eq!(sc.points_count(), 2);
    assert_eq!(sc.coordinates_count(), 4);
}

#[test]
fn parses_without_trailing_newline_and_with_crlf() {
    let sc = SvgCom::from_svgcom_str("1 1 1 2\nM\n4 5").unwrap();
    assert_eq!(tokens(&sc), vec!["4", "5"]);
    let sc = SvgCom::from_svgcom_str("1 1 0 0\r\n\r\n\r\n").unwrap();
    assert_eq!(sc.commands.len(), 0);
    assert_eq!(sc.coordinates.len(), 0);
}

#[test]
fn rejects_fewer_than_three_lines() {
    assert_eq!(SvgCom::from_svgcom_str("").unwrap_err(), FormatError::MissingLines);
    assert_eq!(SvgCom::from_svgcom_str("1 1 0 0").unwrap_err(), FormatError::MissingLines);
    assert_eq!(SvgCom::from_svgcom_str("1 1 0 0\n\n").unwrap_err(), FormatError::MissingLines);
}

#[test]
fn rejects_bad_integer_tokens() {
    assert_eq!(SvgCom::from_svgcom_str("x 1 0 0\n\n\n").unwrap_err(), FormatError::BadInteger);
    assert_eq!(SvgCom::from_svgcom_str("-1 1 0 0\n\n\n").unwrap_err(), FormatError::BadInteger);
    // just past the 32-bit range
    assert_eq!(
        SvgCom::from_svgcom_str("4294967296 1 0 0\n\n\n").unwrap_err(),
        FormatError::BadInteger
    );
}

#[test]
fn accepts_integer_tokens_the_way_rust_reads_them() {
    // a leading plus sign and leading zeros are fine
    let sc = SvgCom::from_svgcom_str("+7 007 0 0\n\n\n").unwrap();
    assert_eq!(sc.view_size.width, 7);
    assert_eq!(sc.view_size.height, 7);
    // the largest 32-bit value is fine
    let sc = SvgCom::from_svgcom_str("4294967295 1 0 0\n\n\n").unwrap();
    assert_eq!(sc.view_size.width, u32::MAX);
}

#[test]
fn rejects_wrong_metrics_count() {
    assert_eq!(SvgCom::from_svgcom_str("1 1 0\n\n\n").unwrap_err(), FormatError::BadMetricsCount);
    assert_eq!(
        SvgCom::from_svgcom_str("1 1 0 0 9\n\n\n").unwrap_err(),
        FormatError::BadMetricsCount
    );
}

#[test]
fn rejects_bad_float_tokens() {
    assert_eq!(
        SvgCom::from_svgcom_str("1 1 1 2\nM\n0 zz\n").unwrap_err(),
        FormatError::BadFloat
    );
}

#[test]
fn rejects_counts_that_contradict_the_header() {
    // header says two commands, the line has one
    assert_eq!(
        SvgCom::from_svgcom_str("1 1 2 2\nM\n0 0\n").unwrap_err(),
        FormatError::CountMismatch
    );
    // header says two coordinates, the line has four
    assert_eq!(
        SvgCom::from_svgcom_str("1 1 1 2\nM\n0 0 1 1\n").unwrap_err(),
        FormatError::CountMismatch
    );
}

#[test]
fn rejects_coordinates_that_do_not_pair_up() {
    // header is self-consistent, but a move needs two coordinates, not four
    assert_eq!(
        SvgCom::from_svgcom_str("1 1 1 4\nM\n0 0 1 1\n").unwrap_err(),
        FormatError::CountMismatch
    );
}

#[test]
fn rejects_unknown_command_letters() {
    assert_eq!(
        SvgCom::from_svgcom_str("1 1 1 2\nX\n0 0\n").unwrap_err(),
        FormatError::UnknownCommand('X')
    );
    // the float check comes first, as in the check order
    assert_eq!(
        SvgCom::from_svgcom_str("1 1 1 2\nX\n0 zz\n").unwrap_err(),
        FormatError::BadFloat
    );
}

#[test]
fn serializes_a_path_exactly() {
    let commands = vec![PathCommand::MoveTo, PathCommand::LineTo];
    let points = vec![kurbo::Point::new(0.0, 0.0), kurbo::Point::new(10.0, 5.0)];
    let path = Path::from(0, false, FillRule::NonZero, &commands, &points);
    let sc = svgcom_of_paths(11, 6, &vec![path]);
    assert_eq!(sc.to_svgcom_string(), "11 6 2 4\nML\n0 0 10 5\n");
}

#[test]
fn round_trips_through_the_text_format() {
    let commands = vec![
        PathCommand::MoveTo,
        PathCommand::LineTo,
        PathCommand::CurveTo,
    ];
    let points = vec![
        kurbo::Point::new(0.25, -1.5),
        kurbo::Point::new(10.0, 0.125),
        kurbo::Point::new(1.0, 2.0),
        kurbo::Point::new(3.0, 4.0),
        kurbo::Point::new(5.5, 6.5),
    ];
    let path = Path::from(0, false, FillRule::NonZero, &commands, &points);
    let sc = svgcom_of_paths(12, 7, &vec![path]);
    let text = sc.to_svgcom_string();
    let back = SvgCom::from_svgcom_str(text.as_str()).unwrap();
    assert_eq!(back.view_size.width, sc.view_size.width);
    assert_eq!(back.view_size.height, sc.view_size.height);
    assert_eq!(back.commands, sc.commands);
    assert_eq!(tokens(&back), tokens(&sc));
}

#[test]
fn round_trips_an_empty_document() {
    let sc = SvgCom::new(1, 1);
    let text = sc.to_svgcom_string();
    assert_eq!(text, "1 1 0 0\n\n\n");
    let back = SvgCom::from_svgcom_str(text.as_str()).unwrap();
    assert_eq!(back.commands.len(), 0);
    assert_eq!(back.coordinates.len(), 0);
}

#[test]
fn renders_svg_path_data() {
    let data = render_path_data("1 1 2 4\nML\n0 0 10 5\n").unwrap();
    assert_eq!(data, "M0,0 L10,5");
    assert_eq!(
        render_path_data("1 1 1 2\nQ\n0 0\n").unwrap_err(),
        FormatError::UnknownCommand('Q')
    );
}

#[test]
fn connected_segments_share_one_move() {
    let path = Path {
        source_id: 0,
        closed: false,
        has_fill: false,
        fill_rule: FillRule::NonZero,
        segments: vec![
            Segment::Line(kurbo::Point::new(0.0, 0.0), kurbo::Point::new(1.0, 0.0)),
            Segment::Line(kurbo::Point::new(1.0, 0.0), kurbo::Point::new(2.0, 0.0)),
        ],
    };
    let sc = svgcom_of_paths(2, 1, &vec![path]);
    assert_eq!(sc.commands, vec![CommandKind::Move, CommandKind::Line, CommandKind::Line]);
}

#[test]
fn detached_segments_start_new_subpaths() {
    let path = Path {
        source_id: 0,
        closed: false,
        has_fill: false,
        fill_rule: FillRule::NonZero,
        segments: vec![
            Segment::Line(kurbo::Point::new(0.0, 0.0), kurbo::Point::new(1.0, 0.0)),
            Segment::Line(kurbo::Point::new(5.0, 5.0), kurbo::Point::new(6.0, 5.0)),
        ],
    };
    let sc = svgcom_of_paths(7, 6, &vec![path]);
    assert_eq!(
        sc.commands,
        vec![CommandKind::Move, CommandKind::Line, CommandKind::Move, CommandKind::Line]
    );
}

#[test]
fn curves_serialize_with_six_coordinates() {
    let path = Path {
        source_id: 0,
        closed: false,
        has_fill: false,
        fill_rule: FillRule::NonZero,
        segments: vec![Segment::Cubic(
            kurbo::Point::new(0.0, 0.0),
            kurbo::Point::new(0.0, 1.0),
            kurbo::Point::new(1.0, 1.0),
            kurbo::Point::new(1.0, 0.0),
        )],
    };
    let sc = svgcom_of_paths(1, 1, &vec![path]);
    assert_eq!(sc.commands, vec![CommandKind::Move, CommandKind::Curve]);
    assert_eq!(sc.to_svgcom_string(), "1 1 2 8\nMC\n0 0 0 1 1 1 1 0\n");
}

#[test]
fn reserializing_a_parsed_document_reproduces_it() {
    for text in ["1 1 1 2\nM\n0 0\n", "3 4 2 8\nMC\n0 0 0 1 1 1 1 0\n", "1 1 0 0\n\n\n"] {
        let sc = SvgCom::from_svgcom_str(text).unwrap();
        assert_eq!(sc.to_svgcom_string(), text);
    }
}
