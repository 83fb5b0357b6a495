//! Paths: ordered segment lists with their shape metadata, and their
//! construction from a shape's draw commands and coordinate stream.

use vstd::prelude::*;
use crate::geom::Segment;
use crate::ext::points_equal;

verus! {

/// Policy mapping a winding number to "inside".
#[derive(Clone, Copy, PartialEq, Eq, Structural, Debug)]
pub enum FillRule {
    NonZero,
    EvenOdd,
}

/// One draw command of a shape, as the document parser hands them over.
#[derive(Clone, Copy, PartialEq, Eq, Structural, Debug)]
pub enum PathCommand {
    MoveTo,
    LineTo,
    CurveTo,
    ClosePath,
}

/// An ordered sequence of segments plus shape metadata. Paths produced by
/// cutting are new values; construction never mutates its inputs.
pub struct Path {
    /// Identity of the originating shape; used for self-comparison only.
    pub source_id: usize,
    /// Whether the original shape ended with an explicit close command.
    pub closed: bool,
    /// Whether the original shape has a fill.
    pub has_fill: bool,
    /// Used only when the shape can cover.
    pub fill_rule: FillRule,
    /// The segments, in document drawing order.
    pub segments: Vec<Segment>,
}

impl Path {
    /// Only closed, filled shapes participate as occluders.
    pub open spec fn spec_can_cover(&self) -> bool {
        self.closed && self.has_fill
    }

    pub fn can_cover(&self) -> (r: bool)
        ensures
            r == self.spec_can_cover(),
    {
        self.closed && self.has_fill
    }

    /// An empty path with the given metadata; it contributes nothing.
    pub fn new(source_id: usize, closed: bool, has_fill: bool, fill_rule: FillRule) -> (r: Path)
        ensures
            r.source_id == source_id,
            r.closed == closed,
            r.has_fill == has_fill,
            r.fill_rule == fill_rule,
            r.segments@ =~= Seq::<Segment>::empty(),
    {
        Path { source_id, closed, has_fill, fill_rule, segments: Vec::new() }
    }
}

/// The state of the segment extraction after some prefix of the commands.
pub ghost struct Builder {
    /// Index of the next unread coordinate pair.
    pub next_point: int,
    /// The current point, once a start point has been seen.
    pub current: Option<kurbo::Point>,
    /// The start point of the current subpath.
    pub subpath_start: Option<kurbo::Point>,
    /// How many closing segments have been decided on so far.
    pub closes_seen: int,
    /// The segments emitted so far.
    pub segments: Seq<Segment>,
}

pub open spec fn builder_init() -> Builder {
    Builder {
        next_point: 0,
        current: None,
        subpath_start: None,
        closes_seen: 0,
        segments: Seq::empty(),
    }
}

/// One command applied to the builder state. `drops[k]` tells whether the
/// `k`-th close command found its subpath already ending at its start point;
/// such a close is dropped rather than emitted as a zero-length segment.
/// Commands whose points are missing from the stream are ignored, and a line
/// or curve before any start point only consumes its points.
pub open spec fn builder_step(
    s: Builder,
    cmd: PathCommand,
    pts: Seq<kurbo::Point>,
    drops: Seq<bool>,
) -> Builder {
    match cmd {
        PathCommand::MoveTo => {
            if s.next_point + 1 <= pts.len() {
                Builder {
                    next_point: s.next_point + 1,
                    current: Some(pts[s.next_point]),
                    subpath_start: Some(pts[s.next_point]),
                    ..s
                }
            } else {
                s
            }
        },
        PathCommand::LineTo => {
            if s.next_point + 1 <= pts.len() {
                match s.current {
                    Some(cur) => Builder {
                        next_point: s.next_point + 1,
                        current: Some(pts[s.next_point]),
                        segments: s.segments.push(Segment::Line(cur, pts[s.next_point])),
                        ..s
                    },
                    None => Builder { next_point: s.next_point + 1, ..s },
                }
            } else {
                s
            }
        },
        PathCommand::CurveTo => {
            if s.next_point + 3 <= pts.len() {
                match s.current {
                    Some(cur) => Builder {
                        next_point: s.next_point + 3,
                        current: Some(pts[s.next_point + 2]),
                        segments: s.segments.push(
                            Segment::Cubic(
                                cur,
                                pts[s.next_point],
                                pts[s.next_point + 1],
                                pts[s.next_point + 2],
                            ),
                        ),
                        ..s
                    },
                    None => Builder { next_point: s.next_point + 3, ..s },
                }
            } else {
                s
            }
        },
        PathCommand::ClosePath => {
            match (s.current, s.subpath_start) {
                (Some(cur), Some(start)) => {
                    let dropped = s.closes_seen < drops.len() && drops[s.closes_seen];
                    Builder {
                        closes_seen: s.closes_seen + 1,
                        current: Some(start),
                        segments: if dropped {
                            s.segments
                        } else {
                            s.segments.push(Segment::Line(cur, start))
                        },
                        ..s
                    }
                },
                _ => s,
            }
        },
    }
}

/// The builder state after the first `k` commands.
pub open spec fn builder_run(
    cmds: Seq<PathCommand>,
    pts: Seq<kurbo::Point>,
    drops: Seq<bool>,
    k: int,
) -> Builder
    decreases k,
{
    if k <= 0 {
        builder_init()
    } else {
        builder_step(builder_run(cmds, pts, drops, k - 1), cmds[k - 1], pts, drops)
    }
}

proof fn lemma_closes_bounds(cmds: Seq<PathCommand>, pts: Seq<kurbo::Point>, drops: Seq<bool>, k: int)
    ensures
        0 <= builder_run(cmds, pts, drops, k).closes_seen,
        k >= 1 ==> builder_run(cmds, pts, drops, k - 1).closes_seen
            <= builder_run(cmds, pts, drops, k).closes_seen,
    decreases k,
{
    if k >= 1 {
        lemma_closes_bounds(cmds, pts, drops, k - 1);
    }
}

/// Appending an undecided drop does not change a run that never reads it.
proof fn lemma_builder_extend(
    cmds: Seq<PathCommand>,
    pts: Seq<kurbo::Point>,
    drops: Seq<bool>,
    b: bool,
    k: int,
)
    requires
        builder_run(cmds, pts, drops, k).closes_seen <= drops.len(),
    ensures
        builder_run(cmds, pts, drops.push(b), k) == builder_run(cmds, pts, drops, k),
    decreases k,
{
    if k >= 1 {
        lemma_closes_bounds(cmds, pts, drops, k);
        lemma_builder_extend(cmds, pts, drops, b, k - 1);
        let s = builder_run(cmds, pts, drops, k - 1);
        match cmds[k - 1] {
            PathCommand::ClosePath => {
                if s.current is Some && s.subpath_start is Some {
                    lemma_closes_bounds(cmds, pts, drops, k - 1);
                    assert(builder_run(cmds, pts, drops, k).closes_seen == s.closes_seen + 1);
                    assert(0 <= s.closes_seen < drops.len());
                    assert(drops.push(b)[s.closes_seen] == drops[s.closes_seen]);
                }
            },
            _ => {},
        }
    }
}

impl Path {
    /// Builds a path from a shape's draw commands and its already-transformed
    /// coordinate stream (one point per move or line command, three per curve
    /// command). The segments are exactly those of a [`builder_run`] over the
    /// whole command list, for the drop decisions that the coordinate values
    /// dictate; the path is closed exactly when the last command closes it.
    pub fn from(
        source_id: usize,
        has_fill: bool,
        fill_rule: FillRule,
        commands: &Vec<PathCommand>,
        points: &Vec<kurbo::Point>,
    ) -> (r: Path)
        ensures
            r.source_id == source_id,
            r.has_fill == has_fill,
            r.fill_rule == fill_rule,
            r.closed == (commands@.len() > 0 && commands@.last() == PathCommand::ClosePath),
            exists|drops: Seq<bool>| {
                let b = #[trigger] builder_run(commands@, points@, drops, commands@.len() as int);
                r.segments@ == b.segments && drops.len() == b.closes_seen
            },
    {
        let ghost cmds = commands@;
        let ghost pts = points@;
        let ghost mut drops: Seq<bool> = Seq::empty();

        let mut segments: Vec<Segment> = Vec::new();
        let mut next_point: usize = 0;
        let mut current: Option<kurbo::Point> = None;
        let mut subpath_start: Option<kurbo::Point> = None;

        let mut k: usize = 0;
        while k < commands.len()
            invariant
                commands@ == cmds,
                points@ == pts,
                0 <= k <= cmds.len(),
                next_point == builder_run(cmds, pts, drops, k as int).next_point,
                current == builder_run(cmds, pts, drops, k as int).current,
                subpath_start == builder_run(cmds, pts, drops, k as int).subpath_start,
                segments@ == builder_run(cmds, pts, drops, k as int).segments,
                drops.len() == builder_run(cmds, pts, drops, k as int).closes_seen,
                next_point <= pts.len(),
            decreases commands.len() - k,
        {
            let cmd = commands[k];
            match cmd {
                PathCommand::MoveTo => {
                    if next_point < points.len() {
                        let p = points[next_point];
                        current = Some(p);
                        subpath_start = Some(p);
                        next_point = next_point + 1;
                    }
                },
                PathCommand::LineTo => {
                    if next_point < points.len() {
                        let p = points[next_point];
                        if let Some(cur) = current {
                            segments.push(Segment::Line(cur, p));
                            current = Some(p);
                        }
                        next_point = next_point + 1;
                    }
                },
                PathCommand::CurveTo => {
                    if next_point < points.len() && points.len() - next_point >= 3 {
                        let c1 = points[next_point];
                        let c2 = points[next_point + 1];
                        let p = points[next_point + 2];
                        if let Some(cur) = current {
                            segments.push(Segment::Cubic(cur, c1, c2, p));
                            current = Some(p);
                        }
                        next_point = next_point + 3;
                    }
                },
                PathCommand::ClosePath => {
                    if let (Some(cur), Some(start)) = (current, subpath_start) {
                        let degenerate = points_equal(&cur, &start);
                        proof {
                            lemma_builder_extend(cmds, pts, drops, degenerate, k as int);
                            drops = drops.push(degenerate);
                        }
                        if !degenerate {
                            segments.push(Segment::Line(cur, start));
                        }
                        current = Some(start);
                    }
                },
            }
            k = k + 1;
        }

        let closed = commands.len() > 0 && commands[commands.len() - 1] == PathCommand::ClosePath;
        Path { source_id, closed, has_fill, fill_rule, segments }
    }
}

} // verus!
