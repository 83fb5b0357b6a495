//! The svgcom plotter command format: three lines of text — a metrics header
//! (width, height, command count, coordinate count), one command letter per
//! path element, and the coordinates, two per move or line and six per curve.
//!
//! Coordinates are kept as their text tokens, so the format structure —
//! counts, letters, token layout — is exact verified data; only turning a
//! token into a number (and back) is trusted.

use vstd::prelude::*;
use vstd::string::StrSliceExecFns;
use vstd::string::StringExecFns;
use crate::text::{
    is_space, spec_lines, lines_from, line_break_from, lemma_line_break_from, spec_tokens,
    tokens_from, strip_cr, u32_token, u32_token_val, chars_of, find_line_break, find_token_ranges,
    parse_u32, lemma_tokens_clean, joined, dec_digits, lemma_dec_digits, lemma_tokens_of_joined,
    lemma_lines_three, lemma_joined_push, format_u64, is_digit,
};
use crate::ext::{float_token, parse_point, coordinate_tokens, Contour};
use crate::geom::Segment;
use crate::path::Path;
use crate::ext::points_equal;

verus! {

/// The pixel size of the document, rounded up to whole pixels.
#[derive(Debug)]
pub struct ImageSize {
    pub width: u32,
    pub height: u32,
}

impl ImageSize {
    pub fn new(width: u32, height: u32) -> (r: Self)
        ensures
            r.width == width,
            r.height == height,
    {
        Self { width, height }
    }
}

/// One plotter command kind: move, straight line, cubic curve.
#[derive(Clone, Copy, PartialEq, Eq, Structural, Debug)]
pub enum CommandKind {
    Move,
    Line,
    Curve,
}

/// How many points a command consumes: one per move or line, three per curve.
pub open spec fn command_points(k: CommandKind) -> nat {
    match k {
        CommandKind::Move => 1,
        CommandKind::Line => 1,
        CommandKind::Curve => 3,
    }
}

/// The points consumed by the first `k` commands.
pub open spec fn points_upto(cmds: Seq<CommandKind>, k: int) -> nat
    decreases k,
{
    if k <= 0 {
        0
    } else {
        points_upto(cmds, k - 1) + command_points(cmds[k - 1])
    }
}

/// The points consumed by all commands.
pub open spec fn spec_points_count(cmds: Seq<CommandKind>) -> nat {
    points_upto(cmds, cmds.len() as int)
}

pub proof fn lemma_points_upto_le(cmds: Seq<CommandKind>, a: int, b: int)
    requires
        a <= b,
    ensures
        points_upto(cmds, a) <= points_upto(cmds, b),
    decreases b - a,
{
    if a < b {
        lemma_points_upto_le(cmds, a, b - 1);
    }
}

proof fn lemma_points_upto_push_prefix(cmds: Seq<CommandKind>, c: CommandKind, k: int)
    requires
        0 <= k <= cmds.len(),
    ensures
        points_upto(cmds.push(c), k) == points_upto(cmds, k),
    decreases k,
{
    if k > 0 {
        lemma_points_upto_push_prefix(cmds, c, k - 1);
    }
}

/// One more command consumes its own points after those of the others.
pub proof fn lemma_points_push(cmds: Seq<CommandKind>, c: CommandKind)
    ensures
        spec_points_count(cmds.push(c)) == spec_points_count(cmds) + command_points(c),
{
    lemma_points_upto_push_prefix(cmds, c, cmds.len() as int);
    assert(points_upto(cmds.push(c), cmds.len() as int + 1) == points_upto(
        cmds.push(c),
        cmds.len() as int,
    ) + command_points(c));
}

/// The command letters of the format.
pub open spec fn letter_valid(c: char) -> bool {
    c == 'M' || c == 'L' || c == 'C'
}

pub open spec fn letter_command(c: char) -> CommandKind {
    if c == 'M' {
        CommandKind::Move
    } else if c == 'L' {
        CommandKind::Line
    } else {
        CommandKind::Curve
    }
}

pub open spec fn command_letter(k: CommandKind) -> char {
    match k {
        CommandKind::Move => 'M',
        CommandKind::Line => 'L',
        CommandKind::Curve => 'C',
    }
}

/// The position of the first letter outside the command alphabet, or the end.
pub open spec fn first_unknown(s: Seq<char>, i: int) -> int
    decreases s.len() - i,
{
    if i < 0 || i >= s.len() {
        s.len() as int
    } else if !letter_valid(s[i]) {
        i
    } else {
        first_unknown(s, i + 1)
    }
}

/// Why an svgcom text is rejected, mirroring the checks in order: too few
/// lines; a metrics token that is not an integer; not exactly four metrics; a
/// coordinate token that is not a float; command or coordinate counts that
/// contradict the header; a letter outside `M`, `L`, `C`; and coordinates
/// that do not pair up with the commands' needs.
#[derive(Clone, Copy, PartialEq, Eq, Structural, Debug)]
pub enum FormatError {
    MissingLines,
    BadInteger,
    BadMetricsCount,
    BadFloat,
    CountMismatch,
    UnknownCommand(char),
}

/// A coordinate token: float text without whitespace or line breaks.
pub open spec fn coordinate_token(s: Seq<char>) -> bool {
    &&& float_token(s)
    &&& s.len() > 0
    &&& forall|i: int| 0 <= i < s.len() ==> !is_space(#[trigger] s[i]) && s[i] != '\n'
}

/// The parsed (or to-be-written) form of an svgcom document.
#[derive(Debug)]
pub struct SvgCom {
    pub view_size: ImageSize,
    pub commands: Vec<CommandKind>,
    /// Coordinate tokens, two per point, in command order.
    pub coordinates: Vec<String>,
}

impl SvgCom {
    /// The coordinates pair up with the commands: two tokens per point.
    pub open spec fn counts_ok(&self) -> bool {
        self.coordinates@.len() == 2 * spec_points_count(self.commands@)
    }

    /// The coordinates pair up with the commands, and every token is float
    /// text that can stand in a line of its own right.
    pub open spec fn wf(&self) -> bool {
        &&& self.counts_ok()
        &&& forall|i: int|
            0 <= i < self.coordinates@.len() ==> coordinate_token(
                (#[trigger] self.coordinates@[i])@,
            )
    }

    /// An empty document of the given pixel size.
    pub fn new(width: u32, height: u32) -> (r: SvgCom)
        ensures
            r.view_size.width == width,
            r.view_size.height == height,
            r.commands@ =~= Seq::<CommandKind>::empty(),
            r.coordinates@ =~= Seq::<String>::empty(),
            r.wf(),
    {
        SvgCom { view_size: ImageSize::new(width, height), commands: Vec::new(), coordinates: Vec::new() }
    }

    /// How many points the commands consume.
    pub fn points_count(&self) -> (r: usize)
        requires
            self.counts_ok(),
        ensures
            r == spec_points_count(self.commands@),
    {
        let ghost cmds = self.commands@;
        let bound = self.coordinates.len();
        let mut total: usize = 0;
        let mut k: usize = 0;
        while k < self.commands.len()
            invariant
                self.counts_ok(),
                cmds == self.commands@,
                bound == 2 * spec_points_count(cmds),
                k <= cmds.len(),
                total == points_upto(cmds, k as int),
            decreases cmds.len() - k,
        {
            proof {
                lemma_points_upto_le(cmds, k as int + 1, cmds.len() as int);
            }
            let step: usize = match self.commands[k] {
                CommandKind::Move => 1,
                CommandKind::Line => 1,
                CommandKind::Curve => 3,
            };
            total = total + step;
            k = k + 1;
        }
        total
    }

    /// How many coordinates the commands consume: two per point.
    pub fn coordinates_count(&self) -> (r: usize)
        requires
            self.counts_ok(),
        ensures
            r == 2 * spec_points_count(self.commands@),
    {
        let n = self.points_count();
        let bound = self.coordinates.len();
        n * 2
    }
}


/// What parsing an svgcom text yields: either the failure kind, in check
/// order, or the document size, commands and coordinate tokens. Everything
/// after the third line is ignored.
pub open spec fn spec_parse(text: Seq<char>) -> Result<
    (u32, u32, Seq<CommandKind>, Seq<Seq<char>>),
    FormatError,
> {
    let ls = spec_lines(text);
    if ls.len() < 3 {
        Err(FormatError::MissingLines)
    } else {
        let mtoks = spec_tokens(ls[0]);
        let ctoks = spec_tokens(ls[2]);
        if exists|t: int| 0 <= t < mtoks.len() && !u32_token(#[trigger] mtoks[t]) {
            Err(FormatError::BadInteger)
        } else if mtoks.len() != 4 {
            Err(FormatError::BadMetricsCount)
        } else if exists|t: int| 0 <= t < ctoks.len() && !float_token(#[trigger] ctoks[t]) {
            Err(FormatError::BadFloat)
        } else if ls[1].len() != u32_token_val(mtoks[2]) || ctoks.len() != u32_token_val(
            mtoks[3],
        ) {
            Err(FormatError::CountMismatch)
        } else if first_unknown(ls[1], 0) < ls[1].len() {
            Err(FormatError::UnknownCommand(ls[1][first_unknown(ls[1], 0)]))
        } else {
            let cmds = Seq::new(ls[1].len(), |t: int| letter_command(ls[1][t]));
            if ctoks.len() != 2 * spec_points_count(cmds) {
                Err(FormatError::CountMismatch)
            } else {
                Ok(
                    (
                        u32_token_val(mtoks[0]) as u32,
                        u32_token_val(mtoks[1]) as u32,
                        cmds,
                        ctoks,
                    ),
                )
            }
        }
    }
}

// ----- parsing -----

/// The first line at or after `pos`, as its content window `[start, end)`
/// (with a trailing carriage return already outside it) and the position
/// after its line break; `None` when no line is left.
fn next_line(chars: &Vec<char>, pos: usize) -> (r: Option<(usize, usize, usize)>)
    requires
        pos <= chars@.len(),
    ensures
        r is None <==> lines_from(chars@, pos as int).len() == 0,
        r matches Some((start, end, next)) ==> {
            &&& start == pos
            &&& pos <= end <= chars@.len()
            &&& pos < next <= chars@.len()
            &&& lines_from(chars@, pos as int) =~= seq![
                chars@.subrange(pos as int, end as int),
            ] + lines_from(chars@, next as int)
            &&& forall|x: int| pos <= x < end ==> chars@[x] != '\n'
        },
{
    if pos >= chars.len() {
        return None;
    }
    let brk = find_line_break(chars, pos);
    proof {
        lemma_line_break_from(chars@, pos as int);
    }
    let content_end = if brk > pos && chars[brk - 1] == '\r' {
        brk - 1
    } else {
        brk
    };
    let next = if brk < chars.len() {
        brk + 1
    } else {
        chars.len()
    };
    proof {
        let s = chars@;
        let line = s.subrange(pos as int, brk as int);
        if brk > pos && s[brk - 1] == '\r' {
            assert(line.len() > 0 && line.last() == '\r');
            assert(strip_cr(line) =~= s.subrange(pos as int, content_end as int));
        } else {
            assert(strip_cr(line) =~= s.subrange(pos as int, content_end as int));
        }
        if brk == s.len() {
            assert(lines_from(s, next as int) =~= Seq::<Seq<char>>::empty());
            assert(lines_from(s, pos as int) =~= seq![s.subrange(pos as int, content_end as int)]
                + lines_from(s, next as int));
        } else {
            assert(lines_from(s, pos as int) =~= seq![s.subrange(pos as int, content_end as int)]
                + lines_from(s, next as int));
        }
    }
    Some((pos, content_end, next))
}

impl SvgCom {
    /// Reads an svgcom text: three lines — metrics, command letters,
    /// coordinate tokens — with everything after the third line ignored. The
    /// result, success and failure kind alike, is pinned exactly to the
    /// text's line and token structure; only which tokens count as float
    /// text is up to the trusted parser.
    pub fn from_svgcom_str(source: &str) -> (r: Result<SvgCom, FormatError>)
        ensures
            ({
                match spec_parse(source@) {
                    Err(e) => r == Err::<SvgCom, FormatError>(e),
                    Ok((w, h, cmds, ctoks)) => {
                        &&& r is Ok
                        &&& r matches Ok(sc) ==> {
                            &&& sc.view_size.width == w
                            &&& sc.view_size.height == h
                            &&& sc.commands@ == cmds
                            &&& sc.coordinates@.map_values(|st: String| st@) == ctoks
                            &&& sc.wf()
                        }
                    },
                }
            }),
    {
        let chars = chars_of(source);
        let ghost s = source@;
        let ghost ls = spec_lines(s);

        let line0 = match next_line(&chars, 0) {
            None => {
                return Err(FormatError::MissingLines);
            },
            Some(l) => l,
        };
        let line1 = match next_line(&chars, line0.2) {
            None => {
                return Err(FormatError::MissingLines);
            },
            Some(l) => l,
        };
        let line2 = match next_line(&chars, line1.2) {
            None => {
                return Err(FormatError::MissingLines);
            },
            Some(l) => l,
        };
        let ghost content0 = s.subrange(line0.0 as int, line0.1 as int);
        let ghost content1 = s.subrange(line1.0 as int, line1.1 as int);
        let ghost content2 = s.subrange(line2.0 as int, line2.1 as int);
        proof {
            assert(ls.len() >= 3);
            assert(ls[0] == content0);
            assert(ls[1] == content1);
            assert(ls[2] == content2);
        }

        // metrics line: whitespace-separated decimal integers, exactly four
        let metric_ranges = find_token_ranges(&chars, line0.0, line0.1);
        let ghost mtoks = spec_tokens(content0);
        let mut metrics: Vec<u32> = Vec::new();
        let mut bad_integer = false;
        let mut t: usize = 0;
        while t < metric_ranges.len()
            invariant
                chars@ == s,
                line0.0 <= line0.1 <= s.len(),
                t <= metric_ranges@.len(),
                metric_ranges@.len() == mtoks.len(),
                mtoks == spec_tokens(s.subrange(line0.0 as int, line0.1 as int)),
                forall|x: int|
                    0 <= x < metric_ranges@.len() ==> {
                        &&& line0.0 <= (#[trigger] metric_ranges@[x]).0 < metric_ranges@[x].1
                            <= line0.1
                        &&& s.subrange(
                            metric_ranges@[x].0 as int,
                            metric_ranges@[x].1 as int,
                        ) == mtoks[x]
                    },
                bad_integer <==> exists|x: int| 0 <= x < t && !u32_token(#[trigger] mtoks[x]),
                !bad_integer ==> metrics@.len() == t,
                !bad_integer ==> forall|x: int|
                    0 <= x < t ==> metrics@[x] == u32_token_val(#[trigger] mtoks[x]),
            decreases metric_ranges@.len() - t,
        {
            let range = metric_ranges[t];
            match parse_u32(&chars, range.0, range.1) {
                None => {
                    bad_integer = true;
                },
                Some(v) => {
                    if !bad_integer {
                        metrics.push(v);
                    }
                },
            }
            t = t + 1;
        }
        if bad_integer {
            return Err(FormatError::BadInteger);
        }
        if metrics.len() != 4 {
            return Err(FormatError::BadMetricsCount);
        }

        // coordinates line: whitespace-separated float tokens
        let coord_ranges = find_token_ranges(&chars, line2.0, line2.1);
        let ghost ctoks = spec_tokens(content2);
        let mut coordinates: Vec<String> = Vec::new();
        let mut bad_float = false;
        let mut t2: usize = 0;
        while t2 < coord_ranges.len()
            invariant
                chars@ == s,
                source@ == s,
                line2.0 <= line2.1 <= s.len(),
                t2 <= coord_ranges@.len(),
                coord_ranges@.len() == ctoks.len(),
                ctoks == spec_tokens(s.subrange(line2.0 as int, line2.1 as int)),
                forall|x: int|
                    0 <= x < coord_ranges@.len() ==> {
                        &&& line2.0 <= (#[trigger] coord_ranges@[x]).0 < coord_ranges@[x].1
                            <= line2.1
                        &&& s.subrange(
                            coord_ranges@[x].0 as int,
                            coord_ranges@[x].1 as int,
                        ) == ctoks[x]
                    },
                bad_float <==> exists|x: int| 0 <= x < t2 && !float_token(#[trigger] ctoks[x]),
                !bad_float ==> coordinates@.len() == t2,
                !bad_float ==> forall|x: int|
                    0 <= x < t2 ==> (#[trigger] coordinates@[x])@ == ctoks[x],
            decreases coord_ranges@.len() - t2,
        {
            let range = coord_ranges[t2];
            let token = source.substring_char(range.0, range.1);
            if parse_point(token, token).is_none() {
                bad_float = true;
            } else if !bad_float {
                coordinates.push(String::from_str(token));
            }
            t2 = t2 + 1;
        }
        if bad_float {
            return Err(FormatError::BadFloat);
        }

        // header consistency
        let command_count = line1.1 - line1.0;
        if command_count != (metrics[2] as usize) || coordinates.len() != (metrics[3] as usize) {
            return Err(FormatError::CountMismatch);
        }

        // command letters
        let ghost l1 = content1;
        let mut commands: Vec<CommandKind> = Vec::new();
        let mut unknown: Option<char> = None;
        let mut x = line1.0;
        while x < line1.1
            invariant
                line1.0 <= x <= line1.1 <= s.len(),
                chars@ == s,
                l1 == s.subrange(line1.0 as int, line1.1 as int),
                match unknown {
                    None => first_unknown(l1, 0) == first_unknown(l1, x - line1.0),
                    Some(c) => 0 <= first_unknown(l1, 0) < l1.len() && c == l1[first_unknown(
                        l1,
                        0,
                    )],
                },
                unknown is None ==> commands@.len() == x - line1.0,
                unknown is None ==> forall|k: int|
                    0 <= k < commands@.len() ==> #[trigger] commands@[k] == letter_command(l1[k])
                        && letter_valid(l1[k]),
            decreases line1.1 - x,
        {
            let c = chars[x];
            proof {
                assert(l1[x - line1.0] == s[x as int]);
            }
            if unknown.is_none() {
                if c == 'M' {
                    commands.push(CommandKind::Move);
                } else if c == 'L' {
                    commands.push(CommandKind::Line);
                } else if c == 'C' {
                    commands.push(CommandKind::Curve);
                } else {
                    proof {
                        assert(first_unknown(l1, x - line1.0) == x - line1.0);
                    }
                    unknown = Some(c);
                }
            }
            x = x + 1;
        }
        if let Some(c) = unknown {
            return Err(FormatError::UnknownCommand(c));
        }
        let ghost cmds_spec = Seq::new(l1.len(), |k: int| letter_command(l1[k]));
        proof {
            assert(first_unknown(l1, l1.len() as int) == l1.len());
            assert(commands@ =~= cmds_spec);
        }

        // the coordinates must pair up with the commands
        let total = match count_points(&commands) {
            None => {
                return Err(FormatError::CountMismatch);
            },
            Some(total) => total,
        };
        if coordinates.len() != 2 * total {
            return Err(FormatError::CountMismatch);
        }
        let sc = SvgCom {
            view_size: ImageSize::new(metrics[0], metrics[1]),
            commands,
            coordinates,
        };
        proof {
            assert(sc.coordinates@.map_values(|st: String| st@) =~= ctoks);
            assert(commands@ =~= Seq::new(ls[1].len(), |t: int| letter_command(ls[1][t])));
            assert forall|x: int| 0 <= x < content2.len() implies content2[x] != '\n' by {
                assert(content2[x] == s[line2.0 + x]);
            }
            lemma_tokens_clean(content2, 0);
            assert forall|idx: int|
                0 <= idx < sc.coordinates@.len() implies coordinate_token(
                (#[trigger] sc.coordinates@[idx])@,
            ) by {
                assert(sc.coordinates@[idx]@ == ctoks[idx]);
                assert(ctoks[idx] == tokens_from(content2, 0)[idx]);
            }
        }
        Ok(sc)
    }
}

/// Sums the points that a command list consumes, or `None` when twice that
/// sum cannot even be compared against a coordinate count.
fn count_points(commands: &Vec<CommandKind>) -> (r: Option<usize>)
    ensures
        r matches Some(total) ==> total == spec_points_count(commands@) && 2 * total <= usize::MAX,
        r is None ==> 2 * spec_points_count(commands@) > usize::MAX,
{
    let ghost cmds = commands@;
    let mut total: usize = 0;
    let mut k: usize = 0;
    let limit = usize::MAX / 2;
    while k < commands.len()
        invariant
            cmds == commands@,
            k <= cmds.len(),
            total == points_upto(cmds, k as int),
            total <= usize::MAX / 2,
            limit == usize::MAX / 2,
        decreases cmds.len() - k,
    {
        let step: usize = match commands[k] {
            CommandKind::Move => 1,
            CommandKind::Line => 1,
            CommandKind::Curve => 3,
        };
        if total > limit - step {
            proof {
                lemma_points_upto_le(cmds, k as int + 1, cmds.len() as int);
            }
            return None;
        }
        total = total + step;
        k = k + 1;
    }
    Some(total)
}


// ----- serialization -----

/// The command letters line.
pub open spec fn letters_of(cmds: Seq<CommandKind>) -> Seq<char> {
    Seq::new(cmds.len(), |i: int| command_letter(cmds[i]))
}

/// The views of the stored coordinate tokens.
pub open spec fn coordinate_views(coords: Seq<String>) -> Seq<Seq<char>> {
    coords.map_values(|st: String| st@)
}

/// The svgcom text of a document: the metrics header, the command letters,
/// and the space-joined coordinate tokens, each line newline-terminated.
pub open spec fn spec_svgcom_text(
    width: u32,
    height: u32,
    cmds: Seq<CommandKind>,
    coords: Seq<Seq<char>>,
) -> Seq<char> {
    joined(
        seq![
            dec_digits(width as int),
            dec_digits(height as int),
            dec_digits(cmds.len() as int),
            dec_digits(coords.len() as int),
        ],
    ) + seq!['\n'] + letters_of(cmds) + seq!['\n'] + joined(coords) + seq!['\n']
}

proof fn lemma_letters_all_valid(cmds: Seq<CommandKind>, i: int)
    requires
        0 <= i <= cmds.len(),
    ensures
        first_unknown(letters_of(cmds), i) == cmds.len(),
    decreases cmds.len() - i,
{
    if i < cmds.len() {
        assert(letter_valid(letters_of(cmds)[i]));
        lemma_letters_all_valid(cmds, i + 1);
    }
}

/// Round trip: the svgcom text of well-formed document data parses back to
/// exactly the same size, command sequence and coordinate token list. (A
/// document whose command or coordinate count exceeds the header's integer
/// range has no such text, and is left out.)
pub proof fn lemma_svgcom_round_trip(
    width: u32,
    height: u32,
    cmds: Seq<CommandKind>,
    coords: Seq<Seq<char>>,
)
    requires
        coords.len() == 2 * spec_points_count(cmds),
        forall|i: int| 0 <= i < coords.len() ==> coordinate_token(#[trigger] coords[i]),
        cmds.len() <= u32::MAX,
        coords.len() <= u32::MAX,
    ensures
        spec_parse(spec_svgcom_text(width, height, cmds, coords)) == Ok::<
            (u32, u32, Seq<CommandKind>, Seq<Seq<char>>),
            FormatError,
        >((width, height, cmds, coords)),
{
    let dw = dec_digits(width as int);
    let dh = dec_digits(height as int);
    let dn = dec_digits(cmds.len() as int);
    let dc = dec_digits(coords.len() as int);
    lemma_dec_digits(width as int);
    lemma_dec_digits(height as int);
    lemma_dec_digits(cmds.len() as int);
    lemma_dec_digits(coords.len() as int);
    let m = seq![dw, dh, dn, dc];
    assert forall|t: int|
        0 <= t < m.len() implies (#[trigger] m[t]).len() > 0 && forall|x: int|
        0 <= x < m[t].len() ==> !is_space(#[trigger] m[t][x]) && m[t][x] != '\n' by {
        assert forall|x: int| 0 <= x < m[t].len() implies !is_space(#[trigger] m[t][x]) && m[t][x]
            != '\n' by {
            assert(is_digit(m[t][x]));
        }
    }
    lemma_tokens_of_joined(m);
    let a = joined(m);

    let b = letters_of(cmds);
    assert forall|x: int| 0 <= x < b.len() implies b[x] != '\n' && b[x] != '\r' by {
        assert(letter_valid(b[x]));
    }

    assert forall|t: int|
        0 <= t < coords.len() implies (#[trigger] coords[t]).len() > 0 && forall|x: int|
        0 <= x < coords[t].len() ==> !is_space(#[trigger] coords[t][x]) && coords[t][x]
        != '\n' by {
        assert(coordinate_token(coords[t]));
    }
    lemma_tokens_of_joined(coords);
    let c = joined(coords);

    lemma_lines_three(a, b, c);
    let text = spec_svgcom_text(width, height, cmds, coords);
    assert(text == a + seq!['\n'] + b + seq!['\n'] + c + seq!['\n']);
    let ls = spec_lines(text);
    assert(ls =~= seq![a, b, c]);
    assert(ls.len() == 3);
    assert(ls[0] == a && ls[1] == b && ls[2] == c);

    let mtoks = spec_tokens(ls[0]);
    assert(mtoks =~= m);
    assert(forall|t: int| 0 <= t < mtoks.len() ==> u32_token(#[trigger] mtoks[t]));
    let ctoks = spec_tokens(ls[2]);
    assert(ctoks =~= coords);
    assert(forall|t: int| 0 <= t < ctoks.len() ==> float_token(#[trigger] ctoks[t]));

    assert(u32_token_val(mtoks[2]) == cmds.len());
    assert(u32_token_val(mtoks[3]) == coords.len());
    assert(ls[1].len() == cmds.len());

    lemma_letters_all_valid(cmds, 0);
    assert(first_unknown(ls[1], 0) == ls[1].len());

    let rebuilt = Seq::new(ls[1].len(), |t: int| letter_command(ls[1][t]));
    assert forall|t: int| 0 <= t < rebuilt.len() implies rebuilt[t] == cmds[t] by {
        assert(ls[1][t] == command_letter(cmds[t]));
    }
    assert(rebuilt =~= cmds);

    assert(u32_token_val(mtoks[0]) as u32 == width);
    assert(u32_token_val(mtoks[1]) as u32 == height);
}

impl SvgCom {
    /// Writes the document as svgcom text.
    pub fn to_svgcom_string(&self) -> (r: String)
        ensures
            r@ == spec_svgcom_text(
                self.view_size.width,
                self.view_size.height,
                self.commands@,
                coordinate_views(self.coordinates@),
            ),
    {
        let ghost cmds = self.commands@;
        let ghost coords = coordinate_views(self.coordinates@);
        proof {
            reveal_strlit(" ");
            reveal_strlit("\n");
        }

        // metrics line
        let mut out = format_u64(self.view_size.width as u64);
        out.append(" ");
        let part = format_u64(self.view_size.height as u64);
        out.append(part.as_str());
        out.append(" ");
        let part = format_u64(self.commands.len() as u64);
        out.append(part.as_str());
        out.append(" ");
        let part = format_u64(self.coordinates.len() as u64);
        out.append(part.as_str());
        out.append("\n");
        let ghost m = seq![
            dec_digits(self.view_size.width as int),
            dec_digits(self.view_size.height as int),
            dec_digits(cmds.len() as int),
            dec_digits(coords.len() as int),
        ];
        proof {
            assert(m.subrange(1, 4) =~= seq![m[1], m[2], m[3]]);
            assert(seq![m[1], m[2], m[3]].subrange(1, 3) =~= seq![m[2], m[3]]);
            assert(seq![m[2], m[3]].subrange(1, 2) =~= seq![m[3]]);
            assert(joined(seq![m[3]]) == m[3]);
            assert(joined(seq![m[2], m[3]]) == m[2] + seq![' '] + m[3]);
            assert(joined(seq![m[1], m[2], m[3]]) == m[1] + seq![' '] + (m[2] + seq![' '] + m[3]));
            assert(joined(m) == m[0] + seq![' '] + (m[1] + seq![' '] + (m[2] + seq![' '] + m[3])));
            assert(out@ =~= joined(m) + seq!['\n']);
        }
        let ghost base1 = out@;

        // command letters
        let mut k: usize = 0;
        while k < self.commands.len()
            invariant
                cmds == self.commands@,
                k <= cmds.len(),
                base1 == joined(m) + seq!['\n'],
                out@ =~= base1 + letters_of(cmds).subrange(0, k as int),
            decreases cmds.len() - k,
        {
            match self.commands[k] {
                CommandKind::Move => {
                    proof {
                        reveal_strlit("M");
                    }
                    out.append("M");
                },
                CommandKind::Line => {
                    proof {
                        reveal_strlit("L");
                    }
                    out.append("L");
                },
                CommandKind::Curve => {
                    proof {
                        reveal_strlit("C");
                    }
                    out.append("C");
                },
            }
            proof {
                assert(letters_of(cmds).subrange(0, k as int + 1) =~= letters_of(cmds).subrange(
                    0,
                    k as int,
                ).push(command_letter(cmds[k as int])));
                assert(out@ =~= base1 + letters_of(cmds).subrange(0, k as int + 1));
            }
            k = k + 1;
        }
        proof {
            assert(letters_of(cmds).subrange(0, cmds.len() as int) =~= letters_of(cmds));
        }
        out.append("\n");
        let ghost base2 = out@;
        proof {
            assert(base2 =~= joined(m) + seq!['\n'] + letters_of(cmds) + seq!['\n']);
        }

        // coordinate tokens
        let mut k2: usize = 0;
        while k2 < self.coordinates.len()
            invariant
                coords == coordinate_views(self.coordinates@),
                k2 <= coords.len(),
                base2 == joined(m) + seq!['\n'] + letters_of(cmds) + seq!['\n'],
                out@ =~= base2 + joined(coords.subrange(0, k2 as int)),
            decreases coords.len() - k2,
        {
            proof {
                reveal_strlit(" ");
            }
            if k2 > 0 {
                out.append(" ");
            }
            let token = &self.coordinates[k2];
            out.append(token.as_str());
            proof {
                assert(token@ == coords[k2 as int]);
                assert(coords.subrange(0, k2 as int + 1) =~= coords.subrange(0, k2 as int).push(
                    coords[k2 as int],
                ));
                lemma_joined_push(coords.subrange(0, k2 as int), coords[k2 as int]);
                assert(out@ =~= base2 + joined(coords.subrange(0, k2 as int + 1)));
            }
            k2 = k2 + 1;
        }
        proof {
            assert(coords.subrange(0, coords.len() as int) =~= coords);
        }
        out.append("\n");
        proof {
            assert(out@ =~= joined(m) + seq!['\n'] + letters_of(cmds) + seq!['\n'] + joined(
                coords,
            ) + seq!['\n']);
        }
        out
    }
}


/// The command kind a segment becomes: a line command or a curve command.
pub open spec fn segment_command(seg: Segment) -> CommandKind {
    match seg {
        Segment::Line(_, _) => CommandKind::Line,
        Segment::Cubic(_, _, _, _) => CommandKind::Curve,
    }
}

/// The commands emitted for the first `j` segments of a path: an optional
/// move per segment (`moves[k]` says whether segment `k` starts detached
/// from its predecessor's end), then the segment's own command.
pub open spec fn commands_upto(segs: Seq<Segment>, moves: Seq<bool>, j: int) -> Seq<CommandKind>
    decreases j,
{
    if j <= 0 {
        Seq::empty()
    } else {
        commands_upto(segs, moves, j - 1) + (if j - 1 < moves.len() && moves[j - 1] {
            seq![CommandKind::Move]
        } else {
            Seq::<CommandKind>::empty()
        }) + seq![segment_command(segs[j - 1])]
    }
}

/// A decision appended later does not change an earlier prefix.
proof fn lemma_commands_upto_extend(segs: Seq<Segment>, moves: Seq<bool>, b: bool, j: int)
    requires
        j <= moves.len(),
    ensures
        commands_upto(segs, moves.push(b), j) == commands_upto(segs, moves, j),
    decreases j,
{
    if j > 0 {
        lemma_commands_upto_extend(segs, moves, b, j - 1);
    }
}

/// The command blocks of the first `k` paths, concatenated in order:
/// `moves[i]` holds the detach decisions of path `i`.
pub open spec fn paths_commands(
    paths: Seq<Path>,
    moves: Seq<Seq<bool>>,
    k: int,
) -> Seq<CommandKind>
    decreases k,
{
    if k <= 0 {
        Seq::empty()
    } else {
        paths_commands(paths, moves, k - 1) + (if k - 1 < moves.len() {
            commands_upto(
                paths[k - 1].segments@,
                moves[k - 1],
                paths[k - 1].segments@.len() as int,
            )
        } else {
            Seq::<CommandKind>::empty()
        })
    }
}

/// A block appended later does not change an earlier prefix.
proof fn lemma_paths_commands_extend(
    paths: Seq<Path>,
    moves: Seq<Seq<bool>>,
    block: Seq<bool>,
    k: int,
)
    requires
        k <= moves.len(),
    ensures
        paths_commands(paths, moves.push(block), k) == paths_commands(paths, moves, k),
    decreases k,
{
    if k > 0 {
        lemma_paths_commands_extend(paths, moves, block, k - 1);
    }
}

/// The shape of one path's detach decisions: one per segment, the first
/// segment always detached.
pub open spec fn move_block_ok(moves: Seq<Seq<bool>>, paths: Seq<Path>, i: int) -> bool {
    &&& moves[i].len() == paths[i].segments@.len()
    &&& (paths[i].segments@.len() > 0 ==> moves[i][0])
}

impl SvgCom {
    /// Appends one command that takes a single point, with the point's two
    /// coordinate tokens.
    fn push_command_point(&mut self, kind: CommandKind, p: &kurbo::Point)
        requires
            old(self).wf(),
            command_points(kind) == 1,
        ensures
            final(self).wf(),
            final(self).view_size == old(self).view_size,
            final(self).commands@ == old(self).commands@.push(kind),
    {
        let ghost cmds0 = self.commands@;
        let ghost coords0 = self.coordinates@;
        let (tx, ty) = coordinate_tokens(p);
        self.commands.push(kind);
        self.coordinates.push(tx);
        self.coordinates.push(ty);
        proof {
            lemma_points_push(cmds0, kind);
            assert(coordinate_token(tx@) && coordinate_token(ty@));
            assert forall|i: int|
                0 <= i < self.coordinates@.len() implies coordinate_token(
                (#[trigger] self.coordinates@[i])@,
            ) by {
                if i < coords0.len() {
                    assert(self.coordinates@[i] == coords0[i]);
                }
            }
        }
    }

    /// Appends a curve command with its three points' six coordinate tokens.
    fn push_curve(&mut self, c1: &kurbo::Point, c2: &kurbo::Point, p1: &kurbo::Point)
        requires
            old(self).wf(),
        ensures
            final(self).wf(),
            final(self).view_size == old(self).view_size,
            final(self).commands@ == old(self).commands@.push(CommandKind::Curve),
    {
        let ghost cmds0 = self.commands@;
        let ghost coords0 = self.coordinates@;
        let (t1x, t1y) = coordinate_tokens(c1);
        let (t2x, t2y) = coordinate_tokens(c2);
        let (t3x, t3y) = coordinate_tokens(p1);
        self.commands.push(CommandKind::Curve);
        self.coordinates.push(t1x);
        self.coordinates.push(t1y);
        self.coordinates.push(t2x);
        self.coordinates.push(t2y);
        self.coordinates.push(t3x);
        self.coordinates.push(t3y);
        proof {
            lemma_points_push(cmds0, CommandKind::Curve);
            assert forall|i: int|
                0 <= i < self.coordinates@.len() implies coordinate_token(
                (#[trigger] self.coordinates@[i])@,
            ) by {
                if i < coords0.len() {
                    assert(self.coordinates@[i] == coords0[i]);
                }
            }
        }
    }

    /// Appends one path's drawing commands: a move to the first segment's
    /// start, a further move wherever consecutive segments do not connect,
    /// and a line or curve command per segment. The appended commands are
    /// exactly a [`commands_upto`] block over the whole path, for the detach
    /// decisions that the coordinate values dictate; the first segment always
    /// starts detached.
    fn read_from_path(&mut self, path: &Path)
        requires
            old(self).wf(),
        ensures
            final(self).wf(),
            final(self).view_size == old(self).view_size,
            exists|moves: Seq<bool>| {
                &&& moves.len() == path.segments@.len()
                &&& (path.segments@.len() > 0 ==> moves[0])
                &&& final(self).commands@ == old(self).commands@ + #[trigger] commands_upto(
                    path.segments@,
                    moves,
                    path.segments@.len() as int,
                )
            },
    {
        let ghost segs = path.segments@;
        let ghost base = self.commands@;
        let ghost mut moves: Seq<bool> = Seq::empty();
        let mut last_end: Option<kurbo::Point> = None;
        let mut j: usize = 0;
        while j < path.segments.len()
            invariant
                segs == path.segments@,
                self.wf(),
                self.view_size == old(self).view_size,
                j <= segs.len(),
                moves.len() == j,
                segs.len() > 0 && j > 0 ==> moves[0],
                last_end is None <==> j == 0,
                self.commands@ == base + commands_upto(segs, moves, j as int),
            decreases segs.len() - j,
        {
            let seg = path.segments[j];
            let start = seg.start();
            let detached = match &last_end {
                None => true,
                Some(prev) => !points_equal(prev, &start),
            };
            proof {
                lemma_commands_upto_extend(segs, moves, detached, j as int);
                moves = moves.push(detached);
            }
            let ghost before = self.commands@;
            if detached {
                self.push_command_point(CommandKind::Move, &start);
            }
            match seg {
                Segment::Line(_, p1) => self.push_command_point(CommandKind::Line, &p1),
                Segment::Cubic(_, c1, c2, p1) => self.push_curve(&c1, &c2, &p1),
            }
            proof {
                if detached {
                    assert(self.commands@ =~= before.push(CommandKind::Move).push(
                        segment_command(segs[j as int]),
                    ));
                } else {
                    assert(self.commands@ =~= before.push(segment_command(segs[j as int])));
                }
                assert(self.commands@ =~= base + commands_upto(segs, moves, j as int + 1));
            }
            last_end = Some(seg.end());
            j = j + 1;
        }
        proof {
            assert(moves.len() == path.segments@.len() && (path.segments@.len() > 0 ==> moves[0])
                && self.commands@ == old(self).commands@ + commands_upto(
                path.segments@,
                moves,
                path.segments@.len() as int,
            ));
        }
    }

    /// Appends the drawing commands of all paths, in order: the command list
    /// grows by exactly one [`commands_upto`] block per path, for the detach
    /// decisions the coordinate values dictate.
    pub fn read_from_paths(&mut self, paths: &Vec<Path>)
        requires
            old(self).wf(),
        ensures
            final(self).wf(),
            final(self).view_size == old(self).view_size,
            exists|moves: Seq<Seq<bool>>| {
                &&& moves.len() == paths@.len()
                &&& (forall|i: int| 0 <= i < moves.len() ==> #[trigger] move_block_ok(
                    moves,
                    paths@,
                    i,
                ))
                &&& final(self).commands@ == old(self).commands@ + #[trigger] paths_commands(
                    paths@,
                    moves,
                    paths@.len() as int,
                )
            },
    {
        let ghost base = self.commands@;
        let ghost mut moves: Seq<Seq<bool>> = Seq::empty();
        let mut i: usize = 0;
        while i < paths.len()
            invariant
                self.wf(),
                self.view_size == old(self).view_size,
                i <= paths@.len(),
                moves.len() == i,
                forall|i0: int| 0 <= i0 < i ==> #[trigger] move_block_ok(moves, paths@, i0),
                self.commands@ == base + paths_commands(paths@, moves, i as int),
            decreases paths@.len() - i,
        {
            let ghost before = self.commands@;
            self.read_from_path(&paths[i]);
            proof {
                let path = paths@[i as int];
                let block = choose|mv: Seq<bool>|
                    {
                        &&& mv.len() == path.segments@.len()
                        &&& (path.segments@.len() > 0 ==> mv[0])
                        &&& self.commands@ == before + #[trigger] commands_upto(
                            path.segments@,
                            mv,
                            path.segments@.len() as int,
                        )
                    };
                lemma_paths_commands_extend(paths@, moves, block, i as int);
                let moves0 = moves;
                moves = moves.push(block);
                assert(self.commands@ =~= base + paths_commands(paths@, moves, i as int + 1));
                assert forall|i0: int| 0 <= i0 < i + 1 implies #[trigger] move_block_ok(
                    moves,
                    paths@,
                    i0,
                ) by {
                    if i0 < i {
                        assert(move_block_ok(moves0, paths@, i0));
                        assert(moves[i0] == moves0[i0]);
                    } else {
                        assert(moves[i0] == block);
                    }
                }
            }
            i = i + 1;
        }
        proof {
            assert(moves.len() == paths@.len() && self.commands@ == base + paths_commands(
                paths@,
                moves,
                paths@.len() as int,
            ));
        }
    }

    /// The point stored at token position `pi`.
    fn point_at(&self, pi: usize) -> kurbo::Point
        requires
            self.wf(),
            pi + 1 < self.coordinates@.len(),
    {
        let cap = self.coordinates.len();
        proof {
            assert(pi + 1 < cap);
        }
        let p = parse_point(self.coordinates[pi].as_str(), self.coordinates[pi + 1].as_str());
        p.unwrap()
    }

    /// The SVG path data text of the document's commands. A line or curve
    /// before any move has no current point and is skipped.
    pub fn to_svg_path_data_str(&self) -> (r: String)
        requires
            self.wf(),
    {
        let ghost cmds = self.commands@;
        let cap = self.coordinates.len();
        let mut contour = Contour::new();
        let mut begun = false;
        let mut pi: usize = 0;
        let mut k: usize = 0;
        while k < self.commands.len()
            invariant
                self.wf(),
                cmds == self.commands@,
                cap == self.coordinates@.len(),
                k <= cmds.len(),
                pi == 2 * points_upto(cmds, k as int),
                begun ==> contour.spec_begun(),
            decreases cmds.len() - k,
        {
            proof {
                lemma_points_upto_le(cmds, k as int + 1, cmds.len() as int);
            }
            match self.commands[k] {
                CommandKind::Move => {
                    let p = self.point_at(pi);
                    contour.move_to(&p);
                    begun = true;
                    pi = pi + 2;
                },
                CommandKind::Line => {
                    let p = self.point_at(pi);
                    if begun {
                        contour.line_to(&p);
                    }
                    pi = pi + 2;
                },
                CommandKind::Curve => {
                    let c1 = self.point_at(pi);
                    let c2 = self.point_at(pi + 2);
                    let p1 = self.point_at(pi + 4);
                    if begun {
                        contour.curve_to(&c1, &c2, &p1);
                    }
                    pi = pi + 6;
                },
            }
            k = k + 1;
        }
        contour.to_svg()
    }
}

/// Builds the svgcom document of a culled path list within the given pixel
/// size: its commands are exactly the paths' command blocks, in order.
pub fn svgcom_of_paths(width: u32, height: u32, paths: &Vec<Path>) -> (r: SvgCom)
    ensures
        r.wf(),
        r.view_size.width == width,
        r.view_size.height == height,
        exists|moves: Seq<Seq<bool>>| {
            &&& moves.len() == paths@.len()
            &&& (forall|i: int| 0 <= i < moves.len() ==> #[trigger] move_block_ok(
                moves,
                paths@,
                i,
            ))
            &&& r.commands@ == #[trigger] paths_commands(paths@, moves, paths@.len() as int)
        },
{
    let mut sc = SvgCom::new(width, height);
    let ghost empty_cmds = sc.commands@;
    sc.read_from_paths(paths);
    proof {
        let moves = choose|moves: Seq<Seq<bool>>|
            {
                &&& moves.len() == paths@.len()
                &&& (forall|i: int| 0 <= i < moves.len() ==> #[trigger] move_block_ok(
                    moves,
                    paths@,
                    i,
                ))
                &&& sc.commands@ == empty_cmds + #[trigger] paths_commands(
                    paths@,
                    moves,
                    paths@.len() as int,
                )
            };
        assert(sc.commands@ =~= paths_commands(paths@, moves, paths@.len() as int));
    }
    sc
}

/// The svgcom text of a culled path list within the given pixel size: the
/// exact text of well-formed document data with that size, whose commands
/// are the paths' command blocks in order.
pub fn svgcom_text_of_paths(width: u32, height: u32, paths: &Vec<Path>) -> (r: String)
    ensures
        exists|moves: Seq<Seq<bool>>, coords: Seq<Seq<char>>| {
            &&& moves.len() == paths@.len()
            &&& (forall|i: int| 0 <= i < moves.len() ==> #[trigger] move_block_ok(
                moves,
                paths@,
                i,
            ))
            &&& coords.len() == 2 * spec_points_count(
                paths_commands(paths@, moves, paths@.len() as int),
            )
            &&& (forall|i: int| 0 <= i < coords.len() ==> coordinate_token(#[trigger] coords[i]))
            &&& r@ == #[trigger] spec_svgcom_text(
                width,
                height,
                paths_commands(paths@, moves, paths@.len() as int),
                coords,
            )
        },
{
    let sc = svgcom_of_paths(width, height, paths);
    let r = sc.to_svgcom_string();
    proof {
        let moves = choose|moves: Seq<Seq<bool>>|
            {
                &&& moves.len() == paths@.len()
                &&& (forall|i: int| 0 <= i < moves.len() ==> #[trigger] move_block_ok(
                    moves,
                    paths@,
                    i,
                ))
                &&& sc.commands@ == #[trigger] paths_commands(
                    paths@,
                    moves,
                    paths@.len() as int,
                )
            };
        let coords = coordinate_views(sc.coordinates@);
        assert(coords.len() == 2 * spec_points_count(sc.commands@));
        assert forall|i: int| 0 <= i < coords.len() implies coordinate_token(
            #[trigger] coords[i],
        ) by {
            assert(coords[i] == sc.coordinates@[i]@);
        }
        assert(r@ == spec_svgcom_text(
            width,
            height,
            paths_commands(paths@, moves, paths@.len() as int),
            coords,
        ));
    }
    r
}

/// Parses svgcom text and renders its commands as SVG path data: the compute
/// half of previewing a command file.
pub fn render_path_data(source: &str) -> (r: Result<String, FormatError>)
    ensures
        r is Ok <==> spec_parse(source@) is Ok,
        spec_parse(source@) matches Err(e) ==> r == Err::<String, FormatError>(e),
{
    match SvgCom::from_svgcom_str(source) {
        Ok(sc) => Ok(sc.to_svg_path_data_str()),
        Err(e) => Err(e),
    }
}

} // verus!
