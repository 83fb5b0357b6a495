//! Verified text utilities for the svgcom format: splitting a text into
//! lines, splitting a line into whitespace-separated tokens, and reading and
//! writing decimal integers.

use vstd::prelude::*;
use vstd::string::StrSliceExecFns;
use vstd::string::StringExecFns;
use vstd::arithmetic::div_mod::lemma_fundamental_div_mod;

verus! {

/// The whitespace characters that separate tokens inside a line (ASCII
/// whitespace except the line break itself).
pub open spec fn is_space(c: char) -> bool {
    c == ' ' || c == '\t' || c == '\r' || c == '\u{b}' || c == '\u{c}'
}

/// Exec mirror of [`is_space`].
pub fn space_char(c: char) -> (r: bool)
    ensures
        r == is_space(c),
{
    c == ' ' || c == '\t' || c == '\r' || c == '\u{b}' || c == '\u{c}'
}

// ----- lines -----

/// The position of the first line break at or after `i`, or the text's end.
pub open spec fn line_break_from(s: Seq<char>, i: int) -> int
    decreases s.len() - i,
{
    if i < 0 || i >= s.len() {
        s.len() as int
    } else if s[i] == '\n' {
        i
    } else {
        line_break_from(s, i + 1)
    }
}

pub proof fn lemma_line_break_from(s: Seq<char>, i: int)
    requires
        0 <= i <= s.len(),
    ensures
        i <= line_break_from(s, i) <= s.len(),
        line_break_from(s, i) < s.len() ==> s[line_break_from(s, i)] == '\n',
        forall|t: int| i <= t < line_break_from(s, i) ==> s[t] != '\n',
    decreases s.len() - i,
{
    if i < s.len() && s[i] != '\n' {
        lemma_line_break_from(s, i + 1);
    }
}

/// A line without its trailing carriage return, if it has one.
pub open spec fn strip_cr(s: Seq<char>) -> Seq<char> {
    if s.len() > 0 && s.last() == '\r' {
        s.drop_last()
    } else {
        s
    }
}

/// The lines of the text from position `i` on: split at line breaks, each
/// line stripped of one trailing carriage return, and nothing after a final
/// line break.
pub open spec fn lines_from(s: Seq<char>, i: int) -> Seq<Seq<char>>
    decreases s.len() - i,
{
    if i < 0 || i >= s.len() {
        Seq::empty()
    } else {
        let k = line_break_from(s, i);
        if !(i <= k <= s.len()) {
            Seq::empty()
        } else if k == s.len() {
            seq![strip_cr(s.subrange(i, k))]
        } else {
            seq![strip_cr(s.subrange(i, k))] + lines_from(s, k + 1)
        }
    }
}

/// The lines of a whole text.
pub open spec fn spec_lines(s: Seq<char>) -> Seq<Seq<char>> {
    lines_from(s, 0)
}

/// The characters of a text, one by one.
pub fn chars_of(s: &str) -> (r: Vec<char>)
    ensures
        r@ == s@,
{
    let n = s.unicode_len();
    let mut r: Vec<char> = Vec::new();
    let mut i: usize = 0;
    while i < n
        invariant
            n == s@.len(),
            i <= n,
            r@ == s@.subrange(0, i as int),
        decreases n - i,
    {
        r.push(s.get_char(i));
        proof {
            assert(r@ =~= s@.subrange(0, i as int + 1));
        }
        i = i + 1;
    }
    proof {
        assert(r@ =~= s@);
    }
    r
}

/// The position of the first line break at or after `from`, or the text's
/// end.
pub fn find_line_break(chars: &Vec<char>, from: usize) -> (r: usize)
    requires
        from <= chars@.len(),
    ensures
        r == line_break_from(chars@, from as int),
        from <= r <= chars@.len(),
{
    proof {
        lemma_line_break_from(chars@, from as int);
    }
    let mut i = from;
    while i < chars.len()
        invariant
            from <= i <= chars@.len(),
            line_break_from(chars@, from as int) == line_break_from(chars@, i as int),
        decreases chars@.len() - i,
    {
        if chars[i] == '\n' {
            return i;
        }
        i = i + 1;
    }
    i
}

// ----- whitespace tokens -----

/// The first non-space position at or after `i`, or the end.
pub open spec fn skip_spaces_from(s: Seq<char>, i: int) -> int
    decreases s.len() - i,
{
    if i < 0 || i >= s.len() {
        s.len() as int
    } else if !is_space(s[i]) {
        i
    } else {
        skip_spaces_from(s, i + 1)
    }
}

/// The first space at or after `i`, or the end.
pub open spec fn token_end_from(s: Seq<char>, i: int) -> int
    decreases s.len() - i,
{
    if i < 0 || i >= s.len() {
        s.len() as int
    } else if is_space(s[i]) {
        i
    } else {
        token_end_from(s, i + 1)
    }
}

/// The whitespace-separated tokens of `s` from position `i` on.
pub open spec fn tokens_from(s: Seq<char>, i: int) -> Seq<Seq<char>>
    decreases s.len() - i,
{
    if i < 0 || i >= s.len() {
        Seq::empty()
    } else {
        let j = skip_spaces_from(s, i);
        if !(i <= j <= s.len()) {
            Seq::empty()
        } else if j == s.len() {
            Seq::empty()
        } else {
            let e = token_end_from(s, j);
            if !(j < e <= s.len()) {
                Seq::empty()
            } else if e == s.len() {
                seq![s.subrange(j, e)]
            } else {
                seq![s.subrange(j, e)] + tokens_from(s, e)
            }
        }
    }
}

/// The whitespace-separated tokens of a whole line.
pub open spec fn spec_tokens(s: Seq<char>) -> Seq<Seq<char>> {
    tokens_from(s, 0)
}

proof fn lemma_skip_spaces_from(s: Seq<char>, i: int)
    requires
        0 <= i <= s.len(),
    ensures
        i <= skip_spaces_from(s, i) <= s.len(),
        skip_spaces_from(s, i) < s.len() ==> !is_space(s[skip_spaces_from(s, i)]),
    decreases s.len() - i,
{
    if i < s.len() && is_space(s[i]) {
        lemma_skip_spaces_from(s, i + 1);
    }
}

proof fn lemma_token_end_from(s: Seq<char>, i: int)
    requires
        0 <= i <= s.len(),
    ensures
        i <= token_end_from(s, i) <= s.len(),
        forall|t: int| i <= t < token_end_from(s, i) ==> !is_space(s[t]),
    decreases s.len() - i,
{
    if i < s.len() && !is_space(s[i]) {
        lemma_token_end_from(s, i + 1);
    }
}

/// Every token is nonempty, free of whitespace, and free of any character
/// the scanned window does not hold.
pub proof fn lemma_tokens_clean(s: Seq<char>, i: int)
    requires
        0 <= i <= s.len(),
        forall|x: int| 0 <= x < s.len() ==> s[x] != '\n',
    ensures
        forall|t: int|
            0 <= t < tokens_from(s, i).len() ==> (#[trigger] tokens_from(s, i)[t]).len() > 0,
        forall|t: int, x: int|
            0 <= t < tokens_from(s, i).len() && 0 <= x < tokens_from(s, i)[t].len() ==> !is_space(
                #[trigger] tokens_from(s, i)[t][x],
            ) && tokens_from(s, i)[t][x] != '\n',
    decreases s.len() - i,
{
    if 0 <= i < s.len() {
        let j = skip_spaces_from(s, i);
        lemma_skip_spaces_from(s, i);
        if j < s.len() {
            let e = token_end_from(s, j);
            lemma_token_end_from(s, j);
            assert(!is_space(s[j]));
            lemma_token_end_from(s, j + 1);
            assert(e == token_end_from(s, j + 1));
            assert(e > j);
            let head = s.subrange(j, e);
            assert(head.len() > 0);
            assert(forall|x: int| 0 <= x < head.len() ==> !is_space(#[trigger] head[x]) && head[x]
                != '\n');
            if e < s.len() {
                lemma_tokens_clean(s, e);
                assert(tokens_from(s, i) == seq![head] + tokens_from(s, e));
                assert forall|t: int, x: int|
                    0 <= t < tokens_from(s, i).len() && 0 <= x < tokens_from(s, i)[t].len()
                    implies !is_space(#[trigger] tokens_from(s, i)[t][x]) && tokens_from(
                    s,
                    i,
                )[t][x] != '\n' by {
                    if t == 0 {
                        assert(tokens_from(s, i)[t] == head);
                    } else {
                        assert(tokens_from(s, i)[t] == tokens_from(s, e)[t - 1]);
                    }
                }
                assert forall|t: int|
                    0 <= t < tokens_from(s, i).len() implies (#[trigger] tokens_from(
                    s,
                    i,
                )[t]).len() > 0 by {
                    if t == 0 {
                        assert(tokens_from(s, i)[t] == head);
                    } else {
                        assert(tokens_from(s, i)[t] == tokens_from(s, e)[t - 1]);
                    }
                }
            } else {
                assert(tokens_from(s, i) == seq![head]);
            }
        }
    }
}

/// The token ranges of the window `[start, end)` of `chars`: `r[t]` bounds
/// the `t`-th whitespace-separated token, and the ranges reproduce exactly
/// the tokens of the window's character sequence.
pub fn find_token_ranges(chars: &Vec<char>, start: usize, end: usize) -> (r: Vec<(usize, usize)>)
    requires
        start <= end <= chars@.len(),
    ensures
        r@.len() == spec_tokens(chars@.subrange(start as int, end as int)).len(),
        forall|t: int|
            0 <= t < r@.len() ==> {
                &&& start <= (#[trigger] r@[t]).0 < r@[t].1 <= end
                &&& chars@.subrange(r@[t].0 as int, r@[t].1 as int) == spec_tokens(
                    chars@.subrange(start as int, end as int),
                )[t]
            },
{
    let ghost line = chars@.subrange(start as int, end as int);
    let ghost toks = spec_tokens(line);
    let mut r: Vec<(usize, usize)> = Vec::new();
    let mut i = start;
    while i < end
        invariant
            start <= i <= end <= chars@.len(),
            line == chars@.subrange(start as int, end as int),
            toks == spec_tokens(line),
            r@.len() <= toks.len(),
            tokens_from(line, i - start) =~= toks.subrange(r@.len() as int, toks.len() as int),
            forall|t: int|
                0 <= t < r@.len() ==> {
                    &&& start <= (#[trigger] r@[t]).0 < r@[t].1 <= end
                    &&& chars@.subrange(r@[t].0 as int, r@[t].1 as int) == toks[t]
                },
        decreases end - i,
    {
        if space_char(chars[i]) {
            proof {
                assert(line[i - start] == chars@[i as int]);
                assert(skip_spaces_from(line, i - start) == skip_spaces_from(line, i + 1 - start));
                assert(tokens_from(line, i - start) =~= tokens_from(line, i + 1 - start));
            }
            i = i + 1;
        } else {
            let token_start = i;
            proof {
                assert(line[i - start] == chars@[i as int]);
                lemma_token_end_from(line, i - start);
            }
            while i < end && !space_char(chars[i])
                invariant
                    start <= token_start <= i <= end <= chars@.len(),
                    line == chars@.subrange(start as int, end as int),
                    token_end_from(line, token_start - start) == token_end_from(line, i - start),
                decreases end - i,
            {
                proof {
                    assert(line[i - start] == chars@[i as int]);
                }
                i = i + 1;
            }
            proof {
                if i < end {
                    assert(line[i - start] == chars@[i as int]);
                    assert(token_end_from(line, i - start) == i - start);
                } else {
                    assert(token_end_from(line, i - start) == line.len());
                }
                // the spec token at this position is exactly [token_start, i)
                let rel = token_start - start;
                assert(skip_spaces_from(line, rel) == rel);
                assert(token_end_from(line, rel) == i - start);
                assert(chars@.subrange(token_start as int, i as int) =~= line.subrange(
                    rel,
                    i - start,
                ));
                let rest = tokens_from(line, rel);
                assert(rest.len() > 0 && rest[0] == line.subrange(rel, i - start));
                assert(toks[r@.len() as int] == rest[0]) by {
                    assert(rest =~= toks.subrange(r@.len() as int, toks.len() as int));
                }
                if i - start < line.len() {
                    assert(rest =~= seq![line.subrange(rel, i - start)] + tokens_from(
                        line,
                        i - start,
                    ));
                    let tail = tokens_from(line, i - start);
                    assert forall|x: int| 0 <= x < tail.len() implies tail[x] == toks[r@.len()
                        + 1 + x] by {
                        assert(rest[1 + x] == tail[x]);
                        assert(rest[1 + x] == toks.subrange(r@.len() as int, toks.len() as int)[1
                            + x]);
                    }
                    assert(tail.len() == toks.len() - r@.len() - 1);
                    assert(tail =~= toks.subrange(r@.len() as int + 1, toks.len() as int));
                } else {
                    assert(rest =~= seq![line.subrange(rel, i - start)]);
                    assert(tokens_from(line, i - start) =~= Seq::<Seq<char>>::empty());
                    assert(tokens_from(line, i - start) =~= toks.subrange(
                        r@.len() as int + 1,
                        toks.len() as int,
                    ));
                }
            }
            r.push((token_start, i));
        }
    }
    proof {
        assert(tokens_from(line, end - start) =~= Seq::<Seq<char>>::empty());
        assert(toks.subrange(r@.len() as int, toks.len() as int).len() == 0);
    }
    r
}

// ----- decimal integers -----

pub open spec fn is_digit(c: char) -> bool {
    '0' <= c && c <= '9'
}

pub open spec fn digit_val(c: char) -> int {
    c as int - '0' as int
}

/// The value of a digit string, most significant digit first.
pub open spec fn digits_val(s: Seq<char>) -> int
    decreases s.len(),
{
    if s.len() == 0 {
        0
    } else {
        digits_val(s.drop_last()) * 10 + digit_val(s.last())
    }
}

/// The token without an optional leading plus sign.
pub open spec fn unsigned_body(s: Seq<char>) -> Seq<char> {
    if s.len() > 0 && s[0] == '+' {
        s.subrange(1, s.len() as int)
    } else {
        s
    }
}

/// The tokens that parse as a 32-bit unsigned integer: an optional plus
/// sign, then at least one decimal digit, with a value in range.
pub open spec fn u32_token(s: Seq<char>) -> bool {
    let d = unsigned_body(s);
    &&& d.len() > 0
    &&& forall|i: int| 0 <= i < d.len() ==> is_digit(#[trigger] d[i])
    &&& digits_val(d) <= u32::MAX
}

/// The value of such a token.
pub open spec fn u32_token_val(s: Seq<char>) -> int {
    digits_val(unsigned_body(s))
}

proof fn lemma_digits_val_bounds(s: Seq<char>)
    requires
        forall|i: int| 0 <= i < s.len() ==> is_digit(#[trigger] s[i]),
    ensures
        digits_val(s) >= 0,
    decreases s.len(),
{
    if s.len() > 0 {
        lemma_digits_val_bounds(s.drop_last());
        assert(digits_val(s.drop_last()) * 10 >= 0) by (nonlinear_arith)
            requires
                digits_val(s.drop_last()) >= 0,
        ;
    }
}

/// Reads the decimal token in the window `[start, end)` of `chars` exactly
/// as `u32` text: an optional plus sign, then digits; `None` exactly when
/// the window is not such a token or its value does not fit.
pub fn parse_u32(chars: &Vec<char>, start: usize, end: usize) -> (r: Option<u32>)
    requires
        start <= end <= chars@.len(),
    ensures
        r is Some <==> u32_token(chars@.subrange(start as int, end as int)),
        r matches Some(v) ==> v == u32_token_val(chars@.subrange(start as int, end as int)),
{
    let ghost token = chars@.subrange(start as int, end as int);
    let mut i = start;
    if i < end && chars[i] == '+' {
        proof {
            assert(token[0] == chars@[start as int]);
        }
        i = i + 1;
    }
    let body_start = i;
    let ghost body = unsigned_body(token);
    proof {
        assert(body =~= chars@.subrange(body_start as int, end as int));
    }
    if body_start == end {
        return None;
    }

    let mut acc: u64 = 0;
    let mut big = false;
    while i < end
        invariant
            start <= body_start < end <= chars@.len(),
            body_start <= i <= end,
            token == chars@.subrange(start as int, end as int),
            body == unsigned_body(token),
            body == chars@.subrange(body_start as int, end as int),
            forall|t: int| body_start <= t < i ==> is_digit(#[trigger] chars@[t]),
            acc <= u32::MAX,
            !big ==> acc == digits_val(chars@.subrange(body_start as int, i as int)),
            big ==> digits_val(chars@.subrange(body_start as int, i as int)) > u32::MAX,
        decreases end - i,
    {
        let c = chars[i];
        if !('0' <= c && c <= '9') {
            proof {
                assert(body[i - body_start] == chars@[i as int]);
                assert(!is_digit(body[i - body_start]));
                assert(!u32_token(token));
            }
            return None;
        }
        let d = (c as u32) - ('0' as u32);
        let ghost before = chars@.subrange(body_start as int, i as int);
        proof {
            let ext = before.push(chars@[i as int]);
            assert(chars@.subrange(body_start as int, i as int + 1) =~= ext);
            assert(ext.drop_last() =~= before);
            assert(ext.last() == chars@[i as int]);
            assert(digits_val(ext) == digits_val(before) * 10 + digit_val(chars@[i as int]));
            assert(digit_val(chars@[i as int]) == d as int);
        }
        if big {
            proof {
                assert(digits_val(before) * 10 + d as int > u32::MAX) by (nonlinear_arith)
                    requires
                        digits_val(before) > u32::MAX,
                        d as int >= 0,
                ;
            }
        } else {
            let next: u64 = acc * 10 + (d as u64);
            if next > (u32::MAX as u64) {
                big = true;
            } else {
                acc = next;
            }
        }
        i = i + 1;
    }

    if big {
        proof {
            assert(digits_val(body) > u32::MAX);
        }
        None
    } else {
        proof {
            assert(body =~= chars@.subrange(body_start as int, end as int));
            assert(forall|t: int| 0 <= t < body.len() ==> is_digit(#[trigger] body[t]));
        }
        Some(acc as u32)
    }
}

// ----- decimal formatting -----

/// The character of one decimal digit.
pub open spec fn digit_char(d: int) -> char {
    if d == 0 {
        '0'
    } else if d == 1 {
        '1'
    } else if d == 2 {
        '2'
    } else if d == 3 {
        '3'
    } else if d == 4 {
        '4'
    } else if d == 5 {
        '5'
    } else if d == 6 {
        '6'
    } else if d == 7 {
        '7'
    } else if d == 8 {
        '8'
    } else {
        '9'
    }
}

/// The decimal digits of a number, most significant first, no sign and no
/// leading zero (except for the number zero itself).
pub open spec fn dec_digits(n: int) -> Seq<char>
    decreases n,
{
    if n < 10 {
        seq![digit_char(n)]
    } else {
        dec_digits(n / 10).push(digit_char(n % 10))
    }
}

/// The digit text of a number reads back as that value; within `u32` range
/// it is a `u32` token.
pub proof fn lemma_dec_digits(n: int)
    requires
        0 <= n,
    ensures
        dec_digits(n).len() > 0,
        forall|i: int| 0 <= i < dec_digits(n).len() ==> is_digit(#[trigger] dec_digits(n)[i]),
        digits_val(dec_digits(n)) == n,
        dec_digits(n)[0] != '+',
        n <= u32::MAX ==> u32_token(dec_digits(n)),
        n <= u32::MAX ==> u32_token_val(dec_digits(n)) == n,
    decreases n,
{
    if n < 10 {
        let one = seq![digit_char(n)];
        assert(one.drop_last() =~= Seq::<char>::empty());
        assert(one.last() == digit_char(n));
        assert(digits_val(one) == digits_val(Seq::<char>::empty()) * 10 + digit_val(
            digit_char(n),
        ));
    } else {
        lemma_fundamental_div_mod(n, 10);
        assert(0 <= n / 10 < n) by (nonlinear_arith)
            requires
                n >= 10,
        ;
        lemma_dec_digits(n / 10);
        let prefix = dec_digits(n / 10);
        assert(dec_digits(n) == prefix.push(digit_char(n % 10)));
        assert(prefix.push(digit_char(n % 10)).drop_last() =~= prefix);
        assert(prefix.push(digit_char(n % 10)).last() == digit_char(n % 10));
        assert(digits_val(dec_digits(n)) == digits_val(prefix) * 10 + digit_val(
            digit_char(n % 10),
        ));
    }
    assert(unsigned_body(dec_digits(n)) =~= dec_digits(n));
}

fn digit_string(d: u32) -> (r: String)
    requires
        d < 10,
    ensures
        r@ =~= seq![digit_char(d as int)],
{
    if d == 0 {
        proof {
            reveal_strlit("0");
        }
        String::from_str("0")
    } else if d == 1 {
        proof {
            reveal_strlit("1");
        }
        String::from_str("1")
    } else if d == 2 {
        proof {
            reveal_strlit("2");
        }
        String::from_str("2")
    } else if d == 3 {
        proof {
            reveal_strlit("3");
        }
        String::from_str("3")
    } else if d == 4 {
        proof {
            reveal_strlit("4");
        }
        String::from_str("4")
    } else if d == 5 {
        proof {
            reveal_strlit("5");
        }
        String::from_str("5")
    } else if d == 6 {
        proof {
            reveal_strlit("6");
        }
        String::from_str("6")
    } else if d == 7 {
        proof {
            reveal_strlit("7");
        }
        String::from_str("7")
    } else if d == 8 {
        proof {
            reveal_strlit("8");
        }
        String::from_str("8")
    } else {
        proof {
            reveal_strlit("9");
        }
        String::from_str("9")
    }
}

/// Writes a number as its decimal digits.
pub fn format_u64(n: u64) -> (r: String)
    ensures
        r@ =~= dec_digits(n as int),
    decreases n,
{
    if n < 10 {
        digit_string((n % 10) as u32)
    } else {
        proof {
            assert(0 <= n / 10 < n) by (nonlinear_arith)
                requires
                    n >= 10,
            ;
        }
        let mut s = format_u64(n / 10);
        let last = digit_string((n % 10) as u32);
        s.append(last.as_str());
        proof {
            assert(s@ =~= dec_digits(n as int / 10).push(digit_char(n as int % 10)));
        }
        s
    }
}


// ----- joining tokens back into a line -----

/// Tokens joined by single spaces.
pub open spec fn joined(tokens: Seq<Seq<char>>) -> Seq<char>
    decreases tokens.len(),
{
    if tokens.len() == 0 {
        Seq::empty()
    } else if tokens.len() == 1 {
        tokens[0]
    } else {
        tokens[0] + seq![' '] + joined(tokens.subrange(1, tokens.len() as int))
    }
}

proof fn lemma_token_end_at(s: Seq<char>, i: int, k: int)
    requires
        0 <= i <= k <= s.len(),
        forall|t: int| i <= t < k ==> !is_space(s[t]),
        k < s.len() ==> is_space(s[k]),
    ensures
        token_end_from(s, i) == k,
    decreases k - i,
{
    if i < k {
        lemma_token_end_at(s, i + 1, k);
    }
}

proof fn lemma_skip_spaces_offset(a: Seq<char>, b: Seq<char>, d: int)
    requires
        0 <= d <= b.len(),
    ensures
        skip_spaces_from(a + b, a.len() as int + d) == a.len() + skip_spaces_from(b, d),
    decreases b.len() - d,
{
    assert((a + b).len() == a.len() + b.len());
    if d < b.len() {
        assert((a + b)[a.len() as int + d] == b[d]);
        if is_space(b[d]) {
            lemma_skip_spaces_offset(a, b, d + 1);
        }
    }
}

proof fn lemma_token_end_offset(a: Seq<char>, b: Seq<char>, d: int)
    requires
        0 <= d <= b.len(),
    ensures
        token_end_from(a + b, a.len() as int + d) == a.len() + token_end_from(b, d),
    decreases b.len() - d,
{
    assert((a + b).len() == a.len() + b.len());
    if d < b.len() {
        assert((a + b)[a.len() as int + d] == b[d]);
        if !is_space(b[d]) {
            lemma_token_end_offset(a, b, d + 1);
        }
    }
}

/// Tokenizing a concatenation from inside the right part sees only the right
/// part's tokens.
proof fn lemma_tokens_offset(a: Seq<char>, b: Seq<char>, d: int)
    requires
        0 <= d <= b.len(),
    ensures
        tokens_from(a + b, a.len() as int + d) =~= tokens_from(b, d),
    decreases b.len() - d,
{
    let s = a + b;
    assert(s.len() == a.len() + b.len());
    if d < b.len() {
        lemma_skip_spaces_offset(a, b, d);
        let j = skip_spaces_from(b, d);
        lemma_skip_spaces_from(b, d);
        if j < b.len() {
            lemma_token_end_offset(a, b, j);
            let e = token_end_from(b, j);
            lemma_token_end_from(b, j);
            assert(!is_space(b[j]));
            lemma_token_end_from(b, j + 1);
            assert(e > j);
            assert(s.subrange(a.len() as int + j, a.len() as int + e) =~= b.subrange(j, e));
            if e < b.len() {
                lemma_tokens_offset(a, b, e);
                assert(tokens_from(s, a.len() as int + d) =~= seq![b.subrange(j, e)]
                    + tokens_from(s, a.len() as int + e));
                assert(tokens_from(b, d) =~= seq![b.subrange(j, e)] + tokens_from(b, e));
            }
        }
    }
}

proof fn lemma_tokens_space_skip(s: Seq<char>, i: int)
    requires
        0 <= i < s.len(),
        is_space(s[i]),
    ensures
        tokens_from(s, i) == tokens_from(s, i + 1),
{
    assert(skip_spaces_from(s, i) == skip_spaces_from(s, i + 1));
}

/// The tokens of a space-joined token list are exactly those tokens, and the
/// joined line holds only token characters and spaces.
pub proof fn lemma_tokens_of_joined(tokens: Seq<Seq<char>>)
    requires
        forall|t: int|
            0 <= t < tokens.len() ==> (#[trigger] tokens[t]).len() > 0 && forall|x: int|
                0 <= x < tokens[t].len() ==> !is_space(#[trigger] tokens[t][x]) && tokens[t][x]
                    != '\n',
    ensures
        spec_tokens(joined(tokens)) =~= tokens,
        forall|x: int| 0 <= x < joined(tokens).len() ==> #[trigger] joined(tokens)[x] != '\n',
        tokens.len() > 0 ==> joined(tokens).len() > 0 && !is_space(joined(tokens).last()),
    decreases tokens.len(),
{
    let s = joined(tokens);
    if tokens.len() == 0 {
        assert(tokens_from(s, 0) =~= Seq::<Seq<char>>::empty());
    } else if tokens.len() == 1 {
        assert(s == tokens[0]);
        lemma_token_end_at(s, 0, s.len() as int);
        assert(skip_spaces_from(s, 0) == 0);
        assert(s.subrange(0, s.len() as int) =~= s);
        assert(tokens_from(s, 0) =~= seq![tokens[0]]);
    } else {
        let head = tokens[0];
        let rest = tokens.subrange(1, tokens.len() as int);
        lemma_tokens_of_joined(rest);
        let tail = joined(rest);
        assert(s == head + seq![' '] + tail);
        let lead = head + seq![' '];
        assert(s =~= lead + tail);
        assert(forall|x: int| 0 <= x < head.len() ==> #[trigger] s[x] == head[x]);
        assert(s[head.len() as int] == ' ');
        assert(skip_spaces_from(s, 0) == 0);
        lemma_token_end_at(s, 0, head.len() as int);
        assert(s.subrange(0, head.len() as int) =~= head);
        assert(rest.len() > 0 && tail.len() > 0);
        assert(tokens_from(s, 0) =~= seq![head] + tokens_from(s, head.len() as int));
        lemma_tokens_space_skip(s, head.len() as int);
        assert(tokens_from(s, head.len() as int) == tokens_from(s, head.len() as int + 1));
        lemma_tokens_offset(lead, tail, 0);
        assert(s == lead + tail);
        assert(tokens_from(s, head.len() as int + 1) =~= tokens_from(tail, 0));
        assert(tokens_from(tail, 0) =~= rest);
        assert(spec_tokens(s) =~= seq![head] + rest);
        assert(seq![head] + rest =~= tokens);
        assert(s.last() == tail.last());
    }
}


/// Joining one more token appends a separator and the token.
pub proof fn lemma_joined_push(s: Seq<Seq<char>>, x: Seq<char>)
    ensures
        joined(s.push(x)) == if s.len() == 0 {
            x
        } else {
            joined(s) + seq![' '] + x
        },
    decreases s.len(),
{
    let p = s.push(x);
    if s.len() == 0 {
        assert(p.len() == 1);
        assert(p[0] == x);
    } else {
        assert(p[0] == s[0]);
        assert(p.subrange(1, p.len() as int) =~= s.subrange(1, s.len() as int).push(x));
        lemma_joined_push(s.subrange(1, s.len() as int), x);
        if s.len() == 1 {
            assert(s.subrange(1, 1) =~= Seq::<Seq<char>>::empty());
            assert(joined(p) == p[0] + seq![' '] + joined(p.subrange(1, p.len() as int)));
            assert(joined(p.subrange(1, p.len() as int)) == x);
            assert(joined(s) == s[0]);
        } else {
            assert(joined(p) =~= joined(s) + seq![' '] + x);
        }
    }
}

// ----- assembling lines back into a text -----

proof fn lemma_line_break_at(s: Seq<char>, i: int, k: int)
    requires
        0 <= i <= k < s.len(),
        s[k] == '\n',
        forall|t: int| i <= t < k ==> s[t] != '\n',
    ensures
        line_break_from(s, i) == k,
    decreases k - i,
{
    if i < k {
        lemma_line_break_at(s, i + 1, k);
    }
}

/// A text of three newline-terminated lines, none holding a line break or
/// ending in a carriage return, splits back into exactly those lines.
pub proof fn lemma_lines_three(a: Seq<char>, b: Seq<char>, c: Seq<char>)
    requires
        forall|x: int| 0 <= x < a.len() ==> a[x] != '\n',
        forall|x: int| 0 <= x < b.len() ==> b[x] != '\n',
        forall|x: int| 0 <= x < c.len() ==> c[x] != '\n',
        a.len() > 0 ==> a.last() != '\r',
        b.len() > 0 ==> b.last() != '\r',
        c.len() > 0 ==> c.last() != '\r',
    ensures
        spec_lines(a + seq!['\n'] + b + seq!['\n'] + c + seq!['\n']) =~= seq![a, b, c],
{
    let s = a + seq!['\n'] + b + seq!['\n'] + c + seq!['\n'];
    let p1 = a.len() as int + 1;
    let p2 = a.len() as int + b.len() + 2;
    let p3 = a.len() as int + b.len() + c.len() + 3;
    assert(s.len() == p3);
    assert(s[a.len() as int] == '\n');
    assert(s[p2 - 1] == '\n');
    assert(s[p3 - 1] == '\n');
    assert(forall|x: int| 0 <= x < a.len() ==> #[trigger] s[x] == a[x]);
    assert(forall|x: int| 0 <= x < b.len() ==> #[trigger] s[p1 + x] == b[x]);
    assert(forall|x: int| 0 <= x < c.len() ==> #[trigger] s[p2 + x] == c[x]);

    lemma_line_break_at(s, 0, a.len() as int);
    assert(s.subrange(0, a.len() as int) =~= a);
    assert(strip_cr(a) == a);
    assert(lines_from(s, 0) =~= seq![a] + lines_from(s, p1));

    assert forall|t: int| p1 <= t < p2 - 1 implies s[t] != '\n' by {
        assert(s[t] == b[t - p1]);
    }
    lemma_line_break_at(s, p1, p2 - 1);
    assert(s.subrange(p1, p2 - 1) =~= b);
    assert(strip_cr(b) == b);
    assert(lines_from(s, p1) =~= seq![b] + lines_from(s, p2));

    assert forall|t: int| p2 <= t < p3 - 1 implies s[t] != '\n' by {
        assert(s[t] == c[t - p2]);
    }
    lemma_line_break_at(s, p2, p3 - 1);
    assert(s.subrange(p2, p3 - 1) =~= c);
    assert(strip_cr(c) == c);
    assert(lines_from(s, p3) =~= Seq::<Seq<char>>::empty());
    assert(lines_from(s, p2) =~= seq![c] + lines_from(s, p3));
}

} // verus!
