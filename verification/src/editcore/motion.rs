//! Cursor motions.
//!
//! A motion answers two separate questions: *where does the cursor land*, and
//! *does the span it describes include that landing cell*. `kind` answers the
//! second, `apply` the first.

use vstd::prelude::*;
use crate::editcore::buffer::Buffer;
use crate::text::{is_alphanumeric, is_whitespace, spec_is_whitespace, unicode_alphanumeric};

verus! {

#[derive(Clone, Copy, PartialEq, Eq, Debug, Structural)]
pub enum Motion {
    Left,
    Right,
    Up,
    Down,
    LineStart,
    FirstNonBlank,
    LineEnd,
    WordForward { big: bool },
    WordBack { big: bool },
    WordEnd { big: bool },
    FileStart,
    FileEnd,
    GotoLine(usize),
    ParagraphForward,
    ParagraphBack,
    /// `f` / `t` / `F` / `T`.
    FindChar { ch: char, forward: bool, till: bool },
    /// `%`
    MatchPair,
}

#[derive(Clone, Copy, PartialEq, Eq, Debug, Structural)]
pub enum Kind {
    /// Spans up to but not including the destination.
    Exclusive,
    /// Spans up to and including the destination.
    Inclusive,
    /// Spans whole lines.
    Linewise,
}

pub open spec fn spec_kind(m: Motion) -> Kind {
    match m {
        Motion::Up | Motion::Down | Motion::FileStart | Motion::FileEnd | Motion::GotoLine(_) => Kind::Linewise,
        Motion::LineEnd | Motion::WordEnd { .. } => Kind::Inclusive,
        Motion::FindChar { forward: true, .. } => Kind::Inclusive,
        _ => Kind::Exclusive,
    }
}

impl Motion {
    pub fn kind(self) -> (k: Kind)
        ensures
            k == spec_kind(self),
    {
        match self {
            Motion::Up | Motion::Down | Motion::FileStart | Motion::FileEnd | Motion::GotoLine(_) => Kind::Linewise,
            Motion::LineEnd | Motion::WordEnd { .. } => Kind::Inclusive,
            Motion::FindChar { forward: true, .. } => Kind::Inclusive,
            _ => Kind::Exclusive,
        }
    }

    /// Whether a vertical move keeps the column the user last chose: `j` after
    /// `$` returns to the end of each line; `l` does not.
    pub fn keeps_desired_column(self) -> (r: bool)
        ensures
            r == (self is Up || self is Down),
    {
        match self {
            Motion::Up | Motion::Down => true,
            _ => false,
        }
    }
}

// ---------------------------------------------------------------------------
// The model: positions in a sequence of lines
// ---------------------------------------------------------------------------

pub open spec fn llen(lines: Seq<Seq<char>>, l: int) -> int {
    if 0 <= l < lines.len() {
        lines[l].len() as int
    } else {
        0
    }
}

pub open spec fn char_at(lines: Seq<Seq<char>>, l: int, c: int) -> Option<char> {
    if 0 <= l < lines.len() && 0 <= c < lines[l].len() {
        Some(lines[l][c])
    } else {
        None
    }
}

/// One step forward in the character stream; the end of a line is a position
/// of its own before the next line starts.
pub open spec fn fwd(lines: Seq<Seq<char>>, l: int, c: int) -> Option<(int, int)> {
    if c < llen(lines, l) {
        Some((l, c + 1))
    } else if l + 1 < lines.len() {
        Some((l + 1, 0))
    } else {
        None
    }
}

pub open spec fn back(lines: Seq<Seq<char>>, l: int, c: int) -> Option<(int, int)> {
    if c > 0 {
        Some((l, c - 1))
    } else if l > 0 {
        Some((l - 1, llen(lines, l - 1)))
    } else {
        None
    }
}

/// Blank, word, or punctuation; `big` folds punctuation into words.
pub open spec fn class(ch: char, big: bool) -> u8 {
    if spec_is_whitespace(ch) {
        0
    } else if big {
        1
    } else if unicode_alphanumeric(ch) || ch == '_' {
        1
    } else {
        2
    }
}

pub open spec fn class_at(lines: Seq<Seq<char>>, l: int, c: int, big: bool) -> u8 {
    match char_at(lines, l, c) {
        Some(ch) => class(ch, big),
        None => 0,
    }
}

/// Leaves the run of class `cls` the cursor is on; a line break ends it.
pub open spec fn leave_run(lines: Seq<Seq<char>>, l: int, c: int, cls: u8, big: bool) -> (int, int)
    decreases lines.len() - l, llen(lines, l) - c,
{
    match fwd(lines, l, c) {
        None => (l, c),
        Some((nl, nc)) => if nl != l {
            (nl, nc)
        } else if char_at(lines, nl, nc) is Some && class(char_at(lines, nl, nc)->0, big) == cls {
            leave_run(lines, nl, nc, cls, big)
        } else {
            (nl, nc)
        },
    }
}

/// Skips blanks forward; an empty line is a word and stops the skip.
pub open spec fn skip_blanks(lines: Seq<Seq<char>>, l: int, c: int) -> (int, int)
    decreases lines.len() - l, llen(lines, l) - c,
{
    let stop = match char_at(lines, l, c) {
        Some(ch) => !spec_is_whitespace(ch),
        None => llen(lines, l) == 0,
    };
    if stop {
        (l, c)
    } else {
        match fwd(lines, l, c) {
            Some((nl, nc)) => skip_blanks(lines, nl, nc),
            None => (l, c),
        }
    }
}

pub open spec fn min_int(a: int, b: int) -> int {
    if a <= b {
        a
    } else {
        b
    }
}

/// `w` / `W` once.
pub open spec fn word_forward(lines: Seq<Seq<char>>, l: int, c: int, big: bool) -> (int, int) {
    let cls = class_at(lines, l, c, big);
    let p = if cls != 0 {
        leave_run(lines, l, c, cls, big)
    } else {
        (l, c)
    };
    let q = skip_blanks(lines, p.0, p.1);
    (q.0, min_int(q.1, llen(lines, q.0)))
}

/// Skips blanks backwards. The flag says the search ended there for good: at
/// an empty line (a word of its own) or at the start of the buffer.
pub open spec fn back_blanks(lines: Seq<Seq<char>>, l: int, c: int) -> ((int, int), bool)
    decreases l, c,
{
    match char_at(lines, l, c) {
        Some(ch) => if !spec_is_whitespace(ch) {
            ((l, c), false)
        } else {
            match back(lines, l, c) {
                Some((pl, pc)) => if l >= 0 && c >= 0 {
                    back_blanks(lines, pl, pc)
                } else {
                    ((l, c), true)
                },
                None => ((l, c), true),
            }
        },
        None => if llen(lines, l) == 0 {
            ((l, 0), true)
        } else {
            match back(lines, l, c) {
                Some((pl, pc)) => if l >= 0 && c >= 0 {
                    back_blanks(lines, pl, pc)
                } else {
                    ((l, c), true)
                },
                None => ((l, c), true),
            }
        },
    }
}

/// Walks back over characters of class `cls` on the same line.
pub open spec fn run_back(lines: Seq<Seq<char>>, l: int, c: int, cls: u8, big: bool) -> (int, int)
    decreases c,
{
    if c > 0 && char_at(lines, l, c - 1) is Some && class(char_at(lines, l, c - 1)->0, big) == cls {
        run_back(lines, l, c - 1, cls, big)
    } else {
        (l, c)
    }
}

/// `b` / `B` once.
pub open spec fn word_back(lines: Seq<Seq<char>>, l: int, c: int, big: bool) -> (int, int) {
    match back(lines, l, c) {
        None => (l, c),
        Some((pl, pc)) => {
            let (p, done) = back_blanks(lines, pl, pc);
            if done {
                p
            } else {
                run_back(lines, p.0, p.1, class_at(lines, p.0, p.1, big), big)
            }
        },
    }
}

pub open spec fn blank_or_end(lines: Seq<Seq<char>>, l: int, c: int) -> bool {
    match char_at(lines, l, c) {
        Some(ch) => spec_is_whitespace(ch),
        None => true,
    }
}

/// Skips blanks and line ends forward. The flag says the buffer ended first.
pub open spec fn end_blanks(lines: Seq<Seq<char>>, l: int, c: int) -> ((int, int), bool)
    decreases lines.len() - l, llen(lines, l) - c,
{
    if !blank_or_end(lines, l, c) {
        ((l, c), false)
    } else {
        match fwd(lines, l, c) {
            Some((nl, nc)) => end_blanks(lines, nl, nc),
            None => ((l, c), true),
        }
    }
}

/// Walks forward over characters of class `cls` on the same line.
pub open spec fn run_forward(lines: Seq<Seq<char>>, l: int, c: int, cls: u8, big: bool) -> (int, int)
    decreases llen(lines, l) - c,
{
    if c < llen(lines, l) && char_at(lines, l, c + 1) is Some && class(
        char_at(lines, l, c + 1)->0,
        big,
    ) == cls {
        run_forward(lines, l, c + 1, cls, big)
    } else {
        (l, c)
    }
}

/// `e` / `E` once.
pub open spec fn word_end(lines: Seq<Seq<char>>, l: int, c: int, big: bool) -> (int, int) {
    match fwd(lines, l, c) {
        None => (l, c),
        Some((nl, nc)) => {
            let (p, ended) = end_blanks(lines, nl, nc);
            if ended {
                (p.0, min_int(p.1, if llen(lines, p.0) > 0 { llen(lines, p.0) - 1 } else { 0 }))
            } else {
                run_forward(lines, p.0, p.1, class_at(lines, p.0, p.1, big), big)
            }
        },
    }
}

/// The first character at or after `i` that is not blank.
pub open spec fn first_nonblank_from(row: Seq<char>, i: int) -> Option<int>
    decreases row.len() - i,
{
    if i < 0 || i >= row.len() {
        None
    } else if !spec_is_whitespace(row[i]) {
        Some(i)
    } else {
        first_nonblank_from(row, i + 1)
    }
}

pub open spec fn row_of(lines: Seq<Seq<char>>, l: int) -> Seq<char> {
    if 0 <= l < lines.len() {
        lines[l]
    } else {
        Seq::<char>::empty()
    }
}

/// The first character that is not blank, or the last character when the
/// line is all blanks.
pub open spec fn first_non_blank(lines: Seq<Seq<char>>, l: int) -> int {
    match first_nonblank_from(row_of(lines, l), 0) {
        Some(i) => i,
        None => if llen(lines, l) > 0 {
            llen(lines, l) - 1
        } else {
            0
        },
    }
}

/// `}` once: the next empty line below, or the last line.
pub open spec fn paragraph_forward(lines: Seq<Seq<char>>, line: int) -> int
    decreases lines.len() - line,
{
    let last = if lines.len() > 0 { lines.len() - 1 } else { 0 };
    if line + 1 > last {
        last
    } else if llen(lines, line + 1) == 0 {
        line + 1
    } else {
        paragraph_forward(lines, line + 1)
    }
}

/// `{` once: the next empty line above, or the first line.
pub open spec fn paragraph_back(lines: Seq<Seq<char>>, line: int) -> int
    decreases line,
{
    let last = if lines.len() > 0 { lines.len() - 1 } else { 0 };
    if line <= 0 || line - 1 > last {
        0
    } else if llen(lines, line - 1) == 0 {
        line - 1
    } else {
        paragraph_back(lines, line - 1)
    }
}

/// The first `ch` at index `i` or later.
pub open spec fn find_fwd(row: Seq<char>, i: int, ch: char) -> Option<int>
    decreases row.len() - i,
{
    if i < 0 || i >= row.len() {
        None
    } else if row[i] == ch {
        Some(i)
    } else {
        find_fwd(row, i + 1, ch)
    }
}

/// The last `ch` before index `i`.
pub open spec fn find_bwd(row: Seq<char>, i: int, ch: char) -> Option<int>
    decreases i,
{
    if i <= 0 {
        None
    } else if i - 1 < row.len() && row[i - 1] == ch {
        Some(i - 1)
    } else {
        find_bwd(row, i - 1, ch)
    }
}

/// The nearest `ch` strictly after (or before) `at` in `row`.
pub open spec fn next_occurrence(row: Seq<char>, at: int, ch: char, forward: bool) -> Option<int> {
    if forward {
        find_fwd(row, at + 1, ch)
    } else {
        find_bwd(row, at, ch)
    }
}

/// The `n`-th occurrence counted from `at`.
pub open spec fn nth_occurrence(row: Seq<char>, at: int, ch: char, forward: bool, n: nat) -> Option<int>
    decreases n,
{
    if n == 0 {
        Some(at)
    } else {
        match next_occurrence(row, at, ch, forward) {
            Some(i) => nth_occurrence(row, i, ch, forward, (n - 1) as nat),
            None => None,
        }
    }
}

/// `f`, `t`, `F`, `T` with a count: the occurrences are counted from beside
/// the cursor, and only then does `t` back off by one.
pub open spec fn find_char_spec(
    lines: Seq<Seq<char>>,
    l: int,
    c: int,
    ch: char,
    forward: bool,
    till: bool,
    count: nat,
) -> Option<(int, int)> {
    let row = if 0 <= l < lines.len() { lines[l] } else { Seq::<char>::empty() };
    let n = if count == 0 { 1 } else { count };
    match nth_occurrence(row, c, ch, forward, n) {
        Some(at) => Some((l, if till { if forward { if at > 0 { at - 1 } else { 0 } } else { at + 1 } } else { at })),
        None => None,
    }
}

pub open spec fn is_pair_char(c: char) -> bool {
    c == '(' || c == ')' || c == '[' || c == ']' || c == '{' || c == '}'
}

pub open spec fn pair_of(c: char) -> (char, char) {
    if c == '(' || c == ')' {
        ('(', ')')
    } else if c == '[' || c == ']' {
        ('[', ']')
    } else {
        ('{', '}')
    }
}

/// The scan `%` makes once it has found the bracket: the depth counts the
/// brackets still open; the match is where it returns to zero. The scan
/// gives up (at `u64::MAX` open brackets, which no buffer in memory holds).
pub open spec fn scan_forward(lines: Seq<Seq<char>>, l: int, c: int, depth: int, open: char, close: char) -> Option<(int, int)>
    decreases lines.len() - l, llen(lines, l) - c,
{
    let d = match char_at(lines, l, c) {
        Some(cur) => if cur == open { depth + 1 } else if cur == close { depth - 1 } else { depth },
        None => depth,
    };
    if d >= u64::MAX {
        None
    } else if char_at(lines, l, c) is Some && d == 0 {
        Some((l, c))
    } else {
        match fwd(lines, l, c) {
            Some((nl, nc)) => scan_forward(lines, nl, nc, d, open, close),
            None => None,
        }
    }
}

pub open spec fn scan_back(lines: Seq<Seq<char>>, l: int, c: int, depth: int, open: char, close: char) -> Option<(int, int)>
    decreases l, c,
{
    let d = match char_at(lines, l, c) {
        Some(cur) => if cur == close { depth + 1 } else if cur == open { depth - 1 } else { depth },
        None => depth,
    };
    if d >= u64::MAX || l < 0 || c < 0 {
        None
    } else if char_at(lines, l, c) is Some && d == 0 {
        Some((l, c))
    } else {
        match back(lines, l, c) {
            Some((pl, pc)) => scan_back(lines, pl, pc, d, open, close),
            None => None,
        }
    }
}

/// The first bracket at or after `i`.
pub open spec fn first_pair_from(row: Seq<char>, i: int) -> Option<int>
    decreases row.len() - i,
{
    if i < 0 || i >= row.len() {
        None
    } else if is_pair_char(row[i]) {
        Some(i)
    } else {
        first_pair_from(row, i + 1)
    }
}

/// `%`: the first bracket at or after the cursor on its line, matched across
/// lines; the cursor stays where it is when there is none or no match.
pub open spec fn match_pair_spec(lines: Seq<Seq<char>>, l: int, c: int) -> (int, int) {
    let row = row_of(lines, l);
    match first_pair_from(row, c) {
        Some(start) => {
            let ch = row[start];
            let (open, close) = pair_of(ch);
            let found = if ch == open {
                scan_forward(lines, l, start, 0, open, close)
            } else {
                scan_back(lines, l, start, 0, open, close)
            };
            match found {
                Some(p) => p,
                None => (l, c),
            }
        },
        None => (l, c),
    }
}

/// One application of a word or paragraph motion.
pub open spec fn step(lines: Seq<Seq<char>>, m: Motion, p: (int, int)) -> (int, int) {
    match m {
        Motion::WordForward { big } => word_forward(lines, p.0, p.1, big),
        Motion::WordBack { big } => word_back(lines, p.0, p.1, big),
        Motion::WordEnd { big } => word_end(lines, p.0, p.1, big),
        Motion::ParagraphForward => (paragraph_forward(lines, p.0), 0),
        Motion::ParagraphBack => (paragraph_back(lines, p.0), 0),
        _ => p,
    }
}

pub open spec fn repeat(lines: Seq<Seq<char>>, m: Motion, p: (int, int), n: nat) -> (int, int)
    decreases n,
{
    if n == 0 {
        p
    } else {
        repeat(lines, m, step(lines, m, p), (n - 1) as nat)
    }
}

/// Where a motion lands, given a count (a count of zero is one).
pub open spec fn apply_spec(
    lines: Seq<Seq<char>>,
    cursor: (usize, usize),
    desired_col: usize,
    motion: Motion,
    count: usize,
) -> (int, int) {
    let n: int = if count == 0 { 1 } else { count as int };
    let line = cursor.0 as int;
    let col = cursor.1 as int;
    let last = if lines.len() > 0 { lines.len() - 1 } else { 0 };
    match motion {
        Motion::Left => (line, if col >= n { col - n } else { 0 }),
        Motion::Right => (line, min_int(col + n, llen(lines, line))),
        Motion::Up => {
            let t = if line >= n { line - n } else { 0 };
            (t, min_int(desired_col as int, llen(lines, t)))
        },
        Motion::Down => {
            let t = min_int(line + n, last);
            (t, min_int(desired_col as int, llen(lines, t)))
        },
        Motion::LineStart => (line, 0),
        Motion::FirstNonBlank => (line, first_non_blank(lines, line)),
        Motion::LineEnd => {
            let t = min_int(line + n - 1, last);
            (t, llen(lines, t))
        },
        Motion::FileStart => (0, first_non_blank(lines, 0)),
        Motion::FileEnd => (last, first_non_blank(lines, last)),
        Motion::GotoLine(t) => {
            let t = min_int(t as int, last);
            (t, first_non_blank(lines, t))
        },
        Motion::FindChar { ch, forward, till } => match find_char_spec(lines, line, col, ch, forward, till, n as nat) {
            Some(p) => p,
            None => (line, col),
        },
        Motion::MatchPair => match_pair_spec(lines, line, col),
        _ => repeat(lines, motion, (line, col), n as nat),
    }
}


// ---------------------------------------------------------------------------
// Executable motions
// ---------------------------------------------------------------------------

fn char_class(ch: char, big: bool) -> (r: u8)
    ensures
        r == class(ch, big),
{
    if is_whitespace(ch) {
        0
    } else if big {
        1
    } else if is_alphanumeric(ch) || ch == '_' {
        1
    } else {
        2
    }
}

fn char_at_exec(buffer: &Buffer, line: usize, col: usize) -> (r: Option<char>)
    ensures
        r == char_at(buffer@.lines, line as int, col as int),
{
    let row = buffer.line(line);
    if col < row.len() {
        Some(row[col])
    } else {
        None
    }
}

fn forward(buffer: &Buffer, line: usize, col: usize) -> (r: Option<(usize, usize)>)
    ensures
        match fwd(buffer@.lines, line as int, col as int) {
            Some((l, c)) => r matches Some(p) && p.0 == l && p.1 == c,
            None => r is None,
        },
{
    if col < buffer.line_len(line) {
        return Some((line, col + 1));
    }
    if line < buffer.line_count() && line + 1 < buffer.line_count() {
        return Some((line + 1, 0));
    }
    None
}

fn backward(buffer: &Buffer, line: usize, col: usize) -> (r: Option<(usize, usize)>)
    ensures
        match back(buffer@.lines, line as int, col as int) {
            Some((l, c)) => r matches Some(p) && p.0 == l && p.1 == c,
            None => r is None,
        },
{
    if col > 0 {
        return Some((line, col - 1));
    }
    if line > 0 {
        return Some((line - 1, buffer.line_len(line - 1)));
    }
    None
}

fn class_at_exec(buffer: &Buffer, line: usize, col: usize, big: bool) -> (r: u8)
    ensures
        r == class_at(buffer@.lines, line as int, col as int, big),
{
    match char_at_exec(buffer, line, col) {
        Some(ch) => char_class(ch, big),
        None => 0,
    }
}

fn first_non_blank_exec(buffer: &Buffer, line: usize) -> (r: usize)
    ensures
        r == first_non_blank(buffer@.lines, line as int),
{
    let row = buffer.line(line);
    assert(row@ == row_of(buffer@.lines, line as int));
    let mut i: usize = 0;
    while i < row.len()
        invariant
            i <= row@.len(),
            row@ == row_of(buffer@.lines, line as int),
            first_nonblank_from(row@, i as int) == first_nonblank_from(row@, 0),
        decreases row@.len() - i,
    {
        if !is_whitespace(row[i]) {
            return i;
        }
        i = i + 1;
    }
    if row.len() > 0 {
        row.len() - 1
    } else {
        0
    }
}

fn word_forward_exec(buffer: &Buffer, from: (usize, usize), big: bool) -> (r: (usize, usize))
    ensures
        r.0 as int == word_forward(buffer@.lines, from.0 as int, from.1 as int, big).0,
        r.1 as int == word_forward(buffer@.lines, from.0 as int, from.1 as int, big).1,
{
    let ghost lines = buffer@.lines;
    let (mut line, mut col) = from;
    let start_class = class_at_exec(buffer, line, col, big);
    let ghost p = if start_class != 0 {
        leave_run(lines, from.0 as int, from.1 as int, start_class, big)
    } else {
        (from.0 as int, from.1 as int)
    };
    if start_class != 0 {
        loop
            invariant_except_break
                leave_run(lines, line as int, col as int, start_class, big) == p,
            invariant
                lines == buffer@.lines,
            ensures
                p == (line as int, col as int),
            decreases lines.len() - line, llen(lines, line as int) - col,
        {
            match forward(buffer, line, col) {
                None => {
                    break;
                },
                Some((l, c)) => {
                    if l != line {
                        line = l;
                        col = c;
                        break;
                    }
                    line = l;
                    col = c;
                    match char_at_exec(buffer, line, col) {
                        Some(ch) => {
                            if char_class(ch, big) != start_class {
                                break;
                            }
                        },
                        None => {
                            break;
                        },
                    }
                },
            }
        }
    }
    let ghost q = skip_blanks(lines, line as int, col as int);
    loop
        invariant_except_break
            skip_blanks(lines, line as int, col as int) == q,
        invariant
            lines == buffer@.lines,
        ensures
            q == (line as int, col as int),
        decreases lines.len() - line, llen(lines, line as int) - col,
    {
        match char_at_exec(buffer, line, col) {
            Some(ch) => {
                if !is_whitespace(ch) {
                    break;
                }
            },
            None => {
                if buffer.line_len(line) == 0 {
                    break;
                }
            },
        }
        match forward(buffer, line, col) {
            Some((l, c)) => {
                line = l;
                col = c;
            },
            None => {
                break;
            },
        }
    }
    let len = buffer.line_len(line);
    (line, if col < len { col } else { len })
}

fn word_back_exec(buffer: &Buffer, from: (usize, usize), big: bool) -> (r: (usize, usize))
    ensures
        r.0 as int == word_back(buffer@.lines, from.0 as int, from.1 as int, big).0,
        r.1 as int == word_back(buffer@.lines, from.0 as int, from.1 as int, big).1,
{
    let ghost lines = buffer@.lines;
    let (mut line, mut col) = from;
    let prev = backward(buffer, line, col);
    let (pl, pc) = match prev {
        None => {
            return (line, col);
        },
        Some(p) => p,
    };
    line = pl;
    col = pc;
    let ghost bb = back_blanks(lines, pl as int, pc as int);
    loop
        invariant
            lines == buffer@.lines,
            back(lines, from.0 as int, from.1 as int) == Some((pl as int, pc as int)),
            bb == back_blanks(lines, pl as int, pc as int),
            back_blanks(lines, line as int, col as int) == bb,
        ensures
            bb == ((line as int, col as int), false),
        decreases line, col,
    {
        match char_at_exec(buffer, line, col) {
            Some(ch) => {
                if !is_whitespace(ch) {
                    break;
                }
            },
            None => {
                if buffer.line_len(line) == 0 {
                    return (line, 0);
                }
            },
        }
        match backward(buffer, line, col) {
            Some((l, c)) => {
                line = l;
                col = c;
            },
            None => {
                return (line, col);
            },
        }
    }
    let cls = class_at_exec(buffer, line, col, big);
    let ghost rb = run_back(lines, line as int, col as int, cls, big);
    loop
        invariant_except_break
            run_back(lines, line as int, col as int, cls, big) == rb,
        invariant
            lines == buffer@.lines,
        ensures
            rb == (line as int, col as int),
        decreases col,
    {
        if col == 0 {
            break;
        }
        match char_at_exec(buffer, line, col - 1) {
            Some(ch) => {
                if char_class(ch, big) == cls {
                    col = col - 1;
                } else {
                    break;
                }
            },
            None => {
                break;
            },
        }
    }
    (line, col)
}

fn word_end_exec(buffer: &Buffer, from: (usize, usize), big: bool) -> (r: (usize, usize))
    ensures
        r.0 as int == word_end(buffer@.lines, from.0 as int, from.1 as int, big).0,
        r.1 as int == word_end(buffer@.lines, from.0 as int, from.1 as int, big).1,
{
    let ghost lines = buffer@.lines;
    let (mut line, mut col) = from;
    let (nl, nc) = match forward(buffer, line, col) {
        None => {
            return (line, col);
        },
        Some(p) => p,
    };
    line = nl;
    col = nc;
    let ghost eb = end_blanks(lines, nl as int, nc as int);
    loop
        invariant
            lines == buffer@.lines,
            fwd(lines, from.0 as int, from.1 as int) == Some((nl as int, nc as int)),
            eb == end_blanks(lines, nl as int, nc as int),
            end_blanks(lines, line as int, col as int) == eb,
        ensures
            eb == ((line as int, col as int), false),
        decreases lines.len() - line, llen(lines, line as int) - col,
    {
        let blank = match char_at_exec(buffer, line, col) {
            Some(ch) => is_whitespace(ch),
            None => true,
        };
        if !blank {
            break;
        }
        match forward(buffer, line, col) {
            Some((l, c)) => {
                line = l;
                col = c;
            },
            None => {
                let len = buffer.line_len(line);
                let last = if len > 0 {
                    len - 1
                } else {
                    0
                };
                return (line, if col < last { col } else { last });
            },
        }
    }
    let cls = class_at_exec(buffer, line, col, big);
    let ghost rf = run_forward(lines, line as int, col as int, cls, big);
    loop
        invariant_except_break
            run_forward(lines, line as int, col as int, cls, big) == rf,
        invariant
            lines == buffer@.lines,
        ensures
            rf == (line as int, col as int),
        decreases llen(lines, line as int) - col,
    {
        if col >= buffer.line_len(line) {
            break;
        }
        match char_at_exec(buffer, line, col + 1) {
            Some(ch) => {
                if char_class(ch, big) == cls {
                    col = col + 1;
                } else {
                    break;
                }
            },
            None => {
                break;
            },
        }
    }
    (line, col)
}

fn paragraph_exec(buffer: &Buffer, from: usize, forward: bool) -> (r: usize)
    ensures
        r as int == if forward {
            paragraph_forward(buffer@.lines, from as int)
        } else {
            paragraph_back(buffer@.lines, from as int)
        },
{
    let ghost lines = buffer@.lines;
    let count = buffer.line_count();
    let last = if count > 0 {
        count - 1
    } else {
        0
    };
    let mut line = from;
    if forward {
        let ghost target = paragraph_forward(lines, from as int);
        loop
            invariant
                lines == buffer@.lines,
                count == lines.len(),
                last == (if lines.len() > 0 { lines.len() - 1 } else { 0 }),
                target == paragraph_forward(lines, from as int),
                forward,
                paragraph_forward(lines, line as int) == target,
            decreases lines.len() - line,
        {
            if line >= last {
                return last;
            }
            let ghost before = line;
            line = line + 1;
            if buffer.line_len(line) == 0 {
                assert(paragraph_forward(lines, before as int) == line);
                return line;
            }
        }
    } else {
        let ghost target = paragraph_back(lines, from as int);
        loop
            invariant
                lines == buffer@.lines,
                count == lines.len(),
                last == (if lines.len() > 0 { lines.len() - 1 } else { 0 }),
                target == paragraph_back(lines, from as int),
                !forward,
                paragraph_back(lines, line as int) == target,
            decreases line,
        {
            if line == 0 || line - 1 > last {
                return 0;
            }
            let ghost before = line;
            line = line - 1;
            if buffer.line_len(line) == 0 {
                assert(paragraph_back(lines, before as int) == line);
                return line;
            }
        }
    }
}

fn next_occurrence_exec(row: &[char], at: usize, ch: char, forward: bool) -> (r: Option<usize>)
    ensures
        match next_occurrence(row@, at as int, ch, forward) {
            Some(i) => r == Some(i as usize) && 0 <= i < row@.len(),
            None => r is None,
        },
{
    if forward {
        let ghost target = find_fwd(row@, at + 1, ch);
        if at >= row.len() {
            return None;
        }
        let mut i = at + 1;
        while i < row.len()
            invariant
                i <= row@.len(),
                forward,
                target == find_fwd(row@, at + 1, ch),
                find_fwd(row@, i as int, ch) == target,
            decreases row@.len() - i,
        {
            if row[i] == ch {
                return Some(i);
            }
            i = i + 1;
        }
        None
    } else {
        let ghost target = find_bwd(row@, at as int, ch);
        let mut i = at;
        while i > 0
            invariant
                i <= at,
                !forward,
                target == find_bwd(row@, at as int, ch),
                find_bwd(row@, i as int, ch) == target,
            decreases i,
        {
            if i - 1 < row.len() && row[i - 1] == ch {
                return Some(i - 1);
            }
            i = i - 1;
        }
        None
    }
}

fn find_char_exec(buffer: &Buffer, from: (usize, usize), ch: char, forward: bool, till: bool, count: usize) -> (r: Option<(usize, usize)>)
    ensures
        match find_char_spec(buffer@.lines, from.0 as int, from.1 as int, ch, forward, till, count as nat) {
            Some((l, c)) => r matches Some(p) && p.0 == l && p.1 == c,
            None => r is None,
        },
{
    let (line, col) = from;
    let row = buffer.line(line);
    assert(row@ == row_of(buffer@.lines, line as int));
    let n = if count == 0 {
        1
    } else {
        count
    };
    let rl = row.len();
    let mut at = col;
    let mut k: usize = 0;
    let ghost target = nth_occurrence(row@, col as int, ch, forward, n as nat);
    while k < n
        invariant
            k <= n,
            rl == row@.len(),
            line == from.0 && col == from.1,
            n == (if count == 0 { 1 } else { count }),
            row@ == row_of(buffer@.lines, line as int),
            target == nth_occurrence(row@, col as int, ch, forward, n as nat),
            at < row@.len() || k == 0,
            nth_occurrence(row@, at as int, ch, forward, (n - k) as nat) == target,
        decreases n - k,
    {
        match next_occurrence_exec(row, at, ch, forward) {
            Some(i) => {
                at = i;
            },
            None => {
                return None;
            },
        }
        k = k + 1;
    }
    let landing = if till {
        if forward {
            if at > 0 {
                at - 1
            } else {
                0
            }
        } else {
            at + 1
        }
    } else {
        at
    };
    Some((line, landing))
}

fn pair_char(c: char) -> (r: bool)
    ensures
        r == is_pair_char(c),
{
    c == '(' || c == ')' || c == '[' || c == ']' || c == '{' || c == '}'
}

fn match_pair_exec(buffer: &Buffer, from: (usize, usize)) -> (r: (usize, usize))
    ensures
        r.0 as int == match_pair_spec(buffer@.lines, from.0 as int, from.1 as int).0,
        r.1 as int == match_pair_spec(buffer@.lines, from.0 as int, from.1 as int).1,
{
    let ghost lines = buffer@.lines;
    let (line, col) = from;
    let row = buffer.line(line);
    assert(row@ == row_of(lines, line as int));
    let ghost found = first_pair_from(row@, col as int);
    let mut i = col;
    while i < row.len()
        invariant
            first_pair_from(row@, i as int) == found,
        ensures
            i >= row@.len() || is_pair_char(row@[i as int]),
        decreases row@.len() - i,
    {
        if pair_char(row[i]) {
            break;
        }
        i = i + 1;
    }
    if i >= row.len() {
        return from;
    }
    let start = i;
    let ch = row[start];
    let (open, close) = if ch == '(' || ch == ')' {
        ('(', ')')
    } else if ch == '[' || ch == ']' {
        ('[', ']')
    } else {
        ('{', '}')
    };
    let forwards = ch == open;
    let mut depth: u64 = 1;
    if forwards {
        let ghost target = scan_forward(lines, line as int, start as int, 0, open, close);
        let (mut l, mut c) = match forward(buffer, line, start) {
            Some(p) => p,
            None => {
                return from;
            },
        };
        loop
            invariant
                lines == buffer@.lines,
                1 <= depth < u64::MAX,
                from == (line, col),
                match_pair_spec(lines, line as int, col as int) == (match target {
                    Some(p) => p,
                    None => (line as int, col as int),
                }),
                scan_forward(lines, l as int, c as int, depth as int, open, close) == target,
            decreases lines.len() - l, llen(lines, l as int) - c,
        {
            let cur = char_at_exec(buffer, l, c);
            if let Some(cur) = cur {
                if cur == open {
                    if depth >= u64::MAX - 1 {
                        return from;
                    }
                    depth = depth + 1;
                } else if cur == close {
                    depth = depth - 1;
                    if depth == 0 {
                        return (l, c);
                    }
                }
            }
            match forward(buffer, l, c) {
                Some((nl, nc)) => {
                    l = nl;
                    c = nc;
                },
                None => {
                    return from;
                },
            }
        }
    } else {
        let ghost target = scan_back(lines, line as int, start as int, 0, open, close);
        let (mut l, mut c) = match backward(buffer, line, start) {
            Some(p) => p,
            None => {
                return from;
            },
        };
        loop
            invariant
                lines == buffer@.lines,
                1 <= depth < u64::MAX,
                from == (line, col),
                match_pair_spec(lines, line as int, col as int) == (match target {
                    Some(p) => p,
                    None => (line as int, col as int),
                }),
                scan_back(lines, l as int, c as int, depth as int, open, close) == target,
            decreases l, c,
        {
            let cur = char_at_exec(buffer, l, c);
            if let Some(cur) = cur {
                if cur == close {
                    if depth >= u64::MAX - 1 {
                        return from;
                    }
                    depth = depth + 1;
                } else if cur == open {
                    depth = depth - 1;
                    if depth == 0 {
                        return (l, c);
                    }
                }
            }
            match backward(buffer, l, c) {
                Some((pl, pc)) => {
                    l = pl;
                    c = pc;
                },
                None => {
                    return from;
                },
            }
        }
    }
}


fn step_exec(buffer: &Buffer, motion: Motion, p: (usize, usize)) -> (r: (usize, usize))
    ensures
        r.0 as int == step(buffer@.lines, motion, (p.0 as int, p.1 as int)).0,
        r.1 as int == step(buffer@.lines, motion, (p.0 as int, p.1 as int)).1,
{
    match motion {
        Motion::WordForward { big } => word_forward_exec(buffer, p, big),
        Motion::WordBack { big } => word_back_exec(buffer, p, big),
        Motion::WordEnd { big } => word_end_exec(buffer, p, big),
        Motion::ParagraphForward => (paragraph_exec(buffer, p.0, true), 0),
        Motion::ParagraphBack => (paragraph_exec(buffer, p.0, false), 0),
        _ => p,
    }
}

/// Where a motion lands, given a count.
///
/// The column is not clamped to the last character: `$` in insert mode sits
/// one past the end, and clamping belongs to the mode.
pub fn apply(buffer: &Buffer, cursor: (usize, usize), desired_col: usize, motion: Motion, count: usize) -> (r: (usize, usize))
    requires
        motion matches Motion::FindChar { forward: false, .. } ==> cursor.1 <= llen(buffer@.lines, cursor.0 as int),
    ensures
        r.0 as int == apply_spec(buffer@.lines, cursor, desired_col, motion, count).0,
        r.1 as int == apply_spec(buffer@.lines, cursor, desired_col, motion, count).1,
{
    let n = if count == 0 {
        1
    } else {
        count
    };
    let (line, col) = cursor;
    let line_count = buffer.line_count();
    let last = if line_count > 0 {
        line_count - 1
    } else {
        0
    };
    match motion {
        Motion::Left => (line, if col >= n { col - n } else { 0 }),
        Motion::Right => {
            let len = buffer.line_len(line);
            (line, if col >= len || n >= len - col { len } else { col + n })
        },
        Motion::Up => {
            let t = if line >= n { line - n } else { 0 };
            let len = buffer.line_len(t);
            (t, if desired_col < len { desired_col } else { len })
        },
        Motion::Down => {
            let t = if line >= last || n >= last - line { last } else { line + n };
            let len = buffer.line_len(t);
            (t, if desired_col < len { desired_col } else { len })
        },
        Motion::LineStart => (line, 0),
        Motion::FirstNonBlank => (line, first_non_blank_exec(buffer, line)),
        Motion::LineEnd => {
            let m = n - 1;
            let t = if line >= last || m >= last - line { last } else { line + m };
            (t, buffer.line_len(t))
        },
        Motion::FileStart => (0, first_non_blank_exec(buffer, 0)),
        Motion::FileEnd => (last, first_non_blank_exec(buffer, last)),
        Motion::GotoLine(target) => {
            let t = if target < last { target } else { last };
            (t, first_non_blank_exec(buffer, t))
        },
        Motion::FindChar { ch, forward, till } => match find_char_exec(buffer, cursor, ch, forward, till, n) {
            Some(p) => p,
            None => cursor,
        },
        Motion::MatchPair => match_pair_exec(buffer, cursor),
        _ => {
            let ghost lines = buffer@.lines;
            let ghost target = repeat(lines, motion, (line as int, col as int), n as nat);
            let mut position = cursor;
            let mut k: usize = 0;
            while k < n
                invariant
                    k <= n,
                    lines == buffer@.lines,
                    repeat(lines, motion, (position.0 as int, position.1 as int), (n - k) as nat) == target,
                decreases n - k,
            {
                position = step_exec(buffer, motion, position);
                k = k + 1;
            }
            position
        },
    }
}


// ---------------------------------------------------------------------------
// Laws
// ---------------------------------------------------------------------------

/// The pairs `%` moves between: parentheses, square brackets and braces.
pub open spec fn bracket_pair(open: char, close: char) -> bool {
    (open == '(' && close == ')') || (open == '[' && close == ']') || (open == '{' && close == '}')
}

proof fn lemma_scan_forward_inside(lines: Seq<Seq<char>>, l: int, j: int, k: int, open: char, close: char)
    requires
        0 <= l < lines.len(),
        0 < j <= k < lines[l].len(),
        lines[l][k] == close,
        open != close,
        forall|q: int| j <= q < k ==> lines[l][q] != open && lines[l][q] != close,
    ensures
        scan_forward(lines, l, j, 1, open, close) == Some((l, k)),
    decreases k - j,
{
    if j < k {
        assert(lines[l][j] != open && lines[l][j] != close);
        assert(fwd(lines, l, j) == Some((l, j + 1)));
        lemma_scan_forward_inside(lines, l, j + 1, k, open, close);
    }
}

proof fn lemma_scan_back_inside(lines: Seq<Seq<char>>, l: int, j: int, k: int, open: char, close: char)
    requires
        0 <= l < lines.len(),
        0 <= k <= j < lines[l].len(),
        lines[l][k] == open,
        open != close,
        forall|q: int| k < q <= j ==> lines[l][q] != open && lines[l][q] != close,
    ensures
        scan_back(lines, l, j, 1, open, close) == Some((l, k)),
    decreases j - k,
{
    if k < j {
        assert(lines[l][j] != open && lines[l][j] != close);
        assert(back(lines, l, j) == Some((l, j - 1)));
        lemma_scan_back_inside(lines, l, j - 1, k, open, close);
    }
}

/// `%` on an opening bracket, parenthesis or brace lands on the closing one
/// that matches it later on the line, whatever the count and column memory.
pub proof fn law_match_pair_goes_to_the_closing_bracket(
    lines: Seq<Seq<char>>,
    l: usize,
    c: usize,
    k: int,
    open: char,
    close: char,
    desired_col: usize,
    count: usize,
)
    requires
        bracket_pair(open, close),
        l < lines.len(),
        c < k < lines[l as int].len(),
        lines[l as int][c as int] == open,
        lines[l as int][k] == close,
        forall|q: int| c < q < k ==> lines[l as int][q] != open && lines[l as int][q] != close,
    ensures
        apply_spec(lines, (l, c), desired_col, Motion::MatchPair, count) == (l as int, k),
{
    assert(first_pair_from(row_of(lines, l as int), c as int) == Some(c as int));
    assert(fwd(lines, l as int, c as int) == Some((l as int, c + 1)));
    lemma_scan_forward_inside(lines, l as int, c + 1, k, open, close);
}

/// `%` on a closing bracket, parenthesis or brace lands on the opening one
/// that matches it earlier on the line.
pub proof fn law_match_pair_goes_back_to_the_opening_bracket(
    lines: Seq<Seq<char>>,
    l: usize,
    c: usize,
    k: int,
    open: char,
    close: char,
    desired_col: usize,
    count: usize,
)
    requires
        bracket_pair(open, close),
        l < lines.len(),
        0 <= k < c < lines[l as int].len(),
        lines[l as int][c as int] == close,
        lines[l as int][k] == open,
        forall|q: int| k < q < c ==> lines[l as int][q] != open && lines[l as int][q] != close,
    ensures
        apply_spec(lines, (l, c), desired_col, Motion::MatchPair, count) == (l as int, k),
{
    assert(first_pair_from(row_of(lines, l as int), c as int) == Some(c as int));
    assert(back(lines, l as int, c as int) == Some((l as int, c - 1)));
    lemma_scan_back_inside(lines, l as int, c - 1, k, open, close);
}


proof fn lemma_find_fwd_first(row: Seq<char>, i: int, k: int, ch: char)
    requires
        0 <= i <= k < row.len(),
        row[k] == ch,
        forall|q: int| i <= q < k ==> row[q] != ch,
    ensures
        find_fwd(row, i, ch) == Some(k),
    decreases k - i,
{
    if i < k {
        lemma_find_fwd_first(row, i + 1, k, ch);
    }
}

proof fn lemma_find_fwd_none(row: Seq<char>, i: int, ch: char)
    requires
        0 <= i,
        forall|q: int| i <= q < row.len() ==> row[q] != ch,
    ensures
        find_fwd(row, i, ch) is None,
    decreases row.len() - i,
{
    if i < row.len() {
        lemma_find_fwd_none(row, i + 1, ch);
    }
}

proof fn lemma_find_bwd_last(row: Seq<char>, i: int, k: int, ch: char)
    requires
        0 <= k < i <= row.len(),
        row[k] == ch,
        forall|q: int| k < q < i ==> row[q] != ch,
    ensures
        find_bwd(row, i, ch) == Some(k),
    decreases i - k,
{
    if k < i - 1 {
        lemma_find_bwd_last(row, i - 1, k, ch);
    }
}

/// `f`/`t` go to the next `ch` after the cursor on its line (`t` stops just
/// before it); without one after the cursor the cursor stays.
pub proof fn law_f_finds_the_next_occurrence(
    lines: Seq<Seq<char>>,
    l: usize,
    c: usize,
    k: int,
    ch: char,
    till: bool,
    desired_col: usize,
)
    requires
        l < lines.len(),
        c < k < lines[l as int].len(),
        lines[l as int][k] == ch,
        forall|q: int| c < q < k ==> lines[l as int][q] != ch,
    ensures
        apply_spec(lines, (l, c), desired_col, Motion::FindChar { ch, forward: true, till }, 1)
            == (l as int, if till { k - 1 } else { k }),
{
    let row = lines[l as int];
    lemma_find_fwd_first(row, c + 1, k, ch);
    assert(next_occurrence(row, c as int, ch, true) == Some(k));
    assert(nth_occurrence(row, k, ch, true, 0) == Some(k));
    assert(nth_occurrence(row, c as int, ch, true, 1) == Some(k));
}

/// With no `ch` after the cursor, `f` and `t` leave it where it is.
pub proof fn law_f_without_an_occurrence_stays(
    lines: Seq<Seq<char>>,
    l: usize,
    c: usize,
    ch: char,
    till: bool,
    desired_col: usize,
    count: usize,
)
    requires
        l < lines.len(),
        forall|q: int| c < q < lines[l as int].len() ==> lines[l as int][q] != ch,
    ensures
        apply_spec(lines, (l, c), desired_col, Motion::FindChar { ch, forward: true, till }, count)
            == (l as int, c as int),
{
    lemma_find_fwd_none(lines[l as int], c + 1, ch);
}

/// `F`/`T` go to the nearest `ch` before the cursor on its line (`T` stops
/// just after it).
pub proof fn law_big_f_finds_the_previous_occurrence(
    lines: Seq<Seq<char>>,
    l: usize,
    c: usize,
    k: int,
    ch: char,
    till: bool,
    desired_col: usize,
)
    requires
        l < lines.len(),
        0 <= k < c <= lines[l as int].len(),
        lines[l as int][k] == ch,
        forall|q: int| k < q < c ==> lines[l as int][q] != ch,
    ensures
        apply_spec(lines, (l, c), desired_col, Motion::FindChar { ch, forward: false, till }, 1)
            == (l as int, if till { k + 1 } else { k }),
{
    let row = lines[l as int];
    lemma_find_bwd_last(row, c as int, k, ch);
    assert(next_occurrence(row, c as int, ch, false) == Some(k));
    assert(nth_occurrence(row, k, ch, false, 0) == Some(k));
    assert(nth_occurrence(row, c as int, ch, false, 1) == Some(k));
}

/// A count on `f` counts occurrences: the `n + 1`-th `ch` after the cursor
/// is the `n`-th after the first one (or there is none either way).
pub proof fn law_f_count_counts_occurrences(
    lines: Seq<Seq<char>>,
    l: usize,
    c: usize,
    k: usize,
    ch: char,
    n: usize,
)
    requires
        l < lines.len(),
        c < k < lines[l as int].len(),
        lines[l as int][k as int] == ch,
        forall|q: int| c < q < k ==> lines[l as int][q] != ch,
        1 <= n < usize::MAX,
    ensures
        find_char_spec(lines, l as int, c as int, ch, true, false, (n + 1) as nat) == find_char_spec(
            lines,
            l as int,
            k as int,
            ch,
            true,
            false,
            n as nat,
        ),
{
    let row = lines[l as int];
    lemma_find_fwd_first(row, c + 1, k as int, ch);
    assert(next_occurrence(row, c as int, ch, true) == Some(k as int));
    assert(nth_occurrence(row, c as int, ch, true, (n + 1) as nat) == nth_occurrence(row, k as int, ch, true, n as nat));
}

/// A count on a word or paragraph motion repeats it: count `n + 1` is one
/// step, then count `n` from there.
pub proof fn law_a_count_repeats_the_motion(
    lines: Seq<Seq<char>>,
    cursor: (usize, usize),
    desired_col: usize,
    motion: Motion,
    n: usize,
)
    requires
        motion is WordForward || motion is WordBack || motion is WordEnd || motion is ParagraphForward
            || motion is ParagraphBack,
        1 <= n < usize::MAX,
    ensures
        ({
            let p = step(lines, motion, (cursor.0 as int, cursor.1 as int));
            p.0 >= 0 && p.1 >= 0 && p.0 <= usize::MAX && p.1 <= usize::MAX ==> apply_spec(
                lines,
                cursor,
                desired_col,
                motion,
                (n + 1) as usize,
            ) == apply_spec(lines, (p.0 as usize, p.1 as usize), desired_col, motion, n)
        }),
{
}


proof fn lemma_leave_run_to(lines: Seq<Seq<char>>, l: int, j: int, m: int, cls: u8, big: bool)
    requires
        0 <= l < lines.len(),
        0 <= j < m < lines[l].len(),
        forall|q: int| j < q < m ==> class(lines[l][q], big) == cls,
        class(lines[l][m], big) != cls,
    ensures
        leave_run(lines, l, j, cls, big) == (l, m),
    decreases m - j,
{
    assert(fwd(lines, l, j) == Some((l, j + 1)));
    if j + 1 < m {
        lemma_leave_run_to(lines, l, j + 1, m, cls, big);
    }
}

proof fn lemma_skip_blanks_to(lines: Seq<Seq<char>>, l: int, j: int, k: int)
    requires
        0 <= l < lines.len(),
        0 <= j <= k < lines[l].len(),
        forall|q: int| j <= q < k ==> spec_is_whitespace(lines[l][q]),
        !spec_is_whitespace(lines[l][k]),
    ensures
        skip_blanks(lines, l, j) == (l, k),
    decreases k - j,
{
    if j < k {
        assert(fwd(lines, l, j) == Some((l, j + 1)));
        lemma_skip_blanks_to(lines, l, j + 1, k);
    }
}

/// `w` on a line goes to the start of the next word on it: past the rest of
/// the run of word (or punctuation) characters the cursor is on, then past
/// blanks, to the first character that is not blank.
pub proof fn law_w_goes_to_the_next_word(lines: Seq<Seq<char>>, l: int, c: int, m: int, k: int, big: bool)
    requires
        0 <= l < lines.len(),
        0 <= c <= m <= k < lines[l].len(),
        !spec_is_whitespace(lines[l][k]),
        forall|q: int| c <= q < m ==> !spec_is_whitespace(lines[l][q]) && class(lines[l][q], big) == class(lines[l][c], big),
        forall|q: int| m <= q < k ==> spec_is_whitespace(lines[l][q]),
        spec_is_whitespace(lines[l][c]) ==> m == c,
        !spec_is_whitespace(lines[l][c]) ==> c < m && (m == k ==> class(lines[l][k], big) != class(lines[l][c], big)),
    ensures
        word_forward(lines, l, c, big) == (l, k),
{
    let cls = class(lines[l][c], big);
    if !spec_is_whitespace(lines[l][c]) {
        assert(cls != 0);
        if m < k {
            assert(spec_is_whitespace(lines[l][m]));
        }
        lemma_leave_run_to(lines, l, c, m, cls, big);
    }
    lemma_skip_blanks_to(lines, l, m, k);
}

proof fn lemma_end_blanks_to(lines: Seq<Seq<char>>, l: int, j: int, s: int)
    requires
        0 <= l < lines.len(),
        0 <= j <= s < lines[l].len(),
        forall|q: int| j <= q < s ==> spec_is_whitespace(lines[l][q]),
        !spec_is_whitespace(lines[l][s]),
    ensures
        end_blanks(lines, l, j) == ((l, s), false),
    decreases s - j,
{
    if j < s {
        assert(fwd(lines, l, j) == Some((l, j + 1)));
        lemma_end_blanks_to(lines, l, j + 1, s);
    }
}

proof fn lemma_run_forward_to(lines: Seq<Seq<char>>, l: int, j: int, t: int, cls: u8, big: bool)
    requires
        0 <= l < lines.len(),
        0 <= j <= t < lines[l].len(),
        forall|q: int| j < q <= t ==> class(lines[l][q], big) == cls,
        t + 1 < lines[l].len() ==> class(lines[l][t + 1], big) != cls,
    ensures
        run_forward(lines, l, j, cls, big) == (l, t),
    decreases t - j,
{
    if j < t {
        lemma_run_forward_to(lines, l, j + 1, t, cls, big);
    }
}

/// `e` goes to the end of the next word: past blanks after the cursor, to
/// the last character of the run that follows them.
pub proof fn law_e_goes_to_the_end_of_the_word(lines: Seq<Seq<char>>, l: int, c: int, s: int, t: int, big: bool)
    requires
        0 <= l < lines.len(),
        0 <= c < s <= t < lines[l].len(),
        forall|q: int| c < q < s ==> spec_is_whitespace(lines[l][q]),
        !spec_is_whitespace(lines[l][s]),
        forall|q: int| s <= q <= t ==> class(lines[l][q], big) == class(lines[l][s], big),
        t + 1 < lines[l].len() ==> class(lines[l][t + 1], big) != class(lines[l][s], big),
    ensures
        word_end(lines, l, c, big) == (l, t),
{
    assert(fwd(lines, l, c) == Some((l, c + 1)));
    lemma_end_blanks_to(lines, l, c + 1, s);
    lemma_run_forward_to(lines, l, s, t, class(lines[l][s], big), big);
}

proof fn lemma_back_blanks_to(lines: Seq<Seq<char>>, l: int, j: int, e: int)
    requires
        0 <= l < lines.len(),
        0 <= e <= j < lines[l].len(),
        forall|q: int| e < q <= j ==> spec_is_whitespace(lines[l][q]),
        !spec_is_whitespace(lines[l][e]),
    ensures
        back_blanks(lines, l, j) == ((l, e), false),
    decreases j - e,
{
    if e < j {
        assert(back(lines, l, j) == Some((l, j - 1)));
        lemma_back_blanks_to(lines, l, j - 1, e);
    }
}

proof fn lemma_run_back_to(lines: Seq<Seq<char>>, l: int, j: int, s: int, cls: u8, big: bool)
    requires
        0 <= l < lines.len(),
        0 <= s <= j < lines[l].len(),
        forall|q: int| s <= q < j ==> class(lines[l][q], big) == cls,
        s > 0 ==> class(lines[l][s - 1], big) != cls,
    ensures
        run_back(lines, l, j, cls, big) == (l, s),
    decreases j - s,
{
    if s < j {
        lemma_run_back_to(lines, l, j - 1, s, cls, big);
    }
}

/// `b` goes to the start of the word before the cursor: back past blanks
/// to a character that is not blank, then to the first character of its
/// run.
pub proof fn law_b_goes_to_the_start_of_the_word(lines: Seq<Seq<char>>, l: int, c: int, s: int, e: int, big: bool)
    requires
        0 <= l < lines.len(),
        0 <= s <= e < c <= lines[l].len(),
        forall|q: int| e < q < c ==> spec_is_whitespace(lines[l][q]),
        !spec_is_whitespace(lines[l][e]),
        forall|q: int| s <= q <= e ==> class(lines[l][q], big) == class(lines[l][e], big),
        s > 0 ==> class(lines[l][s - 1], big) != class(lines[l][e], big),
    ensures
        word_back(lines, l, c, big) == (l, s),
{
    assert(back(lines, l, c) == Some((l, c - 1)));
    lemma_back_blanks_to(lines, l, c - 1, e);
    lemma_run_back_to(lines, l, e, s, class(lines[l][e], big), big);
}


/// `}` goes to the first empty line below the cursor's line, or to the last
/// line when there is none; `{` to the nearest empty line above, or the
/// first line.
pub proof fn law_paragraph_motions_stop_at_empty_lines(lines: Seq<Seq<char>>, line: int, k: int)
    requires
        0 <= line < lines.len(),
    ensures
        line < k < lines.len() && lines[k].len() == 0 && (forall|q: int| line < q < k ==> lines[q].len() > 0)
            ==> paragraph_forward(lines, line) == k,
        (forall|q: int| line < q < lines.len() ==> lines[q].len() > 0) ==> paragraph_forward(lines, line) == lines.len() - 1,
        0 <= k < line && lines[k].len() == 0 && (forall|q: int| k < q < line ==> lines[q].len() > 0)
            ==> paragraph_back(lines, line) == k,
        (forall|q: int| 0 <= q < line ==> lines[q].len() > 0) ==> paragraph_back(lines, line) == 0,
{
    lemma_paragraph_forward(lines, line, k);
    lemma_paragraph_back(lines, line, k);
}

proof fn lemma_paragraph_forward(lines: Seq<Seq<char>>, line: int, k: int)
    requires
        0 <= line < lines.len(),
    ensures
        line < k < lines.len() && lines[k].len() == 0 && (forall|q: int| line < q < k ==> lines[q].len() > 0)
            ==> paragraph_forward(lines, line) == k,
        (forall|q: int| line < q < lines.len() ==> lines[q].len() > 0) ==> paragraph_forward(lines, line) == lines.len() - 1,
    decreases lines.len() - line,
{
    if line + 1 < lines.len() {
        lemma_paragraph_forward(lines, line + 1, k);
    }
}

proof fn lemma_paragraph_back(lines: Seq<Seq<char>>, line: int, k: int)
    requires
        0 <= line < lines.len(),
    ensures
        0 <= k < line && lines[k].len() == 0 && (forall|q: int| k < q < line ==> lines[q].len() > 0)
            ==> paragraph_back(lines, line) == k,
        (forall|q: int| 0 <= q < line ==> lines[q].len() > 0) ==> paragraph_back(lines, line) == 0,
    decreases line,
{
    if line > 0 {
        lemma_paragraph_back(lines, line - 1, k);
    }
}

} // verus!
