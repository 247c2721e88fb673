//! What operators do to text: the span a command covers, cutting and copying
//! it, the registers that keep it, and putting it back.

use vstd::prelude::*;
use crate::editcore::buffer::{at_least_one, inserted, leading_ws, min_int, Buffer, BufferModel};
use crate::editcore::buffer::join_with;
use crate::editcore::editor::{
    clamp, clamped, find_register, reg_of, reg_view, set_register, texts, Editor, Mode, Operator, Register,
};
use crate::editcore::motion::{first_nonblank_from, llen, row_of};
use crate::text::{chars_of, is_whitespace, spec_is_whitespace, string_of};

verus! {

/// A span of text an operator acts on: whole lines, or the characters from
/// `start` up to but not including `end`.
#[derive(Clone, Copy, Debug)]
pub enum Span {
    Lines { from: usize, to: usize },
    Chars { start: (usize, usize), end: (usize, usize) },
}

// ---------------------------------------------------------------------------
// The text, as the buffer's primitive edits leave it
// ---------------------------------------------------------------------------

/// Characters `from..to` of line `line` taken out, as
/// `Buffer::delete_range_in_line` does.
pub open spec fn deleted_in_line(lines: Seq<Seq<char>>, line: int, from: int, to: int) -> Seq<Seq<char>> {
    if 0 <= line < lines.len() && min_int(from, lines[line].len() as int) < min_int(to, lines[line].len() as int) {
        let row = lines[line];
        lines.update(line, row.take(min_int(from, row.len() as int)) + row.skip(min_int(to, row.len() as int)))
    } else {
        lines
    }
}

/// `count` lines from `from` taken out, as `Buffer::remove_lines` does.
pub open spec fn lines_removed(lines: Seq<Seq<char>>, from: int, count: int) -> Seq<Seq<char>> {
    if from >= lines.len() || count == 0 {
        lines
    } else {
        at_least_one(lines.take(from) + lines.skip(min_int(from + count, lines.len() as int)))
    }
}

/// `text` put into line `line` at `col`, as `Buffer::insert_str` does.
pub open spec fn str_inserted(lines: Seq<Seq<char>>, line: int, col: int, text: Seq<char>) -> Seq<Seq<char>> {
    let l = if line < lines.len() { line } else { lines.len() - 1 };
    lines.update(l, inserted(lines[l], col, text))
}

/// The text between two positions, one piece per line it spans.
pub open spec fn slice_spec(lines: Seq<Seq<char>>, start: (usize, usize), end: (usize, usize)) -> Seq<Seq<char>> {
    if start.0 == end.0 {
        let row = row_of(lines, start.0 as int);
        let from = min_int(start.1 as int, row.len() as int);
        let to = min_int(end.1 as int, row.len() as int);
        seq![row.subrange(min_int(from, to), to)]
    } else {
        let first = row_of(lines, start.0 as int);
        let last = row_of(lines, end.0 as int);
        seq![first.skip(min_int(start.1 as int, first.len() as int))]
            + Seq::new((end.0 - start.0 - 1) as nat, |i: int| row_of(lines, start.0 + 1 + i))
            + seq![last.take(min_int(end.1 as int, last.len() as int))]
    }
}

/// The lines once the text between two positions is cut out: the start of
/// the first line joined to the rest of the last.
pub open spec fn cut_spec(lines: Seq<Seq<char>>, start: (usize, usize), end: (usize, usize)) -> Seq<Seq<char>> {
    if start.0 == end.0 {
        deleted_in_line(lines, start.0 as int, start.1 as int, end.1 as int)
    } else {
        let last = row_of(lines, end.0 as int);
        let tail = last.skip(min_int(end.1 as int, last.len() as int));
        let a = deleted_in_line(lines, start.0 as int, start.1 as int, llen(lines, start.0 as int));
        let b = lines_removed(a, start.0 + 1, end.0 - start.0);
        str_inserted(b, start.0 as int, start.1 as int, tail)
    }
}

/// The column of the first character that is not blank, or 0.
pub open spec fn nonblank_col(row: Seq<char>) -> int {
    match first_nonblank_from(row, 0) {
        Some(i) => i,
        None => 0,
    }
}

/// The blanks a line starts with.
pub open spec fn indent_spec(row: Seq<char>) -> Seq<char> {
    row.take(leading_ws(row) as int)
}

pub fn first_non_blank(buffer: &Buffer, line: usize) -> (c: usize)
    ensures
        c as int == nonblank_col(row_of(buffer@.lines, line as int)),
{
    let row = buffer.line(line);
    assert(row@ == row_of(buffer@.lines, line as int));
    let mut i: usize = 0;
    while i < row.len()
        invariant
            i <= row@.len(),
            row@ == row_of(buffer@.lines, line as int),
            first_nonblank_from(row@, i as int) == first_nonblank_from(row@, 0),
        decreases row@.len() - i,
    {
        if !is_whitespace(row[i]) {
            return i;
        }
        i = i + 1;
    }
    0
}

proof fn lemma_leading_ws_bound(s: Seq<char>)
    ensures
        leading_ws(s) <= s.len(),
    decreases s.len(),
{
    if s.len() > 0 && spec_is_whitespace(s[0]) {
        lemma_leading_ws_bound(s.drop_first());
    }
}

proof fn lemma_leading_ws_step(s: Seq<char>, i: int)
    requires
        0 <= i <= s.len(),
        forall|j: int| 0 <= j < i ==> spec_is_whitespace(#[trigger] s[j]),
    ensures
        i < s.len() && spec_is_whitespace(s[i]) ==> leading_ws(s) >= i + 1,
        i < s.len() && !spec_is_whitespace(s[i]) ==> leading_ws(s) == i,
        i == s.len() ==> leading_ws(s) == i,
    decreases i,
{
    if i > 0 {
        lemma_leading_ws_step(s.drop_first(), i - 1);
        assert(s.drop_first().len() == s.len() - 1);
    } else {
        if s.len() > 0 && spec_is_whitespace(s[0]) {
            lemma_leading_ws_bound(s.drop_first());
        }
    }
}

pub fn indent_of(buffer: &Buffer, line: usize) -> (v: Vec<char>)
    ensures
        v@ == indent_spec(row_of(buffer@.lines, line as int)),
{
    let row = buffer.line(line);
    assert(row@ == row_of(buffer@.lines, line as int));
    let mut v: Vec<char> = Vec::new();
    let mut i: usize = 0;
    while i < row.len() && is_whitespace(row[i])
        invariant
            i <= row@.len(),
            v@ == row@.take(i as int),
            forall|j: int| 0 <= j < i ==> spec_is_whitespace(#[trigger] row@[j]),
        decreases row@.len() - i,
    {
        v.push(row[i]);
        i = i + 1;
        assert(v@ =~= row@.take(i as int));
    }
    proof {
        lemma_leading_ws_step(row@, i as int);
    }
    v
}

// ---------------------------------------------------------------------------
// Copying and cutting
// ---------------------------------------------------------------------------

fn chars_between(row: &[char], from: usize, to: usize) -> (s: String)
    requires
        from <= to <= row@.len(),
    ensures
        s@ == row@.subrange(from as int, to as int),
{
    let mut v: Vec<char> = Vec::new();
    let mut i = from;
    while i < to
        invariant
            from <= i <= to,
            to <= row@.len(),
            v@ == row@.subrange(from as int, i as int),
        decreases to - i,
    {
        v.push(row[i]);
        i = i + 1;
        assert(v@ =~= row@.subrange(from as int, i as int));
    }
    string_of(v.as_slice())
}

/// The text between two positions, as one string per line it spans.
pub fn slice(buffer: &Buffer, start: (usize, usize), end: (usize, usize)) -> (v: Vec<String>)
    requires
        start.0 <= end.0,
    ensures
        texts(v@) == slice_spec(buffer@.lines, start, end),
{
    if start.0 == end.0 {
        let row = buffer.line(start.0);
        let from = if start.1 < row.len() { start.1 } else { row.len() };
        let to = if end.1 < row.len() { end.1 } else { row.len() };
        let lo = if from < to { from } else { to };
        let piece = chars_between(row, lo, to);
        let v = vec![piece];
        assert(texts(v@) =~= slice_spec(buffer@.lines, start, end));
        return v;
    }
    let mut out: Vec<String> = Vec::new();
    let first = buffer.line(start.0);
    let from = if start.1 < first.len() { start.1 } else { first.len() };
    out.push(chars_between(first, from, first.len()));
    let mut line = start.0 + 1;
    while line < end.0
        invariant
            start.0 < line <= end.0,
            out@.len() == line - start.0,
            texts(out@)[0] == row_of(buffer@.lines, start.0 as int).skip(min_int(start.1 as int, llen(buffer@.lines, start.0 as int))),
            forall|i: int| 1 <= i < out@.len() ==> #[trigger] out@[i]@ == row_of(buffer@.lines, start.0 + i),
        decreases end.0 - line,
    {
        out.push(buffer.line_text(line));
        line = line + 1;
    }
    let last = buffer.line(end.0);
    let to = if end.1 < last.len() { end.1 } else { last.len() };
    out.push(chars_between(last, 0, to));
    proof {
        let want = slice_spec(buffer@.lines, start, end);
        assert(texts(out@).len() == want.len());
        assert forall|i: int| 0 <= i < want.len() implies #[trigger] texts(out@)[i] == want[i] by {
            if i == 0 {
            } else if i < want.len() - 1 {
                assert(out@[i]@ == row_of(buffer@.lines, start.0 + i));
            } else {
                assert(last@.subrange(0, to as int) =~= last@.take(to as int));
            }
        }
        assert(texts(out@) =~= want);
    }
    out
}

/// Cuts the text between two positions out of the buffer and returns it.
pub fn cut(buffer: &mut Buffer, start: (usize, usize), end: (usize, usize)) -> (v: Vec<String>)
    requires
        old(buffer)@.wf(),
        start.0 <= end.0,
    ensures
        final(buffer)@.wf(),
        texts(v@) == slice_spec(old(buffer)@.lines, start, end),
        final(buffer)@ == old(buffer)@.with_lines(cut_spec(old(buffer)@.lines, start, end)),
{
    let text = slice(buffer, start, end);
    if start.0 == end.0 {
        buffer.delete_range_in_line(start.0, start.1, end.1);
    } else {
        let ghost lines = buffer@.lines;
        let tail = {
            let row = buffer.line(end.0);
            let from = if end.1 < row.len() { end.1 } else { row.len() };
            chars_between(row, from, row.len())
        };
        assert(tail@ == row_of(lines, end.0 as int).skip(min_int(end.1 as int, llen(lines, end.0 as int))));
        let len = buffer.line_len(start.0);
        buffer.delete_range_in_line(start.0, start.1, len);
        let ghost a = buffer@.lines;
        assert(a == deleted_in_line(lines, start.0 as int, start.1 as int, llen(lines, start.0 as int)));
        buffer.remove_lines(start.0 + 1, end.0 - start.0);
        let ghost b = buffer@.lines;
        assert(b == lines_removed(a, start.0 + 1, end.0 - start.0));
        buffer.insert_str(start.0, start.1, tail.as_str());
    }
    text
}


// ---------------------------------------------------------------------------
// Registers
// ---------------------------------------------------------------------------

/// What a register puts on the system clipboard: its lines joined, ending
/// in a newline when they are whole lines.
pub open spec fn clip_text(r: (Seq<Seq<char>>, bool)) -> Seq<char> {
    join_with(r.0, seq!['\n']) + if r.1 { seq!['\n'] } else { Seq::<char>::empty() }
}

/// The registers after a yank or delete of `value`: the unnamed register
/// and the one asked for hold it.
pub open spec fn stored_in(before: Seq<(char, Register)>, after: Seq<(char, Register)>, register: Option<char>, value: (Seq<Seq<char>>, bool)) -> bool {
    forall|n: char| #[trigger] reg_of(after, n) == if n == '"' || register == Some(n) {
        Some(value)
    } else {
        reg_of(before, n)
    }
}

/// The strings joined with `sep` between each two.
pub fn join_texts(v: &Vec<String>, sep: char) -> (s: Vec<char>)
    ensures
        s@ == join_with(texts(v@), seq![sep]),
{
    let mut out: Vec<char> = Vec::new();
    let mut i: usize = 0;
    while i < v.len()
        invariant
            i <= v@.len(),
            out@ == join_with(texts(v@).take(i as int), seq![sep]),
        decreases v@.len() - i,
    {
        let piece = chars_of(v[i].as_str());
        if i > 0 {
            out.push(sep);
        }
        let ghost before = out@;
        let mut k: usize = 0;
        while k < piece.len()
            invariant
                k <= piece@.len(),
                out@ == before + piece@.take(k as int),
            decreases piece@.len() - k,
        {
            out.push(piece[k]);
            k = k + 1;
            assert(out@ =~= before + piece@.take(k as int));
        }
        proof {
            assert(piece@.take(piece@.len() as int) =~= piece@);
            let t = texts(v@).take(i + 1);
            if i > 0 {
                assert(t.drop_last() =~= texts(v@).take(i as int));
            }
        }
        i = i + 1;
    }
    assert(texts(v@).take(v@.len() as int) =~= texts(v@));
    out
}

/// Keeps `value` in the unnamed register and in `register` when one was
/// named; with the clipboard option it also becomes the clipboard's text.
pub fn store(
    registers: &mut Vec<(char, Register)>,
    clipboard: &mut Option<String>,
    use_clipboard: bool,
    register: Option<char>,
    value: Register,
)
    ensures
        stored_in(old(registers)@, final(registers)@, register, reg_view(value)),
        use_clipboard ==> (*final(clipboard) matches Some(t) && t@ == clip_text(reg_view(value))),
        !use_clipboard ==> *final(clipboard) == *old(clipboard),
{
    let ghost before = registers@;
    if let Some(name) = register {
        set_register(registers, name, value.copy());
    }
    let ghost middle = registers@;
    if use_clipboard {
        let mut text = join_texts(&value.lines, '\n');
        if value.linewise {
            text.push('\n');
        }
        *clipboard = Some(string_of(text.as_slice()));
    }
    set_register(registers, '"', value);
}

// ---------------------------------------------------------------------------
// Putting text back
// ---------------------------------------------------------------------------

/// `ls` repeated `n` times.
pub open spec fn repeat_lines(ls: Seq<Seq<char>>, n: nat) -> Seq<Seq<char>>
    decreases n,
{
    if n == 0 {
        Seq::empty()
    } else {
        repeat_lines(ls, (n - 1) as nat) + ls
    }
}

/// `t` repeated `n` times.
pub open spec fn repeat_text(t: Seq<char>, n: nat) -> Seq<char>
    decreases n,
{
    if n == 0 {
        Seq::empty()
    } else {
        repeat_text(t, (n - 1) as nat) + t
    }
}

/// Pieces of several lines put into line `line` at `at`: the line is split
/// there, the first piece ends its front and the last starts its back.
pub open spec fn pasted_pieces(lines: Seq<Seq<char>>, line: int, at: int, pieces: Seq<Seq<char>>) -> Seq<Seq<char>> {
    let row = lines[line];
    let a = min_int(at, row.len() as int);
    lines.take(line) + seq![row.take(a) + pieces[0]] + pieces.subrange(1, pieces.len() - 1)
        + seq![pieces.last() + row.skip(a)] + lines.skip(line + 1)
}

/// The column a characterwise put lands at: after the cursor for `p` on a
/// line with text, at it otherwise.
pub open spec fn put_column(lines: Seq<Seq<char>>, cursor: (usize, usize), after: bool) -> int {
    if after && lines[cursor.0 as int].len() > 0 {
        cursor.1 + 1
    } else {
        cursor.1 as int
    }
}

/// The lines after `p` (`after`) or `P` puts `reg` `count` times.
pub open spec fn put_lines(lines: Seq<Seq<char>>, cursor: (usize, usize), after: bool, count: nat, reg: (Seq<Seq<char>>, bool)) -> Seq<Seq<char>> {
    if reg.1 {
        let at = if after { cursor.0 + 1 } else { cursor.0 as int };
        lines.take(at) + repeat_lines(reg.0, count) + lines.skip(at)
    } else if reg.0.len() == 1 {
        str_inserted(lines, cursor.0 as int, put_column(lines, cursor, after), repeat_text(reg.0[0], count))
    } else {
        pasted_pieces(lines, cursor.0 as int, put_column(lines, cursor, after), reg.0)
    }
}

/// Where the cursor goes after the put, before it is clamped: the first
/// non-blank of the first line put, the last character put, or the start of
/// the line after the split.
pub open spec fn put_cursor(lines: Seq<Seq<char>>, after_lines: Seq<Seq<char>>, cursor: (usize, usize), after: bool, count: nat, reg: (Seq<Seq<char>>, bool)) -> (int, int) {
    if reg.1 {
        let at = if after { cursor.0 + 1 } else { cursor.0 as int };
        let l = min_int(at, after_lines.len() - 1);
        (l, nonblank_col(row_of(after_lines, l)))
    } else if reg.0.len() == 1 {
        let n = repeat_text(reg.0[0], count).len();
        (cursor.0 as int, if n > 0 { put_column(lines, cursor, after) + n - 1 } else { put_column(lines, cursor, after) })
    } else {
        (cursor.0 + 1, 0)
    }
}


/// `x` held to what a `usize` can say.
pub open spec fn sat(x: int) -> usize {
    if x > usize::MAX { usize::MAX } else if x < 0 { 0 } else { x as usize }
}

/// What the system clipboard's text is as a register: whole lines when it
/// ends in a newline.
pub open spec fn clip_register(text: Seq<char>) -> (Seq<Seq<char>>, bool) {
    let linewise = text.len() > 0 && text.last() == '\n';
    let body = if linewise { text.drop_last() } else { text };
    (crate::run::split_at_char(body, '\n'), linewise)
}

/// What `p` puts: the clipboard for the unnamed register when the clipboard
/// option is on and the host has read one, else the register itself.
pub open spec fn put_source(e: Editor, register: Option<char>) -> Option<(Seq<Seq<char>>, bool)> {
    if register is None && e.options.clipboard_unnamed && e.clipboard is Some {
        Some(clip_register(e.clipboard.unwrap()@))
    } else {
        reg_of(e.registers@, match register { Some(r) => r, None => '"' })
    }
}

/// What `p` or `P` does: the register's text put `count` times after or
/// before the cursor, as one change, the cursor where the text landed; with
/// nothing to put, the buffer and cursor stay. With the clipboard option
/// and no register named, the clipboard's text first becomes the unnamed
/// register's; no other register changes, nor the desired column.
pub open spec fn paste_effect(e0: Editor, e1: Editor, register: Option<char>, after: bool, count: usize) -> bool {
    &&& match put_source(e0, register) {
        Some(reg) if reg.0.len() > 0 => {
            let lines = e0.buffer@.lines;
            let after_lines = put_lines(lines, e0.cursor, after, count as nat, reg);
            let c = put_cursor(lines, after_lines, e0.cursor, after, count as nat, reg);
            &&& e1.buffer@ == one_change(e0.buffer@, e0.cursor, after_lines)
            &&& e1.cursor == clamped(after_lines, (sat(c.0), sat(c.1)), e0.mode)
        },
        _ => e1.buffer == e0.buffer && e1.cursor == e0.cursor,
    }
    &&& e1.desired_col == e0.desired_col
    &&& if register is None && e0.options.clipboard_unnamed && e0.clipboard is Some {
        stored_in(e0.registers@, e1.registers@, None, clip_register(e0.clipboard.unwrap()@))
    } else {
        e1.registers == e0.registers
    }
}

/// The buffer after an edit that is one undo step with `lines` as its
/// result.
pub open spec fn one_change(b: BufferModel, cursor: (usize, usize), lines: Seq<Seq<char>>) -> BufferModel {
    b.after_begin(cursor).with_lines(lines).after_commit()
}

pub fn repeat_chars_pub(t: &[char], count: usize) -> (v: Vec<char>)
    ensures
        v@ == repeat_text(t@, count as nat),
{
    repeat_chars(t, count)
}

fn repeat_chars(t: &[char], count: usize) -> (v: Vec<char>)
    ensures
        v@ == repeat_text(t@, count as nat),
{
    let mut v: Vec<char> = Vec::new();
    let mut c: usize = 0;
    while c < count
        invariant
            c <= count,
            v@ == repeat_text(t@, c as nat),
        decreases count - c,
    {
        let ghost before = v@;
        let mut k: usize = 0;
        while k < t.len()
            invariant
                k <= t@.len(),
                v@ == before + t@.take(k as int),
            decreases t@.len() - k,
        {
            v.push(t[k]);
            k = k + 1;
            assert(v@ =~= before + t@.take(k as int));
        }
        assert(t@.take(t@.len() as int) =~= t@);
        c = c + 1;
    }
    v
}

fn strings_of(parts: Vec<Vec<char>>) -> (v: Vec<String>)
    ensures
        texts(v@) == parts@.map_values(|p: Vec<char>| p@),
{
    let mut v: Vec<String> = Vec::new();
    let mut i: usize = 0;
    while i < parts.len()
        invariant
            i <= parts@.len(),
            v@.len() == i,
            forall|j: int| 0 <= j < i ==> #[trigger] v@[j]@ == parts@[j]@,
        decreases parts@.len() - i,
    {
        v.push(string_of(parts[i].as_slice()));
        i = i + 1;
    }
    assert(texts(v@) =~= parts@.map_values(|p: Vec<char>| p@));
    v
}


/// The text of `value` put into `buffer` at `cursor`, inside a change that
/// is left open; returns where the cursor goes.
#[verifier::rlimit(60)]
fn put_text(buffer: &mut Buffer, cursor: (usize, usize), after: bool, count: usize, value: &Register) -> (c: (usize, usize))
    requires
        old(buffer)@.wf(),
        cursor.0 < old(buffer)@.lines.len(),
        value.lines@.len() > 0,
    ensures
        final(buffer)@.wf(),
        ({
            let lines = old(buffer)@.lines;
            let after_lines = put_lines(lines, cursor, after, count as nat, reg_view(*value));
            let p = put_cursor(lines, after_lines, cursor, after, count as nat, reg_view(*value));
            &&& final(buffer)@ == old(buffer)@.after_begin(cursor).with_lines(after_lines)
            &&& c == (sat(p.0), sat(p.1))
        }),
{
    let ghost reg = reg_view(*value);
        let ghost lines0 = buffer@.lines;
        let ghost begun = buffer@.after_begin(cursor);
        buffer.begin_change(cursor);
        let n_lines = buffer.line_count();
        assert(cursor.0 < n_lines);
        if value.linewise {
            let at = if after { cursor.0 + 1 } else { cursor.0 };
            let mut index = at;
            let mut round: usize = 0;
            proof {
                assert(lines0.take(at as int) + repeat_lines(reg.0, 0) + lines0.skip(at as int) =~= lines0);
                assert(begun.with_lines(lines0) == begun);
            }
            while round < count
                invariant
                    round <= count,
                    at <= lines0.len(),
                    index == at + repeat_lines(reg.0, round as nat).len(),
                    texts(value.lines@) == reg.0,
                    begun.wf(),
                    buffer@ == begun.with_lines(
                        lines0.take(at as int) + repeat_lines(reg.0, round as nat) + lines0.skip(at as int),
                    ),
                    buffer@.wf(),
                decreases count - round,
            {
                let mut j: usize = 0;
                while j < value.lines.len()
                    invariant
                        j <= value.lines@.len(),
                        at <= lines0.len(),
                        texts(value.lines@) == reg.0,
                        index == at + repeat_lines(reg.0, round as nat).len() + j,
                        buffer@ == begun.with_lines(
                            lines0.take(at as int) + repeat_lines(reg.0, round as nat) + reg.0.take(j as int)
                                + lines0.skip(at as int),
                        ),
                        buffer@.wf(),
                    decreases value.lines@.len() - j,
                {
                    let chars = chars_of(value.lines[j].as_str());
                    buffer.insert_line(index, chars);
                    let total = buffer.line_count();
                    proof {
                        assert(texts(value.lines@)[j as int] == chars@);
                        assert(reg.0.take(j + 1) =~= reg.0.take(j as int).push(chars@));
                        assert(buffer@.lines =~= lines0.take(at as int) + repeat_lines(reg.0, round as nat)
                            + reg.0.take(j + 1) + lines0.skip(at as int));
                    }
                    assert(index < total);
                    index = index + 1;
                    j = j + 1;
                }
                proof {
                    assert(reg.0.take(reg.0.len() as int) =~= reg.0);
                    assert(repeat_lines(reg.0, (round + 1) as nat) == repeat_lines(reg.0, round as nat) + reg.0);
                    assert(lines0.take(at as int) + repeat_lines(reg.0, round as nat) + reg.0.take(reg.0.len() as int)
                        + lines0.skip(at as int) =~= lines0.take(at as int) + repeat_lines(reg.0, (round + 1) as nat)
                        + lines0.skip(at as int));
                }
                round = round + 1;
            }
            let last = buffer.line_count() - 1;
            let line = if at < last { at } else { last };
            (line, first_non_blank(buffer, line))
        } else {
            let (line, col) = cursor;
            let at = if after && buffer.line_len(line) > 0 {
                if col < usize::MAX { col + 1 } else { col }
            } else {
                col
            };
            if value.lines.len() == 1 {
                let first = chars_of(value.lines[0].as_str());
                let text = repeat_chars(first.as_slice(), count);
                let n = text.len();
                let s = string_of(text.as_slice());
                buffer.insert_str(line, at, s.as_str());
                let end = if n > 0 {
                    if at <= usize::MAX - (n - 1) { at + (n - 1) } else { usize::MAX }
                } else {
                    at
                };
                (line, end)
            } else {
                buffer.split_line(line, at);
                proof {
                    let row = lines0[line as int];
                    let a = min_int(at as int, row.len() as int);
                    assert(buffer@.lines =~= lines0.take(line as int) + seq![row.take(a)]
                        + seq![row.skip(a)] + lines0.skip(line + 1));
                }
                let mut index = line;
                let mut offset: usize = 0;
                let total = value.lines.len();
                while offset < total
                    invariant
                        0 <= offset <= total,
                        total == value.lines@.len(),
                        total >= 2,
                        line < lines0.len(),
                        texts(value.lines@) == reg.0,
                        begun.wf(),
                        ({
                            let row = lines0[line as int];
                            let a = min_int(at as int, row.len() as int);
                            if offset == 0 {
                                &&& index == line
                                &&& buffer@ == begun.with_lines(lines0.take(line as int) + seq![row.take(a)]
                                    + seq![row.skip(a)] + lines0.skip(line + 1))
                            } else if offset < total {
                                &&& index == line + offset - 1
                                &&& buffer@ == begun.with_lines(lines0.take(line as int) + seq![row.take(a) + reg.0[0]]
                                    + reg.0.subrange(1, offset as int) + seq![row.skip(a)] + lines0.skip(line + 1))
                            } else {
                                buffer@ == begun.with_lines(pasted_pieces(lines0, line as int, at as int, reg.0))
                            }
                        }),
                        buffer@.wf(),
                    decreases total - offset,
                {
                    let chunk = chars_of(value.lines[offset].as_str());
                    let n_now = buffer.line_count();
                    assert(offset > 0 ==> index + 1 < n_now);
                    assert(chunk@ == reg.0[offset as int]);
                    let ghost row = lines0[line as int];
                    let ghost a = min_int(at as int, row.len() as int);
                    if offset == 0 {
                        let s = string_of(chunk.as_slice());
                        buffer.insert_str(index, at, s.as_str());
                        proof {
                            assert(min_int(at as int, row.take(a).len() as int) == a);
                            assert(inserted(row.take(a), at as int, chunk@) =~= row.take(a) + reg.0[0]);
                            assert(buffer@.lines =~= lines0.take(line as int) + seq![row.take(a) + reg.0[0]]
                                + reg.0.subrange(1, 1) + seq![row.skip(a)] + lines0.skip(line + 1));
                        }
                    } else if offset == total - 1 {
                        let s = string_of(chunk.as_slice());
                        buffer.insert_str(index + 1, 0, s.as_str());
                        proof {
                            let before = lines0.take(line as int) + seq![row.take(a) + reg.0[0]]
                                + reg.0.subrange(1, offset as int) + seq![row.skip(a)] + lines0.skip(line + 1);
                            assert(before[index + 1] == row.skip(a));
                            assert(inserted(row.skip(a), 0, chunk@) =~= reg.0.last() + row.skip(a));
                            assert(buffer@.lines =~= pasted_pieces(lines0, line as int, at as int, reg.0));
                        }
                        index = index + 1;
                    } else {
                        buffer.insert_line(index + 1, chunk);
                        proof {
                            assert(reg.0.subrange(1, offset + 1) =~= reg.0.subrange(1, offset as int).push(reg.0[offset as int]));
                            assert(buffer@.lines =~= lines0.take(line as int) + seq![row.take(a) + reg.0[0]]
                                + reg.0.subrange(1, offset + 1) + seq![row.skip(a)] + lines0.skip(line + 1));
                        }
                        index = index + 1;
                    }
                    offset = offset + 1;
                }
                assert(line < n_lines);
                (line + 1, 0)
            }
        }
}

impl Editor {
    /// `p` and `P`: puts the register after or before the cursor `count`
    /// times, as one undo step.
    pub fn paste(&mut self, register: Option<char>, after: bool, count: usize)
        requires
            old(self).wf(),
        ensures
            crate::editcore::input::edited(*old(self), *final(self)),
            final(self).wf(),
            final(self).mode == old(self).mode,
            final(self).pending == old(self).pending,
            final(self).requests == old(self).requests,
            paste_effect(*old(self), *final(self), register, after, count),
    {
        let name = match register {
            Some(r) => r,
            None => '"',
        };
        if register.is_none() && self.options.clipboard_unnamed {
            if let Some(text) = &self.clipboard {
                let chars = chars_of(text.as_str());
                let linewise = chars.len() > 0 && chars[chars.len() - 1] == '\n';
                let body: Vec<char> = if linewise {
                    let mut b = chars.clone();
                    b.pop();
                    assert(b@ =~= chars@.drop_last());
                    b
                } else {
                    chars
                };
                let parts = crate::run::split_chars(body.as_slice(), '\n');
                let lines = strings_of(parts);
                let ghost clip = self.clipboard.unwrap()@;
                set_register(&mut self.registers, '"', Register { lines, linewise });
                assert(reg_of(self.registers@, '"') == Some(clip_register(clip)));
            }
        }
        let value = match find_register(&self.registers, name) {
            Some(k) => self.registers[k].1.copy(),
            None => {
                return;
            },
        };
        let ghost reg = reg_view(value);
        assert(put_source(*old(self), register) == Some(reg));
        if value.lines.len() == 0 {
            return;
        }
        let ghost lines0 = self.buffer@.lines;
        let c = put_text(&mut self.buffer, self.cursor, after, count, &value);
        self.cursor = c;
        self.buffer.commit_change();
        clamp(&mut self.cursor, &self.buffer, self.mode);
    }
}


// ---------------------------------------------------------------------------
// Operators
// ---------------------------------------------------------------------------

pub open spec fn span_ok(span: Span) -> bool {
    match span {
        Span::Lines { from, to } => from <= to,
        Span::Chars { start, end } => start.0 <= end.0,
    }
}

/// The lines an indent or dedent covers.
pub open spec fn span_rows(span: Span) -> (usize, usize) {
    match span {
        Span::Lines { from, to } => (from, to),
        Span::Chars { start, end } => (start.0, end.0),
    }
}

/// How many spaces (not other blanks) a line starts with.
pub open spec fn leading_spaces(s: Seq<char>) -> nat
    decreases s.len(),
{
    if s.len() > 0 && s[0] == ' ' {
        1 + leading_spaces(s.drop_first())
    } else {
        0
    }
}

/// `>`: `width` spaces in front of a line that has text. `<`: up to `width`
/// leading spaces taken off.
pub open spec fn shifted(row: Seq<char>, indent: bool, width: nat) -> Seq<char> {
    if indent {
        if row.len() > 0 { Seq::new(width, |i: int| ' ') + row } else { row }
    } else {
        row.skip(if leading_spaces(row) < width { leading_spaces(row) as int } else { width as int })
    }
}

pub open spec fn shifted_lines(lines: Seq<Seq<char>>, from: int, to: int, indent: bool, width: nat) -> Seq<Seq<char>> {
    Seq::new(lines.len(), |i: int| if from <= i <= to { shifted(lines[i], indent, width) } else { lines[i] })
}

/// Newlines turned into spaces.
pub open spec fn flattened(s: Seq<char>) -> Seq<char> {
    s.map_values(|c: char| if c == '\n' { ' ' } else { c })
}

/// The number of lines a line span covers, held to what a `usize` can say.
pub open spec fn span_count(from: usize, to: usize) -> int {
    if to - from + 1 > usize::MAX { usize::MAX as int } else { to - from + 1 }
}

/// The lines after `operator` acts on `span`; `repl` is the unnamed
/// register, which `Substitute` puts in the span's place.
pub open spec fn operated(lines: Seq<Seq<char>>, operator: Operator, span: Span, width: nat, repl: Seq<Seq<char>>) -> Seq<Seq<char>> {
    match (operator, span) {
        (Operator::Yank, _) => lines,
        (Operator::Delete, Span::Lines { from, to }) => lines_removed(lines, from as int, span_count(from, to)),
        (Operator::Delete, Span::Chars { start, end }) => cut_spec(lines, start, end),
        (Operator::Change, Span::Lines { from, to }) => {
            let r = lines_removed(lines, from as int, span_count(from, to));
            r.insert(min_int(from as int, r.len() as int), indent_spec(row_of(lines, from as int)))
        },
        (Operator::Change, Span::Chars { start, end }) => cut_spec(lines, start, end),
        (Operator::Substitute, Span::Lines { from, to }) => {
            let r = lines_removed(lines, from as int, span_count(from, to));
            let k = min_int(from as int, r.len() as int);
            r.take(k) + repl + r.skip(k)
        },
        (Operator::Substitute, Span::Chars { start, end }) => str_inserted(
            cut_spec(lines, start, end),
            start.0 as int,
            start.1 as int,
            flattened(join_with(repl, seq!['\n'])),
        ),
        (_, span) => {
            let (from, to) = span_rows(span);
            shifted_lines(lines, from as int, min_int(to as int, lines.len() - 1), operator == Operator::Indent, width)
        },
    }
}

/// What the operator leaves in the registers, when it leaves anything.
pub open spec fn operator_text(lines: Seq<Seq<char>>, operator: Operator, span: Span) -> Option<(Seq<Seq<char>>, bool)> {
    match (operator, span) {
        (Operator::Yank, Span::Lines { from, to }) | (Operator::Delete, Span::Lines { from, to }) | (
            Operator::Change,
            Span::Lines { from, to },
        ) => Some(
            (
                if from < min_int(to + 1, lines.len() as int) {
                    lines.subrange(from as int, min_int(to + 1, lines.len() as int))
                } else {
                    Seq::empty()
                },
                true,
            ),
        ),
        (Operator::Yank, Span::Chars { start, end }) | (Operator::Delete, Span::Chars { start, end }) | (
            Operator::Change,
            Span::Chars { start, end },
        ) => Some((slice_spec(lines, start, end), false)),
        _ => None,
    }
}

/// Where the cursor goes before it is clamped; `after` is the text the
/// operator left.
pub open spec fn operator_cursor(lines: Seq<Seq<char>>, after: Seq<Seq<char>>, operator: Operator, span: Span, cursor: (usize, usize), repl: Seq<Seq<char>>) -> (int, int) {
    match (operator, span) {
        (Operator::Yank, Span::Lines { from, .. }) => (from as int, cursor.1 as int),
        (Operator::Delete, Span::Lines { from, .. }) => {
            let l = min_int(from as int, after.len() - 1);
            (l, nonblank_col(row_of(after, l)))
        },
        (Operator::Change, Span::Lines { from, .. }) => (from as int, indent_spec(row_of(lines, from as int)).len() as int),
        (Operator::Substitute, Span::Lines { from, .. }) => (min_int(from as int, after.len() - 1), 0),
        (Operator::Substitute, Span::Chars { start, .. }) => (
            start.0 as int,
            start.1 + flattened(join_with(repl, seq!['\n'])).len(),
        ),
        (Operator::Indent, span) | (Operator::Dedent, span) => {
            let from = span_rows(span).0;
            (from as int, nonblank_col(row_of(after, from as int)))
        },
        (_, Span::Chars { start, .. }) => (start.0 as int, start.1 as int),
    }
}


fn shift_row(row: &[char], indent: bool, width: usize) -> (r: Vec<char>)
    ensures
        r@ == shifted(row@, indent, width as nat),
{
    let mut out: Vec<char> = Vec::new();
    if indent {
        if row.len() == 0 {
            return out;
        }
        let mut k: usize = 0;
        while k < width
            invariant
                k <= width,
                out@ == Seq::new(k as nat, |i: int| ' '),
            decreases width - k,
        {
            out.push(' ');
            k = k + 1;
            assert(out@ =~= Seq::new(k as nat, |i: int| ' '));
        }
        let ghost front = out@;
        let mut j: usize = 0;
        while j < row.len()
            invariant
                j <= row@.len(),
                out@ == front + row@.take(j as int),
            decreases row@.len() - j,
        {
            out.push(row[j]);
            j = j + 1;
            assert(out@ =~= front + row@.take(j as int));
        }
        assert(row@.take(row@.len() as int) =~= row@);
        out
    } else {
        let mut skip: usize = 0;
        assert(row@.skip(0) =~= row@);
        while skip < width && skip < row.len() && row[skip] == ' '
            invariant
                skip <= width,
                skip <= row@.len(),
                leading_spaces(row@) >= skip,
                leading_spaces(row@.skip(skip as int)) + skip == leading_spaces(row@),
            decreases width - skip,
        {
            proof {
                assert(row@.skip(skip as int).drop_first() =~= row@.skip(skip + 1));
            }
            skip = skip + 1;
        }
        proof {
            if skip < width {
                if skip < row@.len() {
                    assert(row@.skip(skip as int)[0] == row@[skip as int]);
                }
                assert(leading_spaces(row@.skip(skip as int)) == 0);
            }
        }
        let mut j = skip;
        while j < row.len()
            invariant
                skip <= j <= row@.len(),
                out@ == row@.subrange(skip as int, j as int),
            decreases row@.len() - j,
        {
            out.push(row[j]);
            j = j + 1;
            assert(out@ =~= row@.subrange(skip as int, j as int));
        }
        assert(row@.subrange(skip as int, row@.len() as int) =~= row@.skip(skip as int));
        out
    }
}


fn line_span_count(from: usize, to: usize) -> (n: usize)
    requires
        from <= to,
    ensures
        n as int == span_count(from, to),
{
    if to - from < usize::MAX { to - from + 1 } else { usize::MAX }
}

fn delete_lines(buffer: &mut Buffer, from: usize, to: usize) -> (r: (Vec<String>, (usize, usize)))
    requires
        old(buffer)@.wf(),
        from <= to,
    ensures
        final(buffer)@.wf(),
        ({
            let lines = old(buffer)@.lines;
            let after = operated(lines, Operator::Delete, Span::Lines { from, to }, 0, Seq::empty());
            let c = operator_cursor(lines, after, Operator::Delete, Span::Lines { from, to }, (0, 0), Seq::empty());
            &&& final(buffer)@ == old(buffer)@.with_lines(after)
            &&& r.1 == (sat(c.0), sat(c.1))
            &&& texts(r.0@) == operator_text(lines, Operator::Delete, Span::Lines { from, to }).unwrap().0
        }),
{
    let n = buffer.line_count();
    let count = line_span_count(from, to);
    let removed = buffer.remove_lines(from, count);
    let last = buffer.line_count() - 1;
    let l = if from < last { from } else { last };
    let col = first_non_blank(buffer, l);
    (removed, (l, col))
}

fn change_lines(buffer: &mut Buffer, from: usize, to: usize) -> (r: (Vec<String>, (usize, usize)))
    requires
        old(buffer)@.wf(),
        from <= to,
    ensures
        final(buffer)@.wf(),
        ({
            let lines = old(buffer)@.lines;
            let after = operated(lines, Operator::Change, Span::Lines { from, to }, 0, Seq::empty());
            let c = operator_cursor(lines, after, Operator::Change, Span::Lines { from, to }, (0, 0), Seq::empty());
            &&& final(buffer)@ == old(buffer)@.with_lines(after)
            &&& r.1 == (sat(c.0), sat(c.1))
            &&& texts(r.0@) == operator_text(lines, Operator::Change, Span::Lines { from, to }).unwrap().0
        }),
{
    let n = buffer.line_count();
    let indent = indent_of(buffer, from);
    let width_now = indent.len();
    let count = line_span_count(from, to);
    let removed = buffer.remove_lines(from, count);
    buffer.insert_line(from, indent);
    (removed, (from, width_now))
}

fn substitute_lines(buffer: &mut Buffer, from: usize, to: usize, repl: &Vec<String>) -> (c: (usize, usize))
    requires
        old(buffer)@.wf(),
        from <= to,
    ensures
        final(buffer)@.wf(),
        ({
            let lines = old(buffer)@.lines;
            let after = operated(lines, Operator::Substitute, Span::Lines { from, to }, 0, texts(repl@));
            let p = operator_cursor(lines, after, Operator::Substitute, Span::Lines { from, to }, (0, 0), texts(repl@));
            &&& final(buffer)@ == old(buffer)@.with_lines(after)
            &&& c == (sat(p.0), sat(p.1))
        }),
{
    let count = line_span_count(from, to);
    buffer.remove_lines(from, count);
    let ghost r = buffer@.lines;
    let ghost k = min_int(from as int, r.len() as int);
    let mut at = from;
    let mut j: usize = 0;
    proof {
        assert(r.take(k) + texts(repl@).take(0) + r.skip(k) =~= r);
    }
    while j < repl.len()
        invariant
            j <= repl@.len(),
            old(buffer)@.wf(),
            buffer@.wf(),
            0 <= k <= r.len(),
            k == min_int(from as int, r.len() as int),
            (at == usize::MAX && from + j >= usize::MAX) || at == from + j,
            buffer@ == old(buffer)@.with_lines(r.take(k) + texts(repl@).take(j as int) + r.skip(k)),
        decreases repl@.len() - j,
    {
        let chars = chars_of(repl[j].as_str());
        let len_now = buffer.line_count();
        proof {
            assert(len_now == r.len() + j);
            assert(min_int(at as int, len_now as int) == k + j);
        }
        buffer.insert_line(at, chars);
        proof {
            assert(texts(repl@).take(j + 1) =~= texts(repl@).take(j as int).push(chars@));
            assert(buffer@.lines =~= r.take(k) + texts(repl@).take(j + 1) + r.skip(k));
        }
        at = if at < usize::MAX { at + 1 } else { at };
        j = j + 1;
    }
    assert(texts(repl@).take(repl@.len() as int) =~= texts(repl@));
    let last = buffer.line_count() - 1;
    let l = if from < last { from } else { last };
    (l, 0)
}

fn substitute_chars(buffer: &mut Buffer, start: (usize, usize), end: (usize, usize), repl: &Vec<String>) -> (c: (usize, usize))
    requires
        old(buffer)@.wf(),
        start.0 <= end.0,
    ensures
        final(buffer)@.wf(),
        ({
            let lines = old(buffer)@.lines;
            let sp = Span::Chars { start, end };
            let after = operated(lines, Operator::Substitute, sp, 0, texts(repl@));
            let p = operator_cursor(lines, after, Operator::Substitute, sp, (0, 0), texts(repl@));
            &&& final(buffer)@ == old(buffer)@.with_lines(after)
            &&& c == (sat(p.0), sat(p.1))
        }),
{
    cut(buffer, start, end);
    let joined = join_texts(repl, '\n');
    let mut flat: Vec<char> = Vec::new();
    let mut i: usize = 0;
    while i < joined.len()
        invariant
            i <= joined@.len(),
            flat@ == flattened(joined@.take(i as int)),
        decreases joined@.len() - i,
    {
        let c = joined[i];
        flat.push(if c == '\n' { ' ' } else { c });
        i = i + 1;
        assert(flat@ =~= flattened(joined@.take(i as int)));
    }
    assert(joined@.take(joined@.len() as int) =~= joined@);
    let text = string_of(flat.as_slice());
    buffer.insert_str(start.0, start.1, text.as_str());
    let col = if start.1 <= usize::MAX - flat.len() { start.1 + flat.len() } else { usize::MAX };
    (start.0, col)
}

fn shift_lines(buffer: &mut Buffer, from: usize, to: usize, indent: bool, width: usize) -> (c: (usize, usize))
    requires
        old(buffer)@.wf(),
    ensures
        final(buffer)@.wf(),
        ({
            let lines = old(buffer)@.lines;
            let after = shifted_lines(lines, from as int, min_int(to as int, lines.len() - 1), indent, width as nat);
            &&& final(buffer)@ == old(buffer)@.with_lines(after)
            &&& c.0 == from
            &&& c.1 as int == nonblank_col(row_of(after, from as int))
        }),
{
    let ghost lines = buffer@.lines;
    let n = buffer.line_count();
    let last = if to < n - 1 { to } else { n - 1 };
    let mut line = from;
    proof {
        assert(Seq::new(lines.len(), |i: int| if from <= i < from { shifted(lines[i], indent, width as nat) } else { lines[i] }) =~= lines);
        assert(buffer@.with_lines(lines) == buffer@);
    }
    while line <= last
        invariant
            from <= line,
            last < n,
            n == lines.len(),
            old(buffer)@.wf(),
            old(buffer)@.lines == lines,
            buffer@.wf(),
            line == from || line <= last + 1,
            buffer@ == old(buffer)@.with_lines(
                Seq::new(lines.len(), |i: int| if from <= i < line { shifted(lines[i], indent, width as nat) } else { lines[i] }),
            ),
        decreases last + 1 - line,
    {
        let row = shift_row(buffer.line(line), indent, width);
        buffer.replace_line(line, row);
        proof {
            assert(buffer@.lines =~= Seq::new(lines.len(), |i: int| if from <= i < line + 1 { shifted(lines[i], indent, width as nat) } else { lines[i] }));
        }
        line = line + 1;
    }
    proof {
        assert(buffer@.lines =~= shifted_lines(lines, from as int, min_int(to as int, lines.len() - 1), indent, width as nat));
    }
    let col = first_non_blank(buffer, from);
    (from, col)
}

/// The text an operator acts on changed in `buffer`; returns the text it
/// took (or copied) and where the cursor goes.
#[verifier::rlimit(40)]
pub fn operate(buffer: &mut Buffer, operator: Operator, span: Span, cursor: (usize, usize), width: usize, repl: &Vec<String>) -> (r: (Vec<String>, (usize, usize)))
    requires
        old(buffer)@.wf(),
        span_ok(span),
    ensures
        final(buffer)@.wf(),
        ({
            let lines = old(buffer)@.lines;
            let after = operated(lines, operator, span, width as nat, texts(repl@));
            let c = operator_cursor(lines, after, operator, span, cursor, texts(repl@));
            &&& final(buffer)@ == old(buffer)@.with_lines(after)
            &&& r.1 == (sat(c.0), sat(c.1))
            &&& (operator_text(lines, operator, span) matches Some(t) ==> texts(r.0@) == t.0)
        }),
{
    let ghost lines = buffer@.lines;
    match (operator, span) {
        (Operator::Yank, Span::Lines { from, to }) => {
            let end = if to < usize::MAX { to + 1 } else { to };
            let n = buffer.line_count();
            let text = buffer.lines_text(from, end);
            assert(buffer@.with_lines(lines) == buffer@);
            (text, (from, cursor.1))
        },
        (Operator::Yank, Span::Chars { start, end }) => {
            let text = slice(buffer, start, end);
            assert(buffer@.with_lines(lines) == buffer@);
            (text, start)
        },
        (Operator::Delete, Span::Lines { from, to }) => delete_lines(buffer, from, to),
        (Operator::Delete, Span::Chars { start, end }) | (Operator::Change, Span::Chars { start, end }) => {
            let text = cut(buffer, start, end);
            (text, start)
        },
        (Operator::Change, Span::Lines { from, to }) => change_lines(buffer, from, to),
        (Operator::Substitute, Span::Lines { from, to }) => (Vec::new(), substitute_lines(buffer, from, to, repl)),
        (Operator::Substitute, Span::Chars { start, end }) => (Vec::new(), substitute_chars(buffer, start, end, repl)),
        (op, sp) => {
            let (from, to) = match sp {
                Span::Lines { from, to } => (from, to),
                Span::Chars { start, end } => (start.0, end.0),
            };
            let c = shift_lines(buffer, from, to, op == Operator::Indent, width);
            (Vec::new(), c)
        },
    }
}


/// What the unnamed register holds, as lines.
pub open spec fn unnamed_lines(regs: Seq<(char, Register)>) -> Seq<Seq<char>> {
    match reg_of(regs, '"') {
        Some(r) => r.0,
        None => Seq::empty(),
    }
}

/// What operator `operator` does over `span`: the lines it leaves, as one
/// change (a change stays open for the insert that follows; a yank changes
/// nothing), the mode, where the cursor lands, and the register the text
/// taken goes to.
pub open spec fn operator_effect(e0: Editor, e1: Editor, operator: Operator, span: Span) -> bool {
    &&& e1.buffer@ == operated_buffer(e0, operator, span)
    &&& e1.mode == if operator == Operator::Change { Mode::Insert } else { e0.mode }
    &&& e1.cursor == operated_cursor(e0, operator, span, e1.mode)
    &&& operated_registers(e0, e1, operator, span)
}

/// With the clipboard option, the text an operator takes is also the
/// clipboard's; otherwise, or where it takes none, the clipboard stays.
pub open spec fn operated_clipboard(e0: Editor, e1: Editor, operator: Operator, span: Span) -> bool {
    match operator_text(e0.buffer@.lines, operator, span) {
        Some(t) => if e0.options.clipboard_unnamed {
            e1.clipboard matches Some(c) && c@ == clip_text(t)
        } else {
            e1.clipboard == e0.clipboard
        },
        None => e1.clipboard == e0.clipboard,
    }
}

/// `operator_effect`, with the clipboard and with nothing else changed.
pub open spec fn operator_step(e0: Editor, e1: Editor, operator: Operator, span: Span) -> bool {
    &&& operator_effect(e0, e1, operator, span)
    &&& operated_clipboard(e0, e1, operator, span)
    &&& e1 == (Editor { buffer: e1.buffer, registers: e1.registers, clipboard: e1.clipboard, mode: e1.mode, cursor: e1.cursor, ..e0 })
}

/// The lines `operator` leaves over `span`.
pub open spec fn operated_lines(e0: Editor, operator: Operator, span: Span) -> Seq<Seq<char>> {
    operated(e0.buffer@.lines, operator, span, e0.options.shiftwidth as nat, unnamed_lines(e0.registers@))
}

/// The buffer after `operator` over `span`: one change, left open for a
/// change's insert, none for a yank.
pub open spec fn operated_buffer(e0: Editor, operator: Operator, span: Span) -> BufferModel {
    let after = operated_lines(e0, operator, span);
    match operator {
        Operator::Yank => e0.buffer@,
        Operator::Change => e0.buffer@.after_begin(e0.cursor).with_lines(after),
        _ => one_change(e0.buffer@, e0.cursor, after),
    }
}

/// Where the cursor lands after `operator` over `span`, in `mode`.
pub open spec fn operated_cursor(e0: Editor, operator: Operator, span: Span, mode: Mode) -> (usize, usize) {
    let lines = e0.buffer@.lines;
    let after = operated_lines(e0, operator, span);
    let c = operator_cursor(lines, after, operator, span, e0.cursor, unnamed_lines(e0.registers@));
    clamped(after, (sat(c.0), sat(c.1)), mode)
}

/// The text `operator` takes over `span` went to the register pending and
/// the unnamed one; an operator that takes nothing leaves them.
pub open spec fn operated_registers(e0: Editor, e1: Editor, operator: Operator, span: Span) -> bool {
    match operator_text(e0.buffer@.lines, operator, span) {
        Some(t) => stored_in(e0.registers@, e1.registers@, e0.pending.register, t),
        None => e1.registers == e0.registers,
    }
}

impl Editor {
    /// Carries out `operator` on `span`: the text changes as one undo step
    /// (a change is left open for the insert that follows), what it took
    /// goes to the registers, and the cursor goes where vim puts it.
    #[verifier::rlimit(40)]
    pub fn apply_operator(&mut self, operator: Operator, span: Span)
        requires
            old(self).wf(),
            span_ok(span),
        ensures
            final(self).wf(),
            operator_effect(*old(self), *final(self), operator, span),
            operator_step(*old(self), *final(self), operator, span),
            final(self).pending == old(self).pending,
            final(self).requests == old(self).requests,
            final(self).tabs == old(self).tabs,
            final(self).buffers == old(self).buffers,
    {
        let register = self.pending.register;
        let repl: Vec<String> = match find_register(&self.registers, '"') {
            Some(k) => crate::editcore::editor::copy_strings(&self.registers[k].1.lines),
            None => Vec::new(),
        };
        let ghost lines = self.buffer@.lines;
        let ghost before = self.buffer@;
        if operator != Operator::Yank {
            self.buffer.begin_change(self.cursor);
        }
        let (text, c) = operate(&mut self.buffer, operator, span, self.cursor, self.options.shiftwidth, &repl);
        proof {
            if operator == Operator::Yank {
                assert(self.buffer@ == before);
            }
        }
        match operator {
            Operator::Yank | Operator::Delete | Operator::Change => {
                let linewise = match span {
                    Span::Lines { .. } => true,
                    Span::Chars { .. } => false,
                };
                store(
                    &mut self.registers,
                    &mut self.clipboard,
                    self.options.clipboard_unnamed,
                    register,
                    Register { lines: text, linewise },
                );
            },
            _ => {},
        }
        match operator {
            Operator::Change => {
                self.mode = Mode::Insert;
            },
            Operator::Yank => {},
            _ => {
                self.buffer.commit_change();
            },
        }
        self.cursor = c;
        clamp(&mut self.cursor, &self.buffer, self.mode);
    }
}


// ---------------------------------------------------------------------------
// Laws
// ---------------------------------------------------------------------------

/// `dd` (over `from..=to`) then `P` puts the lines back where they were,
/// as long as lines are left below the deleted ones.
pub proof fn law_delete_lines_then_put_before_restores(lines: Seq<Seq<char>>, from: usize, to: usize)
    requires
        from <= to,
        to + 1 < lines.len(),
        lines.len() <= usize::MAX,
    ensures
        ({
            let span = Span::Lines { from, to };
            let after = operated(lines, Operator::Delete, span, 0, Seq::empty());
            let taken = operator_text(lines, Operator::Delete, span).unwrap();
            &&& after.len() >= 1
            &&& operator_cursor(lines, after, Operator::Delete, span, (0, 0), Seq::empty()).0 == from
            &&& put_lines(after, (from, 0), false, 1, taken) == lines
        }),
{
    let span = Span::Lines { from, to };
    let rest = lines.take(from as int) + lines.skip(to + 1);
    assert(min_int(from + span_count(from, to), lines.len() as int) == to + 1);
    assert(operated(lines, Operator::Delete, span, 0, Seq::empty()) == at_least_one(rest));
    assert(rest.len() >= 1);
    let taken = operator_text(lines, Operator::Delete, span).unwrap();
    assert(taken.0 == lines.subrange(from as int, to + 1));
    assert(repeat_lines(taken.0, 1) =~= taken.0) by {
        assert(repeat_lines(taken.0, 0) =~= Seq::<Seq<char>>::empty());
    }
    assert(rest.take(from as int) =~= lines.take(from as int));
    assert(rest.skip(from as int) =~= lines.skip(to + 1));
    assert(lines.take(from as int) + lines.subrange(from as int, to + 1) + lines.skip(to + 1) =~= lines);
}

/// `dd` on the last lines then `p` puts them back below the line the
/// cursor went to.
pub proof fn law_delete_last_lines_then_put_after_restores(lines: Seq<Seq<char>>, from: usize)
    requires
        0 < from < lines.len(),
        lines.len() <= usize::MAX,
    ensures
        ({
            let to = (lines.len() - 1) as usize;
            let span = Span::Lines { from, to };
            let after = operated(lines, Operator::Delete, span, 0, Seq::empty());
            let taken = operator_text(lines, Operator::Delete, span).unwrap();
            let line = operator_cursor(lines, after, Operator::Delete, span, (0, 0), Seq::empty()).0;
            &&& line == from - 1
            &&& put_lines(after, (line as usize, 0), true, 1, taken) == lines
        }),
{
    let to = (lines.len() - 1) as usize;
    let span = Span::Lines { from, to };
    let rest = lines.take(from as int) + lines.skip(to + 1);
    assert(lines.skip(to + 1) =~= Seq::<Seq<char>>::empty());
    assert(rest =~= lines.take(from as int));
    assert(to as int == lines.len() - 1);
    assert(span_count(from, to) == to - from + 1);
    assert(min_int(from + span_count(from, to), lines.len() as int) == to + 1);
    assert(operated(lines, Operator::Delete, span, 0, Seq::empty()) == at_least_one(rest));
    let taken = operator_text(lines, Operator::Delete, span).unwrap();
    assert(repeat_lines(taken.0, 1) =~= taken.0) by {
        assert(repeat_lines(taken.0, 0) =~= Seq::<Seq<char>>::empty());
    }
    assert(rest.take(from as int) =~= rest);
    assert(rest.skip(from as int) =~= Seq::<Seq<char>>::empty());
    assert(lines.take(from as int) + lines.subrange(from as int, to + 1) + Seq::<Seq<char>>::empty() =~= lines);
}

/// Deleting characters `a..b` of a line (`x`, `dl`, `de` …) then `P` at the
/// cursor puts them back: the line is as it was.
pub proof fn law_delete_chars_then_put_before_restores(lines: Seq<Seq<char>>, line: usize, a: usize, b: usize)
    requires
        line < lines.len(),
        a < b <= lines[line as int].len(),
    ensures
        ({
            let span = Span::Chars { start: (line, a), end: (line, b) };
            let after = operated(lines, Operator::Delete, span, 0, Seq::empty());
            let taken = operator_text(lines, Operator::Delete, span).unwrap();
            put_lines(after, (line, a), false, 1, taken) == lines
        }),
{
    let row = lines[line as int];
    let span = Span::Chars { start: (line, a), end: (line, b) };
    let shorter = row.take(a as int) + row.skip(b as int);
    let after = lines.update(line as int, shorter);
    assert(operated(lines, Operator::Delete, span, 0, Seq::empty()) == after);
    let piece = row.subrange(a as int, b as int);
    assert(row_of(lines, line as int) == row);
    assert(slice_spec(lines, (line, a), (line, b)) == seq![piece]);
    assert(repeat_text(piece, 1) =~= piece) by {
        assert(repeat_text(piece, 0) =~= Seq::<char>::empty());
    }
    assert(inserted(shorter, a as int, piece) =~= row);
    assert(after.update(line as int, row) =~= lines);
}

/// `yyp` puts a copy of the cursor line below it.
pub proof fn law_yank_line_then_put_duplicates(lines: Seq<Seq<char>>, line: usize)
    requires
        line < lines.len(),
        line + 1 <= usize::MAX,
    ensures
        ({
            let span = Span::Lines { from: line, to: line };
            let taken = operator_text(lines, Operator::Yank, span).unwrap();
            &&& operated(lines, Operator::Yank, span, 0, Seq::empty()) == lines
            &&& put_lines(lines, (line, 0), true, 1, taken) == lines.insert(line + 1, lines[line as int])
        }),
{
    let span = Span::Lines { from: line, to: line };
    let taken = operator_text(lines, Operator::Yank, span).unwrap();
    assert(taken.0 =~= seq![lines[line as int]]);
    assert(repeat_lines(taken.0, 1) =~= taken.0) by {
        assert(repeat_lines(taken.0, 0) =~= Seq::<Seq<char>>::empty());
    }
    assert(lines.take(line + 1) + seq![lines[line as int]] + lines.skip(line + 1) =~= lines.insert(line + 1, lines[line as int]));
}

} // verus!
