//! Keys: the owner's mappings first, then insert mode, the `:` line, and
//! normal and visual mode with counts, operators and registers.

use vstd::prelude::*;
use crate::editcore::buffer::{inserted, min_int, Buffer};
use crate::editcore::editor::{
    clamp, clamped, message, no_pending, same_typing, Await, Editor, Message, Mode, Operator,
    Pending, Register, Request, Scope, Visual,
};
use crate::editcore::key::{Code, Key, Named};
use crate::editcore::motion::{apply_spec, llen, spec_kind, Kind, Motion};
use crate::editcore::operator::{
    clip_text, deleted_in_line, first_non_blank, indent_of, indent_spec, nonblank_col, one_change,
    operated_buffer, operated_cursor, operated_lines, operated_registers, operator_effect, paste_effect, sat, span_ok, store, stored_in, str_inserted, Span,
};
use crate::editcore::buffer::{spaced_join, trailing_ws};
use crate::editcore::motion::row_of;
use crate::editcore::window::Direction;
use crate::keymap::{rhs_model, Match, Rhs, RhsModel};
use crate::text::{chars_of, string_of};

verus! {

/// How deeply mappings may expand inside one key before the rest is
/// dropped; an expansion that deep would otherwise exhaust the stack.
pub const EXPANSION_LIMIT: usize = 65536;

fn copy_keys(v: &Vec<Key>) -> (r: Vec<Key>)
    ensures
        r@ == v@,
{
    let mut r: Vec<Key> = Vec::new();
    let mut i: usize = 0;
    while i < v.len()
        invariant
            i <= v@.len(),
            r@ == v@.take(i as int),
        decreases v@.len() - i,
    {
        r.push(v[i]);
        i = i + 1;
        assert(r@ =~= v@.take(i as int));
    }
    assert(v@.take(v@.len() as int) =~= v@);
    r
}

fn copy_rhs(r: &Rhs) -> (c: Rhs)
    ensures
        rhs_model(c) == rhs_model(*r),
{
    match r {
        Rhs::Keys(keys) => Rhs::Keys(copy_keys(keys)),
        Rhs::Command(command) => Rhs::Command(command.clone()),
        Rhs::Nothing => Rhs::Nothing,
    }
}

/// The result of an insert-mode key other than `<Esc>`: the lines and where
/// the cursor goes, before it is clamped.
pub open spec fn insert_result(lines: Seq<Seq<char>>, cursor: (usize, usize), desired: usize, key: Key, indent: Seq<char>) -> (Seq<Seq<char>>, (int, int)) {
    let l = cursor.0 as int;
    let c = cursor.1 as int;
    let row = lines[l];
    match key.code {
        Code::Named(Named::Enter) => {
            let k = min_int(c, row.len() as int);
            (lines.update(l, row.take(k)).insert(l + 1, row.skip(k)), (l + 1, 0))
        },
        Code::Named(Named::Backspace) => if c > 0 {
            (deleted_in_line(lines, l, c - 1, c), (l, c - 1))
        } else if l > 0 {
            (lines.update(l - 1, lines[l - 1] + row).remove(l), (l - 1, lines[l - 1].len() as int))
        } else {
            (lines, (l, c))
        },
        Code::Named(Named::Delete) => (deleted_in_line(lines, l, c, c + 1), (l, c)),
        Code::Named(Named::Tab) => (str_inserted(lines, l, c, indent), (l, c + indent.len())),
        Code::Named(Named::Left) => (lines, apply_spec(lines, cursor, desired, Motion::Left, 1)),
        Code::Named(Named::Right) => (lines, apply_spec(lines, cursor, desired, Motion::Right, 1)),
        Code::Named(Named::Up) => (lines, apply_spec(lines, cursor, desired, Motion::Up, 1)),
        Code::Named(Named::Down) => (lines, apply_spec(lines, cursor, desired, Motion::Down, 1)),
        Code::Named(Named::Home) => (lines, (l, 0)),
        Code::Named(Named::End) => (lines, (l, row.len() as int)),
        Code::Char('w') if key.ctrl => {
            let t = apply_spec(lines, cursor, desired, Motion::WordBack { big: false }, 1);
            if t.0 == l {
                (deleted_in_line(lines, l, t.1, c), (l, t.1))
            } else {
                (lines, (l, c))
            }
        },
        Code::Char('u') if key.ctrl => (deleted_in_line(lines, l, 0, c), (l, 0)),
        _ => match key.spec_as_text() {
            Some(ch) => (str_inserted(lines, l, c, seq![ch]), (l, c + 1)),
            None => (lines, (l, c)),
        },
    }
}

/// Whether an insert-mode key asks the host for completions.
pub open spec fn asks_completion(key: Key) -> bool {
    key.code == Code::Char(' ') && key.ctrl
}

/// What a key does in insert mode.
pub open spec fn insert_key_effect(e0: Editor, e1: Editor, key: Key) -> bool {
    &&& (key.code == Code::Named(Named::Esc) ==> {
        &&& e1.buffer@ == e0.buffer@.after_commit()
        &&& e1.mode == Mode::Normal
        &&& e1.cursor == clamped(
            e0.buffer@.lines,
            (e0.cursor.0, if e0.cursor.1 > 0 { (e0.cursor.1 - 1) as usize } else { 0 }),
            Mode::Normal,
        )
    })
    &&& (key.code != Code::Named(Named::Esc) ==> {
        let r = insert_result(
            e0.buffer@.lines,
            e0.cursor,
            e0.desired_col,
            key,
            crate::editcore::editor::indent_text(e0.options),
        );
        &&& e1.buffer@ == e0.buffer@.with_lines(r.0)
        &&& e1.mode == Mode::Insert
        &&& e1.cursor == clamped(r.0, (sat(r.1.0), sat(r.1.1)), Mode::Insert)
    })
    &&& (e1.desired_col == e1.cursor.1)
    &&& (asks_completion(key) ==> e1.requests@ == e0.requests@.push(Request::Completion))
    &&& (!asks_completion(key) ==> e1.requests == e0.requests)
    &&& (e1.registers == e0.registers)
    &&& (e1.pending == e0.pending)
    &&& e1 == (Editor { buffer: e1.buffer, mode: e1.mode, cursor: e1.cursor, desired_col: e1.desired_col, requests: e1.requests, ..e0 })
}

impl Editor {
    /// The mode letter mappings are declared under.
    pub fn keymap_mode(&self) -> (c: char)
        ensures
            c == match self.mode {
                Mode::Normal => 'n',
                Mode::Insert => 'i',
                Mode::Visual(_) => 'v',
                Mode::Cmdline => 'c',
            },
    {
        match self.mode {
            Mode::Normal => 'n',
            Mode::Insert => 'i',
            Mode::Visual(_) => 'v',
            Mode::Cmdline => 'c',
        }
    }

    /// Moves the cursor by `motion` `count` times; `j` and `k` keep the
    /// column they aim for.
    pub fn move_by(&mut self, motion: Motion, count: usize)
        requires
            old(self).wf(),
        ensures
            final(self).wf(),
            ({
                let t = apply_spec(old(self).buffer@.lines, old(self).cursor, old(self).desired_col, motion, count);
                final(self).cursor == clamped(old(self).buffer@.lines, (sat(t.0), sat(t.1)), old(self).mode)
            }),
            final(self).desired_col == if motion is Up || motion is Down {
                old(self).desired_col
            } else {
                final(self).cursor.1
            },
            final(self).buffer == old(self).buffer,
            final(self).buffers == old(self).buffers,
            final(self).tabs == old(self).tabs,
            final(self).views == old(self).views,
            final(self).top_line == old(self).top_line,
            final(self).view_rows == old(self).view_rows,
            final(self).vcs == old(self).vcs,
            same_typing(*old(self), *final(self)),
            *final(self) == (Editor { cursor: final(self).cursor, desired_col: final(self).desired_col, ..*old(self) }),
    {
        let target = crate::editcore::motion::apply(&self.buffer, self.cursor, self.desired_col, motion, count);
        self.cursor = target;
        clamp(&mut self.cursor, &self.buffer, self.mode);
        if !motion.keeps_desired_column() {
            self.desired_col = self.cursor.1;
        }
    }

    pub fn enter_insert(&mut self)
        requires
            old(self).wf(),
        ensures
            final(self).wf(),
            final(self).buffer@ == old(self).buffer@.after_begin(old(self).cursor),
            final(self).mode == Mode::Insert,
            final(self).cursor == old(self).cursor,
            final(self).pending == old(self).pending,
            final(self).registers == old(self).registers,
            final(self).clipboard == old(self).clipboard,
            final(self).requests == old(self).requests,
            *final(self) == (Editor { buffer: final(self).buffer, mode: Mode::Insert, ..*old(self) }),
    {
        self.buffer.begin_change(self.cursor);
        self.mode = Mode::Insert;
    }

    /// A key in insert mode.
    pub fn feed_insert(&mut self, key: Key)
        requires
            old(self).wf(),
            old(self).mode == Mode::Insert,
        ensures
            final(self).wf(),
            insert_key_effect(*old(self), *final(self), key),
    {
        if key.code == Code::Named(Named::Esc) {
            let col = self.cursor.1;
            self.buffer.commit_change();
            self.mode = Mode::Normal;
            self.cursor.1 = if col > 0 { col - 1 } else { 0 };
        } else {
            if key.code == Code::Char(' ') && key.ctrl {
                self.requests.push(Request::Completion);
            }
            let indent = self.options.indent();
            let c = insert_edit(&mut self.buffer, self.cursor, self.desired_col, key, indent.as_str());
            self.cursor = c;
        }
        clamp(&mut self.cursor, &self.buffer, self.mode);
        self.desired_col = self.cursor.1;
    }
}

/// The text edit of an insert-mode key other than `<Esc>`; returns where
/// the cursor goes.
#[verifier::rlimit(40)]
fn insert_edit(buffer: &mut Buffer, cursor: (usize, usize), desired: usize, key: Key, indent: &str) -> (c: (usize, usize))
    requires
        old(buffer)@.wf(),
        cursor.0 < old(buffer)@.lines.len(),
        cursor.1 <= old(buffer)@.lines[cursor.0 as int].len(),
        key.code != Code::Named(Named::Esc),
    ensures
        final(buffer)@.wf(),
        ({
            let r = insert_result(old(buffer)@.lines, cursor, desired, key, indent@);
            &&& final(buffer)@ == old(buffer)@.with_lines(r.0)
            &&& c == (sat(r.1.0), sat(r.1.1))
        }),
{
    let (line, col) = cursor;
    let n = buffer.line_count();
    let len = buffer.line_len(line);
    let ghost lines = buffer@.lines;
    proof {
        assert(buffer@.with_lines(lines) == buffer@);
    }
    match key.code {
        Code::Named(Named::Enter) => {
            buffer.split_line(line, col);
            (line + 1, 0)
        },
        Code::Named(Named::Backspace) => {
            if col > 0 {
                buffer.delete_range_in_line(line, col - 1, col);
                (line, col - 1)
            } else if line > 0 {
                let at = buffer.line_len(line - 1);
                buffer.join_lines(line - 1, false);
                (line - 1, at)
            } else {
                (line, col)
            }
        },
        Code::Named(Named::Delete) => {
            let to = if col < len { col + 1 } else { col };
            buffer.delete_range_in_line(line, col, to);
            (line, col)
        },
        Code::Named(Named::Tab) => {
            let width = chars_of(indent).len();
            buffer.insert_str(line, col, indent);
            (line, if col <= usize::MAX - width { col + width } else { usize::MAX })
        },
        Code::Named(Named::Left) => crate::editcore::motion::apply(buffer, cursor, desired, Motion::Left, 1),
        Code::Named(Named::Right) => crate::editcore::motion::apply(buffer, cursor, desired, Motion::Right, 1),
        Code::Named(Named::Up) => crate::editcore::motion::apply(buffer, cursor, desired, Motion::Up, 1),
        Code::Named(Named::Down) => crate::editcore::motion::apply(buffer, cursor, desired, Motion::Down, 1),
        Code::Named(Named::Home) => (line, 0),
        Code::Named(Named::End) => (line, len),
        Code::Char('w') if key.ctrl => {
            let target = crate::editcore::motion::apply(buffer, cursor, desired, Motion::WordBack { big: false }, 1);
            if target.0 == line {
                buffer.delete_range_in_line(line, target.1, col);
                (line, target.1)
            } else {
                (line, col)
            }
        },
        Code::Char('u') if key.ctrl => {
            buffer.delete_range_in_line(line, 0, col);
            (line, 0)
        },
        _ => {
            match key.as_text() {
                Some(ch) => {
                    buffer.insert_char(line, col, ch);
                    let after_len = buffer.line_len(line);
                    (line, col + 1)
                },
                None => (line, col),
            }
        },
    }
}


/// The `:` line after an editing key: the text and where its cursor goes.
pub open spec fn cmdline_edit(text: Seq<char>, cursor: usize, key: Key) -> Option<(Seq<char>, usize)> {
    match key.code {
        Code::Named(Named::Backspace) => if cursor > 0 {
            if cursor - 1 < text.len() {
                Some((text.remove(cursor - 1), (cursor - 1) as usize))
            } else {
                Some((text, (cursor - 1) as usize))
            }
        } else {
            None
        },
        Code::Named(Named::Left) => Some((text, if cursor > 0 { (cursor - 1) as usize } else { 0 })),
        Code::Named(Named::Right) => Some((text, if cursor + 1 < text.len() { (cursor + 1) as usize } else { text.len() as usize })),
        Code::Char('u') if key.ctrl => Some((Seq::empty(), 0)),
        _ => match key.spec_as_text() {
            Some(ch) => {
                let at = if cursor < text.len() { cursor as int } else { text.len() as int };
                Some((text.take(at) + seq![ch] + text.skip(at), if cursor < usize::MAX { (cursor + 1) as usize } else { cursor }))
            },
            None => Some((text, cursor)),
        },
    }
}

/// A step of `/` or `?` from the cursor line, wrapping: forward is
/// `(line + step) % n`, backward `(line + n - step % n) % n`.
pub open spec fn search_line(line: int, step: int, n: int, forward: bool) -> int {
    if forward {
        if step < n - line { line + step } else { step - (n - line) }
    } else {
        let s = if step == n { 0 } else { step };
        if s <= line { line - s } else { line + n - s }
    }
}

/// Where `pat` is on a line `text` searched at step `step` from column
/// `col`: after the cursor on the cursor line going forward, before it going
/// back, anywhere on the other lines.
pub open spec fn search_hit(text: Seq<char>, pat: Seq<char>, step: int, col: int, forward: bool) -> int {
    if forward {
        let from = if step == 0 { min_int(col + 1, text.len() as int) } else { 0 };
        crate::text::find_seq(text, pat, from)
    } else {
        let to = if step == 0 { min_int(col, text.len() as int) } else { text.len() as int };
        crate::text::find_last(text.take(to), pat, to - pat.len())
    }
}

/// A line as the search sees it: lowered unless case tells.
pub open spec fn searched_text(row: Seq<char>, sensitive: bool) -> Seq<char> {
    if sensitive { row } else { crate::text::lowercased(row) }
}

/// The first match from step `step` on, as a line and a column.
pub open spec fn search_from(lines: Seq<Seq<char>>, cursor: (usize, usize), pat: Seq<char>, sensitive: bool, forward: bool, step: int) -> Option<(int, int)>
    decreases lines.len() + 1 - step,
{
    if step < 0 || step > lines.len() {
        None
    } else {
        let index = search_line(cursor.0 as int, step, lines.len() as int, forward);
        let hit = search_hit(searched_text(lines[index], sensitive), pat, step, cursor.1 as int, forward);
        if hit >= 0 {
            Some((index, hit))
        } else {
            search_from(lines, cursor, pat, sensitive, forward, step + 1)
        }
    }
}

/// What `n` or `N` does: the cursor to the next match of the last search
/// in that direction, or an error naming the pattern when there is none.
pub open spec fn search_effect(e0: Editor, e1: Editor, forward: bool) -> bool {
    match e0.last_search {
        Some(p) if p@.len() > 0 => {
            let sensitive = crate::editcore::editor::spec_case_sensitive(e0.options, p@);
            let pat = searched_text(p@, sensitive);
            match search_from(e0.buffer@.lines, e0.cursor, pat, sensitive, forward, 0) {
                Some(at) => {
                    let c = clamped(e0.buffer@.lines, (at.0 as usize, at.1 as usize), e0.mode);
                    e1 == (Editor { cursor: c, desired_col: c.1, ..e0 })
                },
                None => e1 == (Editor { message: e1.message, ..e0 }) && (e1.message matches Some(m) && m.error
                    && m.text@ == "E486: Pattern not found: "@ + p@),
            }
        },
        _ => e1 == e0,
    }
}

/// The editor as `Enter` leaves the command line: the line empty, its
/// cursor at 0, the mode normal.
pub open spec fn left_cmdline(e0: Editor, e1: Editor) -> bool {
    e1.cmdline@.len() == 0 && e1 == (Editor { cmdline: e1.cmdline, cmdline_cursor: 0, mode: Mode::Normal, ..e0 })
}

/// `e0` with its command line emptied and its cursor at 0.
pub open spec fn cleared_cmdline(e0: Editor, e1: Editor) -> bool {
    e1.cmdline@.len() == 0 && e1 == (Editor { cmdline: e1.cmdline, cmdline_cursor: 0, ..e0 })
}

/// What a key does on the command line. `Esc` leaves it; `Enter` runs the
/// `:` line as a command, or takes a `/`/`?` line as the search (an empty
/// one repeats the last) and moves to the next match; other keys edit the
/// line, and `Backspace` on an empty start leaves it.
pub open spec fn cmdline_key_effect(e0: Editor, e1: Editor, key: Key) -> bool {
    if key.code == Code::Named(Named::Esc) {
        e1.cmdline@.len() == 0 && e1 == (Editor { mode: Mode::Normal, cmdline: e1.cmdline, cmdline_cursor: 0, ..e0 })
    } else if key.code == Code::Named(Named::Enter) {
        let prefix = e0.cmdline_prefix;
        let line = e0.cmdline;
        exists|ea: Editor, eb: Editor|
            #![trigger passed(ea), passed(eb)]
            passed(ea) && passed(eb) && left_cmdline(e0, ea) && cleared_cmdline(eb, e1) && if prefix == ':' {
                crate::editcore::command::execute_effect(ea, eb, line@)
            } else if prefix == '/' || prefix == '?' {
                search_effect(
                    Editor {
                        last_search_forward: prefix == '/',
                        last_search: if line@.len() > 0 { Some(line) } else { ea.last_search },
                        ..ea
                    },
                    eb,
                    true,
                )
            } else {
                eb == ea
            }
    } else {
        match cmdline_edit(e0.cmdline@, e0.cmdline_cursor, key) {
            Some(r) => e1.cmdline@ == r.0 && e1 == (Editor { cmdline: e1.cmdline, cmdline_cursor: r.1, ..e0 }),
            None => e1 == (Editor { mode: Mode::Normal, ..e0 }),
        }
    }
}

impl Editor {
    /// `n` (or `N`): the next match of the last search, wrapping around the
    /// buffer once; `E486` when there is none.
    #[verifier::rlimit(40)]
    pub fn search_next(&mut self, forward: bool)
        requires
            old(self).wf(),
        ensures
            final(self).wf(),
            final(self).buffer == old(self).buffer,
            final(self).mode == old(self).mode,
            final(self).requests == old(self).requests,
            final(self).pending == old(self).pending,
            final(self).registers == old(self).registers,
            search_effect(*old(self), *final(self), forward),
    {
        let pattern = match &self.last_search {
            Some(p) => p.clone(),
            None => {
                return;
            },
        };
        let pattern_chars = chars_of(pattern.as_str());
        if pattern_chars.len() == 0 {
            return;
        }
        let sensitive = self.options.case_sensitive(pattern.as_str());
        let pat: Vec<char> = if sensitive {
            pattern_chars
        } else {
            chars_of(crate::text::to_lowercase(pattern.as_str()).as_str())
        };
        let lines = self.buffer.line_count();
        let (line, col) = self.cursor;
        let mut step: usize = 0;
        let mut more = true;
        while more
            invariant
                self.wf(),
                self == old(self),
                lines == self.buffer@.lines.len(),
                (line, col) == self.cursor,
                pattern@ == old(self).last_search.unwrap()@,
                old(self).last_search is Some,
                sensitive == crate::editcore::editor::spec_case_sensitive(self.options, pattern@),
                pat@ == searched_text(pattern@, sensitive),
                step <= lines,
                lines >= 1,
                !more ==> step == lines,
                pattern@.len() > 0,
                search_from(self.buffer@.lines, self.cursor, pat@, sensitive, forward, step + if more { 0int } else { 1int }) == search_from(
                    self.buffer@.lines,
                    self.cursor,
                    pat@,
                    sensitive,
                    forward,
                    0,
                ),
            decreases lines - step + if more { 1int } else { 0int },
        {
            let ghost lines_v = self.buffer@.lines;
            let index = if forward {
                if step < lines - line { line + step } else { step - (lines - line) }
            } else {
                let s = if step == lines { 0 } else { step };
                if s <= line { line - s } else { line + (lines - s) }
            };
            assert(index as int == search_line(line as int, step as int, lines as int, forward));
            let raw = self.buffer.line_text(index);
            let text: Vec<char> = if sensitive {
                chars_of(raw.as_str())
            } else {
                chars_of(crate::text::to_lowercase(raw.as_str()).as_str())
            };
            let found = if forward {
                let from = if step == 0 {
                    if col < text.len() { col + 1 } else { text.len() }
                } else {
                    0
                };
                crate::text::find_in(text.as_slice(), pat.as_slice(), from)
            } else {
                let to = if step == 0 {
                    if col < text.len() { col } else { text.len() }
                } else {
                    text.len()
                };
                let mut prefix: Vec<char> = Vec::new();
                let mut k: usize = 0;
                while k < to
                    invariant
                        k <= to <= text@.len(),
                        prefix@ == text@.take(k as int),
                    decreases to - k,
                {
                    prefix.push(text[k]);
                    k = k + 1;
                    assert(prefix@ =~= text@.take(k as int));
                }
                crate::text::find_last_in(prefix.as_slice(), pat.as_slice())
            };
            assert(text@ == searched_text(lines_v[index as int], sensitive));
            if let Some(at) = found {
                assert(search_from(lines_v, self.cursor, pat@, sensitive, forward, step as int) == Some((index as int, at as int)));
                self.cursor = (index, at);
                self.desired_col = at;
                clamp(&mut self.cursor, &self.buffer, self.mode);
                self.desired_col = self.cursor.1;
                assert(*self == (Editor { cursor: self.cursor, desired_col: self.desired_col, ..*old(self) }));
                return;
            }
            if step == lines {
                more = false;
            } else {
                step = step + 1;
            }
        }
        let text = crate::text::concat("E486: Pattern not found: ", pattern.as_str());
        self.message = Some(Message { text, error: true });
    }

    /// A key on the `:`, `/` or `?` line.
    pub fn feed_cmdline(&mut self, key: Key)
        requires
            old(self).wf(),
        ensures
            final(self).wf(),
            cmdline_key_effect(*old(self), *final(self), key),
    {
        match key.code {
            Code::Named(Named::Esc) => {
                self.mode = Mode::Normal;
                self.cmdline = String::new();
                self.cmdline_cursor = 0;
            },
            Code::Named(Named::Enter) => {
                let ghost e0 = *self;
                let mut line = String::new();
                std::mem::swap(&mut line, &mut self.cmdline);
                let prefix = self.cmdline_prefix;
                self.cmdline_cursor = 0;
                self.mode = Mode::Normal;
                let ghost ea = *self;
                assert(left_cmdline(e0, ea));
                if prefix == ':' {
                    crate::editcore::command::execute(self, line.as_str());
                } else if prefix == '/' || prefix == '?' {
                    self.last_search_forward = prefix == '/';
                    if chars_of(line.as_str()).len() > 0 {
                        self.last_search = Some(line);
                    }
                    self.search_next(true);
                }
                let ghost eb = *self;
                self.cmdline = String::new();
                self.cmdline_cursor = 0;
                assert(cleared_cmdline(eb, *self));
                assert(passed(ea) && passed(eb));
            },
            Code::Named(Named::Backspace) => {
                if self.cmdline_cursor > 0 {
                    let index = self.cmdline_cursor - 1;
                    let mut chars = chars_of(self.cmdline.as_str());
                    if index < chars.len() {
                        chars.remove(index);
                    }
                    self.cmdline = string_of(chars.as_slice());
                    self.cmdline_cursor = index;
                } else {
                    self.mode = Mode::Normal;
                }
            },
            Code::Named(Named::Left) => {
                self.cmdline_cursor = if self.cmdline_cursor > 0 { self.cmdline_cursor - 1 } else { 0 };
            },
            Code::Named(Named::Right) => {
                let count = chars_of(self.cmdline.as_str()).len();
                self.cmdline_cursor = if self.cmdline_cursor < count && self.cmdline_cursor + 1 < count {
                    self.cmdline_cursor + 1
                } else {
                    count
                };
            },
            Code::Char('u') if key.ctrl => {
                self.cmdline = String::new();
                self.cmdline_cursor = 0;
            },
            _ => {
                if let Some(ch) = key.as_text() {
                    let chars = chars_of(self.cmdline.as_str());
                    let at = if self.cmdline_cursor < chars.len() { self.cmdline_cursor } else { chars.len() };
                    let mut out: Vec<char> = Vec::new();
                    let mut i: usize = 0;
                    while i < at
                        invariant
                            i <= at <= chars@.len(),
                            out@ == chars@.take(i as int),
                        decreases at - i,
                    {
                        out.push(chars[i]);
                        i = i + 1;
                        assert(out@ =~= chars@.take(i as int));
                    }
                    out.push(ch);
                    let mut j = at;
                    while j < chars.len()
                        invariant
                            at <= j <= chars@.len(),
                            out@ == chars@.take(at as int) + seq![ch] + chars@.subrange(at as int, j as int),
                        decreases chars@.len() - j,
                    {
                        out.push(chars[j]);
                        j = j + 1;
                        assert(out@ =~= chars@.take(at as int) + seq![ch] + chars@.subrange(at as int, j as int));
                    }
                    assert(chars@.subrange(at as int, chars@.len() as int) =~= chars@.skip(at as int));
                    self.cmdline = string_of(out.as_slice());
                    self.cmdline_cursor = if self.cmdline_cursor < usize::MAX { self.cmdline_cursor + 1 } else { self.cmdline_cursor };
                }
            },
        }
    }
}


/// The argument a key waits for in normal mode, if it waits for one.
pub open spec fn await_of(ch: char) -> Option<Await> {
    if ch == 'g' { Some(Await::G) }
    else if ch == 'z' { Some(Await::Z) }
    else if ch == '"' { Some(Await::Register) }
    else if ch == ' ' { Some(Await::Leader) }
    else if ch == 'f' { Some(Await::Find { forward: true, till: false }) }
    else if ch == 'F' { Some(Await::Find { forward: false, till: false }) }
    else if ch == 't' { Some(Await::Find { forward: true, till: true }) }
    else if ch == 'T' { Some(Await::Find { forward: false, till: true }) }
    else if ch == 'r' { Some(Await::Replace) }
    else if ch == ']' { Some(Await::Bracket { forward: true }) }
    else if ch == '[' { Some(Await::Bracket { forward: false }) }
    else { None }
}

/// The operator a key starts, if it is one.
pub open spec fn operator_of(ch: char) -> Option<Operator> {
    if ch == 'd' { Some(Operator::Delete) }
    else if ch == 'c' { Some(Operator::Change) }
    else if ch == 'y' { Some(Operator::Yank) }
    else if ch == '>' { Some(Operator::Indent) }
    else if ch == '<' { Some(Operator::Dedent) }
    else { None }
}

/// The two positions in order.
pub open spec fn ordered(a: (usize, usize), b: (usize, usize)) -> ((usize, usize), (usize, usize)) {
    if a.0 < b.0 || (a.0 == b.0 && a.1 <= b.1) { (a, b) } else { (b, a) }
}

pub open spec fn before(a: (usize, usize), b: (usize, usize)) -> bool {
    a.0 < b.0 || (a.0 == b.0 && a.1 < b.1)
}

/// What a visual selection covers: whole lines, or the characters from its
/// start through its end.
pub open spec fn visual_span_of(lines: Seq<Seq<char>>, mode: Mode, anchor: (usize, usize), cursor: (usize, usize), kind: Visual) -> Span {
    let (start, end) = if mode is Visual { ordered(anchor, cursor) } else { (cursor, cursor) };
    match kind {
        Visual::Line => Span::Lines { from: start.0, to: end.0 },
        Visual::Char => Span::Chars {
            start,
            end: (end.0, sat(min_int(end.1 + 1, llen(lines, end.0 as int)))),
        },
    }
}

/// What an operator covers when a motion from `cursor` lands on `target`:
/// whole lines for a linewise motion; otherwise the characters between, the
/// landing one included for an inclusive motion.
pub open spec fn motion_span_of(lines: Seq<Seq<char>>, cursor: (usize, usize), target: (usize, usize), kind: Kind) -> Span {
    match kind {
        Kind::Linewise => if target.0 <= cursor.0 {
            Span::Lines { from: target.0, to: cursor.0 }
        } else {
            Span::Lines { from: cursor.0, to: target.0 }
        },
        _ => {
            let inclusive = kind == Kind::Inclusive;
            let (start, end) = if target.0 < cursor.0 || (target.0 == cursor.0 && target.1 <= cursor.1) {
                (target, cursor)
            } else {
                (cursor, target)
            };
            let end1: int = if inclusive && before(cursor, target) {
                end.1 + 1
            } else if inclusive && before(target, cursor) {
                min_int(end.1 + 1, llen(lines, end.0 as int))
            } else {
                end.1 as int
            };
            if start.0 == end.0 {
                Span::Chars {
                    start: (start.0, sat(min_int(start.1 as int, llen(lines, start.0 as int)))),
                    end: (end.0, sat(min_int(end1, llen(lines, end.0 as int)))),
                }
            } else {
                Span::Chars { start, end: (end.0, sat(end1)) }
            }
        },
    }
}

/// `cw` on a non-blank changes to the end of the word, like `ce`.
pub open spec fn operator_motion(lines: Seq<Seq<char>>, cursor: (usize, usize), operator: Operator, motion: Motion) -> Motion {
    match motion {
        Motion::WordForward { big } => if operator == Operator::Change && cursor.1 < llen(lines, cursor.0 as int)
            && !crate::text::spec_is_whitespace(lines[cursor.0 as int][cursor.1 as int]) {
            Motion::WordEnd { big }
        } else {
            motion
        },
        _ => motion,
    }
}

/// What a motion does: the cursor moves where it lands; under a pending
/// operator, the operator acts on the span it covers.
pub open spec fn motion_effect(e0: Editor, e1: Editor, motion: Motion) -> bool {
    let lines = e0.buffer@.lines;
    match e0.pending.operator {
        None => {
            let t = apply_spec(lines, e0.cursor, e0.desired_col, motion, crate::editcore::editor::total_count(e0.pending));
            let c = clamped(lines, (sat(t.0), sat(t.1)), e0.mode);
            let d = if motion is Up || motion is Down { e0.desired_col } else { c.1 };
            e1 == (Editor { cursor: c, desired_col: d, pending: no_pending(), ..e0 })
        },
        Some(op) => {
            let m = operator_motion(lines, e0.cursor, op, motion);
            let t = apply_spec(lines, e0.cursor, e0.desired_col, m, crate::editcore::editor::total_count(e0.pending));
            let span = motion_span_of(lines, e0.cursor, (sat(t.0), sat(t.1)), spec_kind(m));
            &&& e1.pending == no_pending()
            &&& crate::editcore::operator::operator_step(e0, Editor { pending: e0.pending, ..e1 }, op, span)
        },
    }
}

/// The motion a key is on its own, if any; `G` goes to the line the count
/// names, else to the last line.
pub open spec fn simple_motion_of(key: Key, p: Pending) -> Option<Motion> {
    if key.ctrl {
        None
    } else {
        match key.code {
            Code::Char('h') => Some(Motion::Left),
            Code::Char('l') => Some(Motion::Right),
            Code::Char('j') => Some(Motion::Down),
            Code::Char('k') => Some(Motion::Up),
            Code::Char('0') => Some(Motion::LineStart),
            Code::Char('^') => Some(Motion::FirstNonBlank),
            Code::Char('$') => Some(Motion::LineEnd),
            Code::Char('w') => Some(Motion::WordForward { big: false }),
            Code::Char('W') => Some(Motion::WordForward { big: true }),
            Code::Char('b') => Some(Motion::WordBack { big: false }),
            Code::Char('B') => Some(Motion::WordBack { big: true }),
            Code::Char('e') => Some(Motion::WordEnd { big: false }),
            Code::Char('E') => Some(Motion::WordEnd { big: true }),
            Code::Char('{') => Some(Motion::ParagraphBack),
            Code::Char('}') => Some(Motion::ParagraphForward),
            Code::Char('%') => Some(Motion::MatchPair),
            Code::Char('G') => {
                let line = match p.count {
                    Some(n) => Some(n),
                    None => p.operator_count,
                };
                match line {
                    Some(n) => Some(Motion::GotoLine(if n > 0 { (n - 1) as usize } else { 0 })),
                    None => Some(Motion::FileEnd),
                }
            },
            Code::Named(Named::Left) => Some(Motion::Left),
            Code::Named(Named::Right) => Some(Motion::Right),
            Code::Named(Named::Up) => Some(Motion::Up),
            Code::Named(Named::Down) => Some(Motion::Down),
            Code::Named(Named::Home) => Some(Motion::LineStart),
            Code::Named(Named::End) => Some(Motion::LineEnd),
            _ => None,
        }
    }
}

/// Where `move_by(motion, count)` puts the cursor.
pub open spec fn moved(e0: Editor, motion: Motion, count: usize) -> (usize, usize) {
    let t = apply_spec(e0.buffer@.lines, e0.cursor, e0.desired_col, motion, count);
    clamped(e0.buffer@.lines, (sat(t.0), sat(t.1)), e0.mode)
}

/// What ctrl with `ch` does: half pages and pages move the cursor and
/// scroll, `<C-e>`/`<C-y>` scroll a line, `<C-r>` redoes, `<C-w>` waits for
/// a window command.
pub open spec fn ctrl_effect(e0: Editor, e1: Editor, ch: char) -> bool {
    let rows = e0.view_rows;
    let half: usize = if rows / 2 >= 1 { rows / 2 } else { 1 };
    let page: usize = if rows >= 3 { (rows - 2) as usize } else { 1 };
    let page_scroll: int = if rows >= 2 { rows - 2 } else { 0 };
    let max_top: int = e0.buffer@.lines.len() - 1;
    let top = e0.top_line as int;
    &&& e1.requests == e0.requests
    &&& e1.pending == if ch == 'w' { Pending { awaiting: Some(Await::Window), ..no_pending() } } else { no_pending() }
    &&& e1 == (Editor { cursor: e1.cursor, top_line: e1.top_line, buffer: e1.buffer, message: e1.message, pending: e1.pending, ..e0 })
    &&& (ch != 'r' || e0.buffer@.after_redo(e0.cursor).1 is Some) ==> e1.message == e0.message
    &&& if ch == 'd' {
        e1.cursor == moved(e0, Motion::Down, half) && e1.top_line == min_int(min_int(top + half, usize::MAX as int), max_top)
            && e1.buffer == e0.buffer
    } else if ch == 'u' {
        e1.cursor == moved(e0, Motion::Up, half) && e1.top_line == (if top >= half { top - half } else { 0 })
            && e1.buffer == e0.buffer
    } else if ch == 'f' {
        e1.cursor == moved(e0, Motion::Down, page) && e1.top_line == min_int(
            min_int(top + page_scroll, usize::MAX as int),
            max_top,
        ) && e1.buffer == e0.buffer
    } else if ch == 'b' {
        e1.cursor == moved(e0, Motion::Up, page) && e1.top_line == (if top >= page_scroll { top - page_scroll } else { 0 })
            && e1.buffer == e0.buffer
    } else if ch == 'r' {
        let (b, r) = e0.buffer@.after_redo(e0.cursor);
        &&& e1.buffer@ == b
        &&& match r {
            Some(at) => e1.cursor == clamped(b.lines, at, e0.mode),
            None => e1.cursor == clamped(b.lines, e0.cursor, e0.mode) && (e1.message matches Some(m) && !m.error
                && m.text@ == "Already at newest change"@),
        }
    } else if ch == 'e' {
        e1.top_line == min_int(min_int(top + 1, usize::MAX as int), max_top) && e1.buffer == e0.buffer && e1.cursor
            == e0.cursor
    } else if ch == 'y' {
        e1.top_line == (if top >= 1 { top - 1 } else { 0 }) && e1.buffer == e0.buffer && e1.cursor == e0.cursor
    } else {
        e1.buffer == e0.buffer && e1.cursor == e0.cursor && e1.top_line == e0.top_line
    }
}

/// What a character key does in normal or visual mode with `count`: a key
/// that waits for another, an operator key, or an action.
pub open spec fn char_key_effect(e0: Editor, e1: Editor, ch: char, count: usize) -> bool {
    match await_of(ch) {
        Some(a) => {
            &&& e1.pending == (Pending { awaiting: Some(a), ..e0.pending })
            &&& e1.buffer == e0.buffer
            &&& e1.cursor == e0.cursor
            &&& e1.mode == e0.mode
            &&& e1 == (Editor { pending: e1.pending, ..e0 })
        },
        None => match operator_of(ch) {
            Some(op) => operator_key_effect(e0, e1, op, count),
            None => {
                &&& e1.pending == if ch == 'Z' { Pending { awaiting: Some(Await::G), ..no_pending() } } else { no_pending() }
                &&& action_effect(Editor { pending: no_pending(), ..e0 }, e1, ch, count, e0.pending.register)
            },
        },
    }
}

/// What a key does in normal or visual mode.
pub open spec fn normal_key_effect(e0: Editor, e1: Editor, key: Key) -> bool {
    let count = crate::editcore::editor::total_count(e0.pending);
    match e0.pending.awaiting {
        Some(a) => await_effect(Editor { pending: Pending { awaiting: None, ..e0.pending }, ..e0 }, e1, a, key),
        None => match count_digit(key, e0.pending) {
            Some(d) => {
                &&& e1.pending == if e0.pending.operator is Some {
                    Pending { operator_count: Some(with_digit(e0.pending.operator_count, d)), ..e0.pending }
                } else {
                    Pending { count: Some(with_digit(e0.pending.count, d)), ..e0.pending }
                }
                &&& e1.buffer == e0.buffer
                &&& e1.cursor == e0.cursor
                &&& e1 == (Editor { pending: e1.pending, ..e0 })
            },
            None => match simple_motion_of(key, e0.pending) {
                Some(m) => motion_effect(e0, e1, m) && e1.pending == no_pending(),
                None => match key.code {
                    Code::Named(Named::Esc) => {
                        &&& e1.mode == Mode::Normal
                        &&& e1.pending == no_pending()
                        &&& e1.cursor == clamped(e0.buffer@.lines, e0.cursor, Mode::Normal)
                        &&& e1.buffer == e0.buffer
                        &&& e1 == (Editor { mode: Mode::Normal, pending: no_pending(), cursor: e1.cursor, ..e0 })
                    },
                    Code::Named(Named::Enter) => {
                        &&& e1.pending == no_pending()
                        &&& e1.cursor == (moved(Editor { pending: no_pending(), ..e0 }, Motion::Down, count).0, 0usize)
                        &&& e1.buffer == e0.buffer
                        &&& e1 == (Editor { pending: no_pending(), cursor: e1.cursor, ..e0 })
                    },
                    Code::Char(ch) => if key.ctrl {
                        ctrl_effect(e0, e1, ch)
                    } else {
                        char_key_effect(e0, e1, ch, count)
                    },
                    _ => e1 == (Editor { pending: no_pending(), ..e0 }),
                },
            },
        },
    }
}

impl Editor {
    pub fn visual_span(&self, kind: Visual) -> (s: Span)
        requires
            self.wf(),
        ensures
            s == visual_span_of(self.buffer@.lines, self.mode, self.visual_anchor, self.cursor, kind),
            span_ok(s),
    {
        let (start, end) = match self.visual_range() {
            Some(range) => range,
            None => (self.cursor, self.cursor),
        };
        match kind {
            Visual::Line => Span::Lines { from: start.0, to: end.0 },
            Visual::Char => {
                let len = self.buffer.line_len(end.0);
                let e = if end.1 < len { end.1 + 1 } else { len };
                Span::Chars { start, end: (end.0, e) }
            },
        }
    }

    pub fn motion_span(&self, motion: Motion, count: usize) -> (s: Span)
        requires
            self.wf(),
        ensures
            ({
                let t = apply_spec(self.buffer@.lines, self.cursor, self.desired_col, motion, count);
                s == motion_span_of(self.buffer@.lines, self.cursor, (sat(t.0), sat(t.1)), spec_kind(motion))
            }),
            span_ok(s),
    {
        let target = crate::editcore::motion::apply(&self.buffer, self.cursor, self.desired_col, motion, count);
        let cursor = self.cursor;
        match motion.kind() {
            Kind::Linewise => {
                if target.0 <= cursor.0 {
                    Span::Lines { from: target.0, to: cursor.0 }
                } else {
                    Span::Lines { from: cursor.0, to: target.0 }
                }
            },
            kind => {
                let inclusive = kind == Kind::Inclusive;
                let target_first = target.0 < cursor.0 || (target.0 == cursor.0 && target.1 <= cursor.1);
                let (mut start, mut end) = if target_first { (target, cursor) } else { (cursor, target) };
                let forward = cursor.0 < target.0 || (cursor.0 == target.0 && cursor.1 < target.1);
                let backward = target.0 < cursor.0 || (target.0 == cursor.0 && target.1 < cursor.1);
                let end_len = self.buffer.line_len(end.0);
                if inclusive && forward {
                    end.1 = if end.1 < usize::MAX { end.1 + 1 } else { end.1 };
                } else if inclusive && backward {
                    end.1 = if end.1 < end_len { end.1 + 1 } else { end_len };
                }
                if start.0 == end.0 {
                    let len = self.buffer.line_len(start.0);
                    if start.1 > len {
                        start.1 = len;
                    }
                    if end.1 > len {
                        end.1 = len;
                    }
                }
                Span::Chars { start, end }
            },
        }
    }

    fn toggle_visual(&mut self, kind: Visual)
        requires
            old(self).wf(),
        ensures
            final(self).wf(),
            final(self).mode == if old(self).mode == Mode::Visual(kind) { Mode::Normal } else { Mode::Visual(kind) },
            old(self).mode != Mode::Visual(kind) ==> final(self).visual_anchor == old(self).cursor,
            final(self).pending == no_pending(),
            final(self).buffer == old(self).buffer,
            final(self).cursor == old(self).cursor,
            final(self).requests == old(self).requests,
            final(self).registers == old(self).registers,
            *final(self) == (Editor { mode: final(self).mode, visual_anchor: final(self).visual_anchor, pending: final(self).pending, ..*old(self) }),
            old(self).mode == Mode::Visual(kind) ==> final(self).visual_anchor == old(self).visual_anchor,
    {
        if self.mode == Mode::Visual(kind) {
            self.mode = Mode::Normal;
        } else {
            self.visual_anchor = self.cursor;
            self.mode = Mode::Visual(kind);
        }
        self.pending = Pending::none();
    }

    /// The motion a non-control key is, when it is one.
    pub fn simple_motion(&self, key: Key) -> (m: Option<Motion>)
        ensures
            m == simple_motion_of(key, self.pending),
    {
        if key.ctrl {
            return None;
        }
        match key.code {
            Code::Char('h') => Some(Motion::Left),
            Code::Char('l') => Some(Motion::Right),
            Code::Char('j') => Some(Motion::Down),
            Code::Char('k') => Some(Motion::Up),
            Code::Char('0') => Some(Motion::LineStart),
            Code::Char('^') => Some(Motion::FirstNonBlank),
            Code::Char('$') => Some(Motion::LineEnd),
            Code::Char('w') => Some(Motion::WordForward { big: false }),
            Code::Char('W') => Some(Motion::WordForward { big: true }),
            Code::Char('b') => Some(Motion::WordBack { big: false }),
            Code::Char('B') => Some(Motion::WordBack { big: true }),
            Code::Char('e') => Some(Motion::WordEnd { big: false }),
            Code::Char('E') => Some(Motion::WordEnd { big: true }),
            Code::Char('{') => Some(Motion::ParagraphBack),
            Code::Char('}') => Some(Motion::ParagraphForward),
            Code::Char('%') => Some(Motion::MatchPair),
            Code::Char('G') => {
                let line = match self.pending.count {
                    Some(n) => Some(n),
                    None => self.pending.operator_count,
                };
                match line {
                    Some(n) => Some(Motion::GotoLine(if n > 0 { n - 1 } else { 0 })),
                    None => Some(Motion::FileEnd),
                }
            },
            Code::Named(Named::Left) => Some(Motion::Left),
            Code::Named(Named::Right) => Some(Motion::Right),
            Code::Named(Named::Up) => Some(Motion::Up),
            Code::Named(Named::Down) => Some(Motion::Down),
            Code::Named(Named::Home) => Some(Motion::LineStart),
            Code::Named(Named::End) => Some(Motion::LineEnd),
            _ => None,
        }
    }

    /// A motion typed in normal or visual mode: it moves the cursor, or,
    /// after an operator, gives the operator its span.
    pub fn consume_motion(&mut self, motion: Motion)
        requires
            old(self).wf(),
        ensures
            final(self).wf(),
            final(self).pending == no_pending(),
            motion_effect(*old(self), *final(self), motion),
            final(self).requests == old(self).requests,
    {
        let count = self.pending.total_count();
        if let Some(operator) = self.pending.operator {
            let mut motion = motion;
            if operator == Operator::Change {
                if let Motion::WordForward { big } = motion {
                    let row = self.buffer.line(self.cursor.0);
                    let on_blank = self.cursor.1 >= row.len() || crate::text::is_whitespace(row[self.cursor.1]);
                    if !on_blank {
                        motion = Motion::WordEnd { big };
                    }
                }
            }
            let span = self.motion_span(motion, count);
            self.apply_operator(operator, span);
            self.pending = Pending::none();
            return;
        }
        self.pending = Pending::none();
        self.move_by(motion, count);
    }
}


fn await_exec(ch: char) -> (a: Option<Await>)
    ensures
        a == await_of(ch),
{
    match ch {
        'g' => Some(Await::G),
        'z' => Some(Await::Z),
        '"' => Some(Await::Register),
        ' ' => Some(Await::Leader),
        'f' => Some(Await::Find { forward: true, till: false }),
        'F' => Some(Await::Find { forward: false, till: false }),
        't' => Some(Await::Find { forward: true, till: true }),
        'T' => Some(Await::Find { forward: false, till: true }),
        'r' => Some(Await::Replace),
        ']' => Some(Await::Bracket { forward: true }),
        '[' => Some(Await::Bracket { forward: false }),
        _ => None,
    }
}

fn operator_exec(ch: char) -> (o: Option<Operator>)
    ensures
        o == operator_of(ch),
{
    match ch {
        'd' => Some(Operator::Delete),
        'c' => Some(Operator::Change),
        'y' => Some(Operator::Yank),
        '>' => Some(Operator::Indent),
        '<' => Some(Operator::Dedent),
        _ => None,
    }
}

/// The span a doubled operator (`dd`, `3yy`) covers: `count` lines from the
/// cursor line, no further than the last.
pub open spec fn doubled_span(lines: Seq<Seq<char>>, cursor: (usize, usize), count: usize) -> Span {
    let n = if count >= 1 { count as int } else { 1 };
    let to = min_int(cursor.0 + n - 1, lines.len() - 1);
    Span::Lines { from: cursor.0, to: to as usize }
}

/// `~` on one character: lower to upper and upper to lower.
pub open spec fn flipped(c: char) -> char {
    if crate::text::unicode_lowercase(c) {
        match crate::text::uppercase_first(c) { Some(u) => u, None => c }
    } else if crate::text::unicode_uppercase(c) {
        match crate::text::lowercase_first(c) { Some(l) => l, None => c }
    } else {
        c
    }
}

fn flip_case(c: char) -> (r: char)
    ensures
        r == flipped(c),
{
    if crate::text::is_lowercase(c) {
        match crate::text::to_uppercase_first(c) { Some(u) => u, None => c }
    } else if crate::text::is_uppercase(c) {
        match crate::text::to_lowercase_first(c) { Some(l) => l, None => c }
    } else {
        c
    }
}

/// `value` went to the register named and the unnamed one, and to the
/// clipboard when the unnamed register is the clipboard.
pub open spec fn kept_in(e0: Editor, e1: Editor, register: Option<char>, value: (Seq<Seq<char>>, bool)) -> bool {
    &&& stored_in(e0.registers@, e1.registers@, register, value)
    &&& if e0.options.clipboard_unnamed {
        e1.clipboard matches Some(t) && t@ == clip_text(value)
    } else {
        e1.clipboard == e0.clipboard
    }
}

/// Registers and clipboard as they were.
pub open spec fn regs_kept(e0: Editor, e1: Editor) -> bool {
    e1.registers == e0.registers && e1.clipboard == e0.clipboard
}

/// `i`, `a`, `I`, `A`: insert mode at the cursor, after it, at the first
/// non-blank or at the end of the line, a change opened there.
pub open spec fn insert_effect(e0: Editor, e1: Editor, ch: char) -> bool {
    let lines = e0.buffer@.lines;
    let (l, c) = e0.cursor;
    let row = row_of(lines, l as int);
    let at: (usize, usize) = if ch == 'a' {
        (l, if c < row.len() { (c + 1) as usize } else { c })
    } else if ch == 'I' {
        clamped(lines, (l, nonblank_col(row) as usize), Mode::Insert)
    } else if ch == 'A' {
        (l, row.len() as usize)
    } else {
        e0.cursor
    };
    &&& e1.mode == Mode::Insert
    &&& e1.cursor == at
    &&& e1.buffer@ == e0.buffer@.after_begin(at)
    &&& regs_kept(e0, e1)
}

/// `o`, `O`: a line holding the current line's indent opened below or above,
/// insert mode at its end.
pub open spec fn open_line_effect(e0: Editor, e1: Editor, below: bool) -> bool {
    let lines = e0.buffer@.lines;
    let (l, c) = e0.cursor;
    let ind = indent_spec(row_of(lines, l as int));
    let at: int = if below { l + 1 } else { l as int };
    let grown = lines.insert(min_int(at, lines.len() as int), ind);
    let cur = clamped(grown, (at as usize, ind.len() as usize), Mode::Insert);
    &&& e1.mode == Mode::Insert
    &&& e1.cursor == cur
    &&& e1.buffer@ == e0.buffer@.after_begin(e0.cursor).with_lines(grown)
    &&& regs_kept(e0, e1)
}

/// `x`, `X`: `count` characters under and after the cursor, or before it,
/// taken out of the line into the register.
pub open spec fn delete_chars_effect(e0: Editor, e1: Editor, before: bool, count: usize, register: Option<char>) -> bool {
    let lines = e0.buffer@.lines;
    let (l, c) = e0.cursor;
    let row = row_of(lines, l as int);
    let from: int = if before { if c >= count { c - count } else { 0 } } else { c as int };
    let to: int = if before { c as int } else { min_int(c + count, row.len() as int) };
    &&& e1.mode == e0.mode
    &&& if from < to {
        let after = deleted_in_line(lines, l as int, from, to);
        &&& e1.buffer@ == one_change(e0.buffer@, e0.cursor, after)
        &&& kept_in(e0, e1, register, (seq![row.subrange(from, to)], false))
        &&& e1.cursor == clamped(after, if before { (l, from as usize) } else { e0.cursor }, e0.mode)
    } else {
        &&& e1.buffer@ == e0.buffer@
        &&& regs_kept(e0, e1)
        &&& e1.cursor == clamped(lines, e0.cursor, e0.mode)
    }
}

/// `D`, `C`, `s`: the rest of the line (or `count` characters for `s`)
/// taken into the register; `C` and `s` go on in insert mode.
pub open spec fn delete_rest_effect(e0: Editor, e1: Editor, ch: char, count: usize, register: Option<char>) -> bool {
    let lines = e0.buffer@.lines;
    let (l, c) = e0.cursor;
    let row = row_of(lines, l as int);
    let to: int = if ch == 's' { min_int(c + count, row.len() as int) } else { row.len() as int };
    let after = deleted_in_line(lines, l as int, c as int, to);
    &&& kept_in(e0, e1, register, (seq![row.subrange(c as int, to)], false))
    &&& if ch == 'D' {
        &&& e1.buffer@ == one_change(e0.buffer@, e0.cursor, after)
        &&& e1.mode == e0.mode
        &&& e1.cursor == clamped(after, e0.cursor, e0.mode)
    } else {
        &&& e1.buffer@ == e0.buffer@.after_begin(e0.cursor).with_lines(after)
        &&& e1.mode == Mode::Insert
        &&& e1.cursor == clamped(after, e0.cursor, Mode::Insert)
    }
}

/// `line` joined with the line below `k` times, blanks collapsed to one
/// space; fewer when the lines run out.
pub open spec fn joined(lines: Seq<Seq<char>>, line: int, k: nat) -> Seq<Seq<char>>
    decreases k,
{
    if k == 0 || line < 0 || line + 1 >= lines.len() {
        lines
    } else {
        joined(lines.update(line, spaced_join(lines[line], lines[line + 1])).remove(line + 1), line, (k - 1) as nat)
    }
}

/// The column the cursor lands on after `joined`: where the last join
/// happened, or `col` when none did.
pub open spec fn join_col(lines: Seq<Seq<char>>, line: int, k: nat, col: int) -> int
    decreases k,
{
    if k == 0 || line < 0 || line + 1 >= lines.len() {
        col
    } else {
        join_col(
            lines.update(line, spaced_join(lines[line], lines[line + 1])).remove(line + 1),
            line,
            (k - 1) as nat,
            lines[line].len() - trailing_ws(lines[line]),
        )
    }
}

/// `J`: the line joined with the `count - 1` below it (at least one).
pub open spec fn join_effect(e0: Editor, e1: Editor, count: usize) -> bool {
    let lines = e0.buffer@.lines;
    let (l, c) = e0.cursor;
    let k: nat = if count >= 2 { (count - 1) as nat } else { 1 };
    let after = joined(lines, l as int, k);
    &&& e1.buffer@ == one_change(e0.buffer@, e0.cursor, after)
    &&& e1.cursor == clamped(after, (l, join_col(lines, l as int, k, c as int) as usize), e0.mode)
    &&& e1.mode == e0.mode
    &&& regs_kept(e0, e1)
}

/// `row` with the case of characters `from..to` flipped.
pub open spec fn flipped_row(row: Seq<char>, from: int, to: int) -> Seq<char> {
    Seq::new(row.len(), |i: int| if from <= i < to { flipped(row[i]) } else { row[i] })
}

/// `~`: the case of `count` characters from the cursor flipped, the cursor
/// after them.
pub open spec fn flip_effect(e0: Editor, e1: Editor, count: usize) -> bool {
    let lines = e0.buffer@.lines;
    let (l, c) = e0.cursor;
    let row = row_of(lines, l as int);
    &&& e1.mode == e0.mode
    &&& regs_kept(e0, e1)
    &&& if c < row.len() {
        let end = min_int(c + count, row.len() as int);
        let after = lines.update(l as int, flipped_row(row, c as int, end));
        &&& e1.buffer@ == one_change(e0.buffer@, e0.cursor, after)
        &&& e1.cursor == clamped(after, (l, min_int(end, row.len() - 1) as usize), e0.mode)
    } else {
        &&& e1.buffer@ == e0.buffer@
        &&& e1.cursor == clamped(lines, e0.cursor, e0.mode)
    }
}

impl Editor {
    fn insert_action(&mut self, ch: char)
        requires
            old(self).wf(),
        ensures
            edited(*old(self), *final(self)),
            final(self).wf(),
            insert_effect(*old(self), *final(self), ch),
            final(self).pending == old(self).pending,
            final(self).requests == old(self).requests,
    {
        let (line, col) = self.cursor;
        let len = self.buffer.line_len(line);
        if ch == 'a' {
            if col < len {
                self.cursor.1 = col + 1;
            }
        } else if ch == 'I' {
            self.cursor.1 = first_non_blank(&self.buffer, line);
            clamp(&mut self.cursor, &self.buffer, Mode::Insert);
        } else if ch == 'A' {
            self.cursor.1 = len;
        }
        self.enter_insert();
    }

    fn open_line(&mut self, below: bool)
        requires
            old(self).wf(),
        ensures
            edited(*old(self), *final(self)),
            final(self).wf(),
            open_line_effect(*old(self), *final(self), below),
            final(self).pending == old(self).pending,
            final(self).requests == old(self).requests,
    {
        let line = self.cursor.0;
        let n_lines = self.buffer.line_count();
        self.buffer.begin_change(self.cursor);
        let indent = indent_of(&self.buffer, line);
        let width = indent.len();
        let at = if below { line + 1 } else { line };
        self.buffer.insert_line(at, indent);
        self.cursor = (at, width);
        clamp(&mut self.cursor, &self.buffer, Mode::Insert);
        self.enter_insert();
    }

    fn delete_chars(&mut self, before: bool, count: usize, register: Option<char>)
        requires
            old(self).wf(),
        ensures
            edited(*old(self), *final(self)),
            final(self).wf(),
            delete_chars_effect(*old(self), *final(self), before, count, register),
            final(self).pending == old(self).pending,
            final(self).requests == old(self).requests,
    {
        let (line, col) = self.cursor;
        let len = self.buffer.line_len(line);
        let (from, to) = if before {
            (if col >= count { col - count } else { 0 }, col)
        } else {
            (col, if count <= len - col { col + count } else { len })
        };
        if from < to {
            self.buffer.begin_change(self.cursor);
            let text = self.buffer.delete_range_in_line(line, from, to);
            self.buffer.commit_change();
            let ghost t = text@;
            let pieces = vec![text];
            proof {
                assert(crate::editcore::editor::texts(pieces@) =~= seq![t]);
            }
            store(
                &mut self.registers,
                &mut self.clipboard,
                self.options.clipboard_unnamed,
                register,
                Register { lines: pieces, linewise: false },
            );
            if before {
                self.cursor.1 = from;
            }
        }
        clamp(&mut self.cursor, &self.buffer, self.mode);
    }

    fn delete_rest(&mut self, ch: char, count: usize, register: Option<char>)
        requires
            old(self).wf(),
        ensures
            edited(*old(self), *final(self)),
            final(self).wf(),
            delete_rest_effect(*old(self), *final(self), ch, count, register),
            final(self).pending == old(self).pending,
            final(self).requests == old(self).requests,
    {
        let (line, col) = self.cursor;
        let len = self.buffer.line_len(line);
        let end = if ch == 's' {
            if count <= len - col { col + count } else { len }
        } else {
            len
        };
        self.buffer.begin_change(self.cursor);
        let text = self.buffer.delete_range_in_line(line, col, end);
        let ghost t = text@;
        proof {
            let lines = old(self).buffer@.lines;
            let row = row_of(lines, line as int);
            assert(t =~= row.subrange(col as int, end as int));
            let opened = old(self).buffer@.after_begin(old(self).cursor);
            assert(opened.with_lines(opened.lines) == opened);
            assert(self.buffer@ == opened.with_lines(deleted_in_line(lines, line as int, col as int, end as int)));
        }
        if ch == 'D' {
            self.buffer.commit_change();
        }
        let pieces = vec![text];
        proof {
            assert(crate::editcore::editor::texts(pieces@) =~= seq![t]);
        }
        store(
            &mut self.registers,
            &mut self.clipboard,
            self.options.clipboard_unnamed,
            register,
            Register { lines: pieces, linewise: false },
        );
        if ch == 'D' {
            clamp(&mut self.cursor, &self.buffer, self.mode);
        } else {
            clamp(&mut self.cursor, &self.buffer, Mode::Insert);
            self.enter_insert();
        }
    }
}

/// Joins `line` with the line below up to `joins` times and gives the
/// column of the last join (`col` when there was none).
fn join_repeatedly(buffer: &mut Buffer, line: usize, joins: usize, col: usize) -> (at: usize)
    requires
        old(buffer)@.wf(),
        line < old(buffer)@.lines.len(),
    ensures
        final(buffer)@.wf(),
        final(buffer)@ == old(buffer)@.with_lines(joined(old(buffer)@.lines, line as int, joins as nat)),
        at == join_col(old(buffer)@.lines, line as int, joins as nat, col as int),
{
    let ghost start = buffer@;
    let mut at = col;
    let mut k: usize = 0;
    let mut done = false;
    while k < joins && !done
        invariant
            buffer@.wf(),
            buffer@ == start.with_lines(buffer@.lines),
            line < buffer@.lines.len(),
            k <= joins,
            joined(start.lines, line as int, joins as nat) == joined(buffer@.lines, line as int, (joins - k) as nat),
            join_col(start.lines, line as int, joins as nat, col as int) == join_col(
                buffer@.lines,
                line as int,
                (joins - k) as nat,
                at as int,
            ),
            done ==> line + 1 >= buffer@.lines.len(),
        decreases joins - k + if done { 0int } else { 1int },
    {
        let ghost before = buffer@.lines;
        proof {
            crate::editcore::buffer::lemma_trailing_ws_bound(before[line as int]);
        }
        let ghost prev_at = at;
        let _width = buffer.line_len(line);
        match buffer.join_lines(line, true) {
            Some(column) => {
                proof {
                    let j = (joins - k) as nat;
                    let next = before.update(
                        line as int,
                        spaced_join(before[line as int], before[line + 1]),
                    ).remove(line + 1);
                    assert(buffer@.lines == next);
                    assert(column as int == before[line as int].len() - trailing_ws(before[line as int]));
                    assert(join_col(before, line as int, j, prev_at as int) == join_col(
                        next,
                        line as int,
                        (j - 1) as nat,
                        column as int,
                    ));
                }
                at = column;
                k = k + 1;
            },
            None => {
                done = true;
            },
        }
    }
    at
}

impl Editor {
    fn join_action(&mut self, count: usize)
        requires
            old(self).wf(),
        ensures
            edited(*old(self), *final(self)),
            final(self).wf(),
            join_effect(*old(self), *final(self), count),
            final(self).pending == old(self).pending,
            final(self).requests == old(self).requests,
    {
        let (line, col) = self.cursor;
        self.buffer.begin_change(self.cursor);
        let joins = if count >= 2 { count - 1 } else { 1 };
        let at = join_repeatedly(&mut self.buffer, line, joins, col);
        self.buffer.commit_change();
        self.cursor.1 = at;
        clamp(&mut self.cursor, &self.buffer, self.mode);
    }

    fn flip_action(&mut self, count: usize)
        requires
            old(self).wf(),
        ensures
            edited(*old(self), *final(self)),
            final(self).wf(),
            flip_effect(*old(self), *final(self), count),
            final(self).pending == old(self).pending,
            final(self).requests == old(self).requests,
    {
        let (line, col) = self.cursor;
        let len = self.buffer.line_len(line);
        if col < len {
            self.buffer.begin_change(self.cursor);
            let original = self.buffer.line(line);
            let end = if count <= len - col { col + count } else { len };
            let ghost target = flipped_row(original@, col as int, end as int);
            let mut row: Vec<char> = Vec::new();
            let mut i: usize = 0;
            while i < original.len()
                invariant
                    i <= original@.len(),
                    target == flipped_row(original@, col as int, end as int),
                    row@ == target.take(i as int),
                decreases original@.len() - i,
            {
                let c = original[i];
                row.push(if col <= i && i < end { flip_case(c) } else { c });
                i = i + 1;
                assert(row@ =~= target.take(i as int));
            }
            assert(row@ =~= target);
            self.buffer.replace_line(line, row);
            self.buffer.commit_change();
            let new_len = self.buffer.line_len(line);
            let limit = if new_len > 0 { new_len - 1 } else { 0 };
            self.cursor.1 = if end < limit { end } else { limit };
        }
        clamp(&mut self.cursor, &self.buffer, self.mode);
    }
}

/// `e1` is `e0` with at most the text, the cursor, the mode, the
/// registers and the clipboard changed.
pub open spec fn edited(e0: Editor, e1: Editor) -> bool {
    e1 == (Editor {
        buffer: e1.buffer,
        cursor: e1.cursor,
        mode: e1.mode,
        registers: e1.registers,
        clipboard: e1.clipboard,
        desired_col: e1.desired_col,
        ..e0
    })
}

/// What action key `ch` does, by the helper that carries it out; a key
/// that is no action changes nothing.
pub open spec fn action_effect(e0: Editor, e1: Editor, ch: char, count: usize, register: Option<char>) -> bool {
    let lines = e0.buffer@.lines;
    let (l, c) = e0.cursor;
    if ch == 'i' || ch == 'a' || ch == 'I' || ch == 'A' {
        insert_effect(e0, e1, ch) && edited(e0, e1)
    } else if ch == 'o' || ch == 'O' {
        open_line_effect(e0, e1, ch == 'o') && edited(e0, e1)
    } else if ch == 'x' || ch == 'X' {
        delete_chars_effect(e0, e1, ch == 'X', count, register) && edited(e0, e1)
    } else if ch == 'D' || ch == 'C' || ch == 's' {
        delete_rest_effect(e0, e1, ch, count, register) && edited(e0, e1)
    } else if ch == 'S' {
        let n: int = if count >= 1 { count as int } else { 1 };
        let to = min_int(l + n - 1, lines.len() - 1);
        crate::editcore::operator::operator_step(e0, e1, Operator::Change, Span::Lines { from: l, to: to as usize })
    } else if ch == 'p' || ch == 'P' {
        paste_effect(e0, e1, register, ch == 'p', count) && e1.mode == e0.mode && edited(e0, e1)
    } else if ch == 'u' {
        let (b, r) = e0.buffer@.after_undo(e0.cursor);
        &&& e1.buffer@ == b
        &&& e1.mode == e0.mode
        &&& match r {
            Some(at) => e1 == (Editor { buffer: e1.buffer, cursor: clamped(b.lines, at, e0.mode), ..e0 }),
            None => e1 == (Editor { buffer: e1.buffer, cursor: clamped(b.lines, e0.cursor, e0.mode), message: e1.message, ..e0 })
                && (e1.message matches Some(m) && !m.error && m.text@ == "Already at oldest change"@),
        }
    } else if ch == 'J' {
        join_effect(e0, e1, count) && edited(e0, e1)
    } else if ch == '~' {
        flip_effect(e0, e1, count) && edited(e0, e1)
    } else if ch == 'v' || ch == 'V' {
        let kind = if ch == 'v' { Visual::Char } else { Visual::Line };
        &&& e1.mode == if e0.mode == Mode::Visual(kind) { Mode::Normal } else { Mode::Visual(kind) }
        &&& e0.mode != Mode::Visual(kind) ==> e1.visual_anchor == e0.cursor
        &&& e1.buffer == e0.buffer
        &&& e1.cursor == e0.cursor
        &&& e1 == (Editor { mode: e1.mode, visual_anchor: e1.visual_anchor, pending: e1.pending, ..e0 })
        &&& e0.mode == Mode::Visual(kind) ==> e1.visual_anchor == e0.visual_anchor
    } else if ch == ':' || ch == '/' || ch == '?' {
        &&& e1.mode == Mode::Cmdline
        &&& e1.cmdline_prefix == ch
        &&& e1.cmdline@.len() == 0
        &&& e1.cmdline_cursor == 0
        &&& e1.buffer == e0.buffer
        &&& e1.cursor == e0.cursor
        &&& e1 == (Editor { mode: Mode::Cmdline, cmdline_prefix: ch, cmdline: e1.cmdline, cmdline_cursor: 0, ..e0 })
    } else if ch == 'n' || ch == 'N' {
        &&& search_effect(e0, e1, if ch == 'n' { e0.last_search_forward } else { !e0.last_search_forward })
        &&& e1.buffer == e0.buffer
        &&& e1.mode == e0.mode
    } else if ch == 'Z' {
        &&& e1.buffer == e0.buffer
        &&& e1.cursor == e0.cursor
        &&& e1.mode == e0.mode
        &&& e1 == (Editor { pending: e1.pending, ..e0 })
    } else {
        e1 == e0
    }
}

/// What operator key `op` does: doubled, it acts on `count` lines; in
/// visual mode, on the selection, and visual mode ends; otherwise it waits
/// for a motion.
pub open spec fn operator_key_effect(e0: Editor, e1: Editor, op: Operator, count: usize) -> bool {
    let lines = e0.buffer@.lines;
    if e0.pending.operator == Some(op) {
        &&& crate::editcore::operator::operator_step(e0, Editor { pending: e0.pending, ..e1 }, op, doubled_span(lines, e0.cursor, count))
        &&& e1.pending == no_pending()
    } else if e0.mode is Visual {
        let span = visual_span_of(lines, e0.mode, e0.visual_anchor, e0.cursor, e0.mode->Visual_0);
        let m1 = if op == Operator::Change { Mode::Insert } else { e0.mode };
        &&& e1.buffer@ == operated_buffer(e0, op, span)
        &&& e1.mode == Mode::Normal
        &&& e1.cursor == operated_cursor(e0, op, span, m1)
        &&& operated_registers(e0, e1, op, span)
        &&& e1.pending == no_pending()
        &&& exists|ex: Editor| #[trigger] passed(ex) && crate::editcore::operator::operator_step(e0, ex, op, span)
            && e1 == (Editor { mode: Mode::Normal, pending: no_pending(), ..ex })
    } else {
        &&& e1 == (Editor { pending: Pending { operator: Some(op), ..e0.pending }, ..e0 })
    }
}

impl Editor {
    /// An operator key: doubled it acts on lines, in visual mode on the
    /// selection, otherwise it waits for a motion.
    pub fn normal_operator(&mut self, operator: Operator, count: usize)
        requires
            old(self).wf(),
        ensures
            final(self).wf(),
            final(self).requests == old(self).requests,
            operator_key_effect(*old(self), *final(self), operator, count),
    {
        if self.pending.operator == Some(operator) {
            let from = self.cursor.0;
            let last = self.buffer.line_count() - 1;
            let n = if count >= 1 { count } else { 1 };
            let to = if n - 1 <= last - from { from + (n - 1) } else { last };
            self.apply_operator(operator, Span::Lines { from, to });
            self.pending = Pending::none();
            return;
        }
        if let Some(visual) = self.visual_kind() {
            let span = self.visual_span(visual);
            self.apply_operator(operator, span);
            let ghost ex = *self;
            assert(passed(ex));
            self.mode = Mode::Normal;
            self.pending = Pending::none();
            return;
        }
        self.pending.operator = Some(operator);
    }

    /// An action key in normal or visual mode, with the count and register
    /// typed before it.
    #[verifier::rlimit(60)]
    pub fn normal_action(&mut self, ch: char, count: usize, register: Option<char>)
        requires
            old(self).wf(),
            old(self).pending == no_pending(),
        ensures
            final(self).wf(),
            final(self).requests == old(self).requests,
            final(self).pending == if ch == 'Z' {
                Pending { awaiting: Some(Await::G), ..no_pending() }
            } else {
                no_pending()
            },
            action_effect(*old(self), *final(self), ch, count, register),
    {
        match ch {
            'i' | 'a' | 'I' | 'A' => self.insert_action(ch),
            'o' => self.open_line(true),
            'O' => self.open_line(false),
            'x' => self.delete_chars(false, count, register),
            'X' => self.delete_chars(true, count, register),
            'D' | 'C' | 's' => self.delete_rest(ch, count, register),
            'S' => {
                let line = self.cursor.0;
                let last = self.buffer.line_count() - 1;
                let n = if count >= 1 { count } else { 1 };
                let to = if n - 1 <= last - line { line + (n - 1) } else { last };
                self.apply_operator(Operator::Change, Span::Lines { from: line, to });
            },
            'p' | 'P' => self.paste(register, ch == 'p', count),
            'u' => {
                match self.buffer.undo(self.cursor) {
                    Some(cursor) => {
                        self.cursor = cursor;
                        clamp(&mut self.cursor, &self.buffer, self.mode);
                    },
                    None => {
                        self.message = Some(message("Already at oldest change", false));
                        clamp(&mut self.cursor, &self.buffer, self.mode);
                    },
                }
            },
            'J' => self.join_action(count),
            '~' => self.flip_action(count),
            'v' => self.toggle_visual(Visual::Char),
            'V' => self.toggle_visual(Visual::Line),
            ':' | '/' | '?' => {
                self.cmdline_prefix = ch;
                self.cmdline = String::new();
                self.cmdline_cursor = 0;
                self.mode = Mode::Cmdline;
            },
            'n' => {
                let forward = self.last_search_forward;
                self.search_next(forward);
            },
            'N' => {
                let forward = !self.last_search_forward;
                self.search_next(forward);
            },
            'Z' => {
                self.pending.awaiting = Some(Await::G);
            },
            _ => {},
        }
    }

    /// A character key in normal or visual mode.
    pub fn normal_char(&mut self, ch: char, count: usize)
        requires
            old(self).wf(),
        ensures
            final(self).wf(),
            final(self).requests == old(self).requests,
            char_key_effect(*old(self), *final(self), ch, count),
    {
        if let Some(awaiting) = await_exec(ch) {
            self.pending.awaiting = Some(awaiting);
            return;
        }
        if let Some(operator) = operator_exec(ch) {
            self.normal_operator(operator, count);
            return;
        }
        let register = self.pending.register;
        self.pending = Pending::none();
        self.normal_action(ch, count, register);
    }
}


/// A digit typed as part of a count: not after ctrl, and `0` only once a
/// count has begun (alone it is a motion).
pub open spec fn count_digit(key: Key, p: Pending) -> Option<nat> {
    match key.code {
        Code::Char(ch) => if !key.ctrl && '0' <= ch <= '9' && !(ch == '0' && !(p.count is Some || p.operator_count is Some)) {
            Some((ch as u32 - '0' as u32) as nat)
        } else {
            None
        },
        _ => None,
    }
}

/// A count with one more digit, held to what a `usize` can say.
pub open spec fn with_digit(n: Option<usize>, d: nat) -> usize {
    let v = match n { Some(x) => x as int, None => 0 } * 10 + d;
    if v > usize::MAX { usize::MAX } else { v as usize }
}

fn add_digit(n: Option<usize>, d: usize) -> (r: usize)
    requires
        d < 10,
    ensures
        r == with_digit(n, d as nat),
{
    let base = match n { Some(x) => x, None => 0 };
    match base.checked_mul(10) {
        Some(t) => match t.checked_add(d) {
            Some(v) => v,
            None => usize::MAX,
        },
        None => usize::MAX,
    }
}

fn contains_text(text: &Vec<char>, pattern: &str) -> (r: bool)
    ensures
        r == (crate::text::find_seq(text@, pattern@, 0) >= 0),
{
    let p = chars_of(pattern);
    crate::text::find_in(text.as_slice(), p.as_slice(), 0).is_some()
}

/// `gg`: to the line the count names, else to the first line.
pub open spec fn gg_motion(p: Pending) -> Motion {
    let line = match p.count {
        Some(n) => Some(n),
        None => p.operator_count,
    };
    match line {
        Some(n) => Motion::GotoLine(if n > 0 { (n - 1) as usize } else { 0 }),
        None => Motion::FileStart,
    }
}

/// The lines after `r{ch}` with count `count` at `(l, c)`: the characters
/// under and after the cursor (as many as there are, up to `count`)
/// replaced by `count` copies of `ch`.
pub open spec fn replaced_lines(lines: Seq<Seq<char>>, l: int, c: int, ch: char, count: usize) -> Seq<Seq<char>> {
    let row = row_of(lines, l);
    let n = min_int(count as int, row.len() - c);
    let mid = deleted_in_line(lines, l, c, c + n);
    mid.update(l, inserted(mid[l], c, crate::editcore::operator::repeat_text(seq![ch], count as nat)))
}

/// Nothing but the pending command cleared.
pub open spec fn only_cleared(e0: Editor, e1: Editor) -> bool {
    &&& e1.pending == no_pending()
    &&& e1.buffer == e0.buffer
    &&& e1.cursor == e0.cursor
    &&& e1.mode == e0.mode
    &&& e1.requests == e0.requests
}

/// What the key after a waiting key does.
pub open spec fn await_effect(e0: Editor, e1: Editor, awaiting: Await, key: Key) -> bool {
    let lines = e0.buffer@.lines;
    let (l, c) = e0.cursor;
    match awaiting {
        Await::G => match key.code {
            Code::Char('f') => e1.requests@ == e0.requests@.push(Request::FollowLink) && e1.pending == no_pending()
                && e1 == (Editor { requests: e1.requests, pending: no_pending(), ..e0 }),
            Code::Char('d') => e1.requests@ == e0.requests@.push(Request::Definition) && e1.pending == no_pending()
                && e1 == (Editor { requests: e1.requests, pending: no_pending(), ..e0 }),
            Code::Char('g') => motion_effect(e0, e1, gg_motion(e0.pending)) && e1.pending == no_pending()
                && e1.requests == e0.requests,
            Code::Char('t') => {
                &&& e1.tabs@.current == (e0.tabs@.current + 1) % e0.tabs@.tabs.len() as int
                &&& e1.pending == no_pending()
                &&& e1.requests == e0.requests
                &&& crate::editcore::panes::switched(
                    e0,
                    Editor { pending: e0.pending, ..e1 },
                    crate::editcore::window::TabsModel { current: (e0.tabs@.current + 1) % e0.tabs@.tabs.len() as int, ..e0.tabs@ },
                    crate::editcore::panes::saved_views(e0),
                )
            },
            Code::Char('T') => {
                &&& e1.tabs@.current == (e0.tabs@.current + e0.tabs@.tabs.len() - 1) % e0.tabs@.tabs.len() as int
                &&& e1.pending == no_pending()
                &&& e1.requests == e0.requests
                &&& crate::editcore::panes::switched(
                    e0,
                    Editor { pending: e0.pending, ..e1 },
                    crate::editcore::window::TabsModel {
                        current: (e0.tabs@.current + e0.tabs@.tabs.len() - 1) % e0.tabs@.tabs.len() as int,
                        ..e0.tabs@
                    },
                    crate::editcore::panes::saved_views(e0),
                )
            },
            _ => only_cleared(e0, e1),
        },
        Await::Find { forward, till } => match key.spec_as_text() {
            Some(ch) => motion_effect(e0, e1, Motion::FindChar { ch, forward, till }) && e1.pending == no_pending()
                && e1.requests == e0.requests,
            None => only_cleared(e0, e1),
        },
        Await::Replace => {
            let count = crate::editcore::editor::total_count(e0.pending);
            &&& e1.pending == no_pending()
            &&& e1.mode == e0.mode
            &&& e1.requests == e0.requests
            &&& e1 == (Editor { buffer: e1.buffer, cursor: e1.cursor, desired_col: e1.desired_col, pending: no_pending(), ..e0 })
            &&& match key.spec_as_text() {
                Some(ch) if c < row_of(lines, l as int).len() => {
                    let after = replaced_lines(lines, l as int, c as int, ch, count);
                    let col: usize = if count >= 1 { sat(c + count - 1) } else if c > 0 { (c - 1) as usize } else { 0 };
                    &&& e1.buffer@ == one_change(e0.buffer@, e0.cursor, after)
                    &&& e1.cursor == clamped(after, (l, col), e0.mode)
                },
                _ => e1.buffer == e0.buffer && e1.cursor == e0.cursor,
            }
        },
        Await::Z => {
            &&& e1.pending == no_pending()
            &&& e1.buffer == e0.buffer
            &&& e1.cursor == e0.cursor
            &&& e1.requests == e0.requests
            &&& e1 == (Editor { top_line: e1.top_line, pending: no_pending(), ..e0 })
            &&& e1.top_line == match key.code {
                Code::Char('z') => if l >= e0.view_rows / 2 { (l - e0.view_rows / 2) as usize } else { 0 },
                Code::Char('t') => l,
                Code::Char('b') => if l >= e0.view_rows - 1 { (l - (e0.view_rows - 1)) as usize } else { 0 },
                _ => e0.top_line,
            }
        },
        Await::Leader => {
            &&& e1.pending == no_pending()
            &&& e1.buffer == e0.buffer
            &&& e1.cursor == e0.cursor
            &&& e1 == (Editor { requests: e1.requests, pending: no_pending(), ..e0 })
            &&& e1.requests@ == match key.code {
                Code::Char('o') | Code::Char('n') => e0.requests@.push(Request::OpenNavigation(Scope::Notes)),
                Code::Char('f') => e0.requests@.push(Request::OpenNavigation(Scope::Files)),
                Code::Char('p') => e0.requests@.push(Request::Preview),
                _ => e0.requests@,
            }
        },
        Await::Register => match key.spec_as_text() {
            Some(ch) => e1.pending == (Pending { register: Some(ch), ..e0.pending }) && e1.buffer == e0.buffer
                && e1.cursor == e0.cursor && e1.requests == e0.requests
                && e1 == (Editor { pending: e1.pending, ..e0 }),
            None => only_cleared(e0, e1),
        },
        Await::Window => {
            &&& e1.pending == no_pending()
            &&& e1.requests == e0.requests
            &&& match key.code {
                Code::Char(ch) => window_command_effect(e0.tabs@, e1.tabs@, ch, e0.options.splitbelow, e0.options.splitright)
                    && window_key_effect(e0, e1, ch),
                _ => e1 == (Editor { pending: no_pending(), ..e0 }),
            }
        },
        Await::Bracket { forward } => {
            &&& e1.pending == no_pending()
            &&& e1.buffer == e0.buffer
            &&& e1.requests == e0.requests
            &&& e1 == (Editor { cursor: e1.cursor, desired_col: e1.desired_col, message: e1.message, top_line: e1.top_line, pending: no_pending(), ..e0 })
            &&& (key.code != Code::Char('c') || e0.vcs.hunks@.len() > 0) ==> e1.message == e0.message
            &&& e1.top_line == if key.code == Code::Char('c') && e0.vcs.hunks@.len() > 0 {
                crate::editcore::editor::scrolled(e0.top_line, e1.cursor.0, e0.view_rows, lines.len() as int)
            } else {
                e0.top_line
            }
            &&& key.code != Code::Char('c') ==> e1.desired_col == e0.desired_col
            &&& if key.code == Code::Char('c') {
                if e0.vcs.hunks@.len() == 0 {
                    &&& e1.cursor == e0.cursor
                    &&& e1.message matches Some(m) && m.error && m.text@ == "E787: No git hunk"@
                } else {
                    let x = crate::editcore::vcs::hunk_line(e0.vcs.hunks@, l, forward);
                    &&& e1.cursor == (if x < lines.len() - 1 { x } else { (lines.len() - 1) as usize }, 0usize)
                    &&& e1.desired_col == 0
                }
            } else {
                e1.cursor == e0.cursor
            }
        },
    }
}

/// What a key does by the mode it arrives in.
pub open spec fn dispatch_effect(e0: Editor, e1: Editor, key: Key) -> bool {
    match e0.mode {
        Mode::Insert => insert_key_effect(e0, e1, key),
        Mode::Cmdline => cmdline_key_effect(e0, e1, key),
        _ => normal_key_effect(e0, e1, key),
    }
}

/// Whether `text` holds `pattern`.
pub open spec fn has_text(text: Seq<char>, pattern: Seq<char>) -> bool {
    crate::text::find_seq(text, pattern, 0) >= 0
}

/// What a mapped `lua` call does: the `substitute` plugin's line, to end of
/// line, selection and operator forms act as the substitute operator; the
/// diagnostic float is asked of the host; any other call is refused with a
/// message naming it.
pub open spec fn lua_effect(e0: Editor, e1: Editor, call: Seq<char>) -> bool {
    let (l, c) = e0.cursor;
    let lines = e0.buffer@.lines;
    if !has_text(call, "substitute"@) {
        &&& e1.buffer == e0.buffer
        &&& e1.cursor == e0.cursor
        &&& if has_text(call, "vim.diagnostic.open_float"@) {
            e1.requests@ == e0.requests@.push(Request::DiagnosticFloat)
        } else {
            &&& e1.requests == e0.requests
            &&& e1.message matches Some(m) && m.error && m.text@ == call + ": no Lua runtime in the editing path"@
        }
    } else if has_text(call, ".line()"@) {
        operator_effect(e0, e1, Operator::Substitute, Span::Lines { from: l, to: l })
    } else if has_text(call, ".eol()"@) {
        operator_effect(
            e0,
            e1,
            Operator::Substitute,
            Span::Chars { start: (l, c), end: (l, row_of(lines, l as int).len() as usize) },
        )
    } else if has_text(call, ".visual()"@) {
        if e0.mode is Visual {
            let span = visual_span_of(lines, e0.mode, e0.visual_anchor, e0.cursor, e0.mode->Visual_0);
            &&& e1.buffer@ == operated_buffer(e0, Operator::Substitute, span)
            &&& e1.mode == Mode::Normal
            &&& e1.cursor == operated_cursor(e0, Operator::Substitute, span, e0.mode)
            &&& operated_registers(e0, e1, Operator::Substitute, span)
        } else {
            e1 == e0
        }
    } else if has_text(call, ".operator()"@) {
        &&& e1.pending == (Pending { operator: Some(Operator::Substitute), ..e0.pending })
        &&& e1.buffer == e0.buffer
        &&& e1.cursor == e0.cursor
    } else {
        e1 == e0
    }
}

/// `:` gave no command by that name: nothing was asked of the host and the
/// message is the `E492` error.
pub open spec fn unhandled_by(e0: Editor, mid: Editor) -> bool {
    &&& mid.requests@.len() == e0.requests@.len()
    &&& mid.message matches Some(m) && m.error && m.text@.len() >= 4 && crate::text::occurs_at(m.text@, "E492"@, 0)
}

/// `request` was pushed onto what the host is asked.
pub open spec fn asked(e0: Editor, e1: Editor, request: Request) -> bool {
    e1.requests@ == e0.requests@.push(request) && e1.buffer == e0.buffer && e1.cursor == e0.cursor
}

/// What a mapped command does, trimmed: `lua ...` runs the call; the file
/// finders and buffer lists ask the host for the navigation surface, the
/// file browser for a file tree; anything else runs as a `:` line, and one
/// the `:` line does not know is reported as mapped but unknown here.
pub open spec fn command_effect(e0: Editor, e1: Editor, command: Seq<char>) -> bool {
    let t = crate::text::trim_ws(command);
    let browser = "Telescope file_browser"@;
    if t.len() >= 4 && crate::text::occurs_at(t, "lua "@, 0) {
        lua_effect(e0, e1, crate::text::trim_ws(t.skip(4)))
    } else if t == "Telescope find_files"@ || t == "FzfLua files"@ || t == "Telescope git_files"@ {
        asked(e0, e1, Request::OpenNavigation(Scope::Files))
    } else if t.len() >= browser.len() && crate::text::occurs_at(t, browser, 0) {
        &&& e1.requests@.len() == e0.requests@.len() + 1
        &&& e1.requests@.drop_last() == e0.requests@
        &&& e1.requests@.last() matches Request::FileTree(x) && x@ == t
        &&& e1.buffer == e0.buffer
        &&& e1.cursor == e0.cursor
    } else if t == "Telescope buffers"@ || t == "Telescope oldfiles"@ {
        asked(e0, e1, Request::OpenNavigation(Scope::Notes))
    } else {
        exists|mid: Editor|
            #[trigger] crate::editcore::command::execute_effect(e0, mid, t) && e1 == (Editor {
                message: if unhandled_by(e0, mid) { e1.message } else { mid.message },
                ..mid
            }) && (unhandled_by(e0, mid) ==> (e1.message matches Some(m) && m.error && m.text@ == t
                + ": mapped, but this host has no such command"@))
    }
}

/// The direction `hjkl` names.
pub open spec fn dir_of(ch: char) -> Direction {
    if ch == 'h' {
        Direction::Left
    } else if ch == 'j' {
        Direction::Down
    } else if ch == 'k' {
        Direction::Up
    } else {
        Direction::Right
    }
}

/// What `<C-w>` then `ch` does to the editor from the state `es` it saved
/// first: the focus moves, a split, close or `only` reshapes the tab, and
/// the window focused then is taken up (`switched`); a close of the tab's
/// last window, a split without room, or another key leaves the saved
/// state.
pub open spec fn window_step(es: Editor, eb: Editor, ch: char) -> bool {
    let t0 = es.tabs@;
    let sv = crate::editcore::panes::saved_views(es);
    let room = t0.next_window < u64::MAX && t0.next_grid < u64::MAX;
    if ch == 'h' || ch == 'j' || ch == 'k' || ch == 'l' || ch == 'w' {
        crate::editcore::panes::switched(es, eb, eb.tabs@, sv)
    } else if ch == 's' || ch == 'S' || ch == 'v' {
        if room {
            crate::editcore::panes::switched(es, eb, eb.tabs@, sv.push(crate::editcore::panes::split_view(es)))
        } else {
            crate::editcore::panes::saved(es, eb)
        }
    } else if ch == 'c' || ch == 'q' {
        if crate::editcore::window::leaves(t0.layout()).len() > 1 {
            crate::editcore::panes::switched(
                es,
                eb,
                crate::editcore::panes::closed_tabs(t0),
                crate::editcore::panes::without_view(sv, t0.focus()),
            )
        } else {
            crate::editcore::panes::saved(es, eb)
        }
    } else if ch == 'o' {
        crate::editcore::panes::switched(es, eb, eb.tabs@, crate::editcore::panes::views_of(sv, t0.focus()))
    } else {
        eb == es
    }
}

/// `<C-w>` then `ch`: the focused window's state saved, the window step
/// taken, the pending keys cleared.
pub open spec fn window_key_effect(e0: Editor, e1: Editor, ch: char) -> bool {
    exists|es: Editor|
        #[trigger] passed(es) && crate::editcore::panes::saved(e0, es)
            && window_step(es, Editor { pending: es.pending, ..e1 }, ch) && e1.pending == no_pending()
}

/// What `<C-w>{ch}` does to the windows: `hjkl` move the focus that way,
/// `s` and `v` split (when a window can still be made), `c` and `q` close
/// the focused window unless it is the last, `o` keeps only it, `w` moves
/// the focus on; anything else leaves them.
pub open spec fn window_command_effect(
    t0: crate::editcore::window::TabsModel,
    t1: crate::editcore::window::TabsModel,
    ch: char,
    splitbelow: bool,
    splitright: bool,
) -> bool {
    let room = t0.next_window < u64::MAX && t0.next_grid < u64::MAX;
    if ch == 'h' || ch == 'j' || ch == 'k' || ch == 'l' {
        exists|r: Option<crate::editcore::window::WindowId>| #[trigger] crate::editcore::window::focus_moved(
            t0,
            dir_of(ch),
            t0.last_area,
            t0.last_splitbelow,
            t0.last_splitright,
            r,
            t1,
        )
    } else if ch == 's' || ch == 'S' {
        if room { t1 == t0.after_split(crate::editcore::window::Axis::Vertical, splitbelow) } else { t1 == t0 }
    } else if ch == 'v' {
        if room { t1 == t0.after_split(crate::editcore::window::Axis::Horizontal, splitright) } else { t1 == t0 }
    } else if ch == 'o' {
        t1 == t0.with_current(crate::editcore::window::LayoutModel::Leaf(t0.focus()), t0.focus())
    } else if ch == 'w' {
        let ls = crate::editcore::window::leaves(t0.layout());
        let at = crate::editcore::window::position_from(ls, t0.focus(), 0);
        let at = if at < 0 { 0 } else { at };
        t1 == t0.with_focus(ls[(at + 1) % ls.len() as int])
    } else if ch == 'c' || ch == 'q' {
        t1 == crate::editcore::panes::closed_tabs(t0)
    } else {
        t1 == t0
    }
}

impl Editor {
    pub fn max_top_line(&self) -> (t: usize)
        requires
            self.wf(),
        ensures
            t == self.buffer@.lines.len() - 1,
    {
        self.buffer.line_count() - 1
    }

    fn resolve_g(&mut self, key: Key)
        requires
            old(self).wf(),
        ensures
            final(self).wf(),
            await_effect(*old(self), *final(self), Await::G, key),
    {
        match key.code {
            Code::Char('f') => {
                self.pending = Pending::none();
                self.requests.push(Request::FollowLink);
            },
            Code::Char('d') => {
                self.pending = Pending::none();
                self.requests.push(Request::Definition);
            },
            Code::Char('g') => {
                let line = match self.pending.count {
                    Some(n) => Some(n),
                    None => self.pending.operator_count,
                };
                let motion = match line {
                    Some(n) => Motion::GotoLine(if n > 0 { n - 1 } else { 0 }),
                    None => Motion::FileStart,
                };
                self.consume_motion(motion);
            },
            Code::Char('t') => {
                self.next_tab();
                self.pending = Pending::none();
            },
            Code::Char('T') => {
                self.prev_tab();
                self.pending = Pending::none();
            },
            _ => {
                self.pending = Pending::none();
            },
        }
    }

    fn resolve_replace(&mut self, key: Key)
        requires
            old(self).wf(),
        ensures
            final(self).wf(),
            await_effect(*old(self), *final(self), Await::Replace, key),
    {
        let count = self.pending.total_count();
        if let Some(ch) = key.as_text() {
            let (line, col) = self.cursor;
            let len = self.buffer.line_len(line);
            if col < len {
                self.buffer.begin_change(self.cursor);
                let ghost lines = old(self).buffer@.lines;
                let ghost opened = self.buffer@;
                let n = if count <= len - col { count } else { len - col };
                self.buffer.delete_range_in_line(line, col, col + n);
                let ghost mid = deleted_in_line(lines, line as int, col as int, col + n);
                proof {
                    assert(opened.with_lines(opened.lines) == opened);
                    assert(self.buffer@ == opened.with_lines(mid));
                }
                let one = vec![ch];
                assert(one@ =~= seq![ch]);
                let text = crate::editcore::operator::repeat_chars_pub(one.as_slice(), count);
                let s = string_of(text.as_slice());
                self.buffer.insert_str(line, col, s.as_str());
                proof {
                    let after = replaced_lines(lines, line as int, col as int, ch, count);
                    assert(self.buffer@ == opened.with_lines(after));
                }
                self.buffer.commit_change();
                self.cursor.1 = if count >= 1 {
                    if col <= usize::MAX - (count - 1) { col + (count - 1) } else { usize::MAX }
                } else if col > 0 {
                    col - 1
                } else {
                    0
                };
                clamp(&mut self.cursor, &self.buffer, self.mode);
            }
        }
        self.pending = Pending::none();
    }

    fn resolve_z(&mut self, key: Key)
        requires
            old(self).wf(),
        ensures
            final(self).wf(),
            await_effect(*old(self), *final(self), Await::Z, key),
    {
        let rows = self.view_rows;
        match key.code {
            Code::Char('z') => {
                let half = rows / 2;
                self.top_line = if self.cursor.0 >= half { self.cursor.0 - half } else { 0 };
            },
            Code::Char('t') => {
                self.top_line = self.cursor.0;
            },
            Code::Char('b') => {
                let below = rows - 1;
                self.top_line = if self.cursor.0 >= below { self.cursor.0 - below } else { 0 };
            },
            _ => {},
        }
        self.pending = Pending::none();
    }

    fn resolve_bracket(&mut self, forward: bool, key: Key)
        requires
            old(self).wf(),
        ensures
            final(self).wf(),
            await_effect(*old(self), *final(self), Await::Bracket { forward }, key),
    {
        let ghost mut witness: usize = 0;
        if let Code::Char('c') = key.code {
            match self.vcs.next_hunk(self.cursor.0, forward) {
                Some(line) => {
                    proof {
                        witness = line;
                    }
                    let last = self.buffer.line_count() - 1;
                    self.cursor = (if line < last { line } else { last }, 0);
                    self.desired_col = 0;
                    self.scroll_into_view();
                },
                None => {
                    self.message = Some(message("E787: No git hunk", true));
                },
            }
        }
        self.pending = Pending::none();
        proof {
            if key.code == Code::Char('c') && old(self).vcs.hunks@.len() > 0 {
                crate::editcore::vcs::lemma_hunk_line(old(self).vcs.hunks@, old(self).cursor.0, forward, witness);
            }
        }
    }

    /// The key after a key that waits for one.
    #[verifier::rlimit(40)]
    pub fn resolve_await(&mut self, awaiting: Await, key: Key)
        requires
            old(self).wf(),
        ensures
            final(self).wf(),
            await_effect(*old(self), *final(self), awaiting, key),
    {
        match awaiting {
            Await::G => self.resolve_g(key),
            Await::Find { forward, till } => match key.as_text() {
                Some(ch) => self.consume_motion(Motion::FindChar { ch, forward, till }),
                None => {
                    self.pending = Pending::none();
                },
            },
            Await::Replace => self.resolve_replace(key),
            Await::Z => self.resolve_z(key),
            Await::Leader => {
                match key.code {
                    Code::Char('o') | Code::Char('n') => {
                        self.requests.push(Request::OpenNavigation(Scope::Notes));
                    },
                    Code::Char('f') => {
                        self.requests.push(Request::OpenNavigation(Scope::Files));
                    },
                    Code::Char('p') => {
                        self.requests.push(Request::Preview);
                    },
                    _ => {},
                }
                self.pending = Pending::none();
            },
            Await::Register => {
                match key.as_text() {
                    Some(ch) => {
                        self.pending.register = Some(ch);
                    },
                    None => {
                        self.pending = Pending::none();
                    },
                }
            },
            Await::Window => match key.code {
                Code::Char(ch) => self.window_command(ch),
                _ => {
                    self.pending = Pending::none();
                },
            },
            Await::Bracket { forward } => self.resolve_bracket(forward, key),
        }
    }

    /// `<C-w>` followed by `ch`.
    pub fn window_command(&mut self, ch: char)
        requires
            old(self).wf(),
        ensures
            final(self).wf(),
            final(self).pending == no_pending(),
            final(self).requests == old(self).requests,
            window_command_effect(old(self).tabs@, final(self).tabs@, ch, old(self).options.splitbelow, old(self).options.splitright),
            window_key_effect(*old(self), *final(self), ch),
    {
        self.save_focused_view();
        let ghost es = *self;
        assert(passed(es));
        match ch {
            'h' | 'j' | 'k' | 'l' => {
                if let Some(dir) = Direction::from_vim(ch) {
                    self.focus_window_dir(dir);
                }
            },
            's' | 'S' => self.split_window(false),
            'v' => self.split_window(true),
            'c' | 'q' => {
                self.close_window();
            },
            'o' => self.only_window(),
            'w' => self.cycle_window_focus(),
            _ => {},
        }
        self.pending = Pending::none();
    }

    /// A control key in normal or visual mode.
    pub fn ctrl_key(&mut self, ch: char)
        requires
            old(self).wf(),
        ensures
            final(self).wf(),
            ctrl_effect(*old(self), *final(self), ch),
    {
        self.pending = Pending::none();
        let rows = self.view_rows;
        let half = if rows / 2 >= 1 { rows / 2 } else { 1 };
        let page = if rows >= 3 { rows - 2 } else { 1 };
        let page_scroll = if rows >= 2 { rows - 2 } else { 0 };
        let max_top = self.max_top_line();
        match ch {
            'd' => {
                self.move_by(Motion::Down, half);
                let t = if self.top_line <= usize::MAX - half { self.top_line + half } else { usize::MAX };
                self.top_line = if t < max_top { t } else { max_top };
            },
            'u' => {
                self.move_by(Motion::Up, half);
                self.top_line = if self.top_line >= half { self.top_line - half } else { 0 };
            },
            'f' => {
                self.move_by(Motion::Down, page);
                let t = if self.top_line <= usize::MAX - page_scroll { self.top_line + page_scroll } else { usize::MAX };
                self.top_line = if t < max_top { t } else { max_top };
            },
            'b' => {
                self.move_by(Motion::Up, page);
                self.top_line = if self.top_line >= page_scroll { self.top_line - page_scroll } else { 0 };
            },
            'r' => {
                match self.buffer.redo(self.cursor) {
                    Some(cursor) => {
                        self.cursor = cursor;
                        clamp(&mut self.cursor, &self.buffer, self.mode);
                    },
                    None => {
                        self.message = Some(message("Already at newest change", false));
                        clamp(&mut self.cursor, &self.buffer, self.mode);
                    },
                }
            },
            'e' => {
                let t = if self.top_line < usize::MAX { self.top_line + 1 } else { usize::MAX };
                self.top_line = if t < max_top { t } else { max_top };
            },
            'y' => {
                self.top_line = if self.top_line >= 1 { self.top_line - 1 } else { 0 };
            },
            'w' => {
                self.pending.awaiting = Some(Await::Window);
            },
            _ => {},
        }
    }

    /// A key in normal or visual mode: the second half of a two-key
    /// command, a count digit, a motion, or a command.
    pub fn feed_normal(&mut self, key: Key)
        requires
            old(self).wf(),
        ensures
            final(self).wf(),
            normal_key_effect(*old(self), *final(self), key),
    {
        if let Some(awaiting) = self.pending.awaiting {
            self.pending.awaiting = None;
            self.resolve_await(awaiting, key);
            return;
        }
        if let Code::Char(ch) = key.code {
            if !key.ctrl && '0' <= ch && ch <= '9' && !(ch == '0' && !self.pending.has_count()) {
                let digit = (ch as u32 - '0' as u32) as usize;
                if self.pending.operator.is_some() {
                    self.pending.operator_count = Some(add_digit(self.pending.operator_count, digit));
                } else {
                    self.pending.count = Some(add_digit(self.pending.count, digit));
                }
                return;
            }
        }
        if let Some(motion) = self.simple_motion(key) {
            self.consume_motion(motion);
            return;
        }
        let count = self.pending.total_count();
        match key.code {
            Code::Named(Named::Esc) => {
                self.pending = Pending::none();
                self.mode = Mode::Normal;
                clamp(&mut self.cursor, &self.buffer, self.mode);
            },
            Code::Named(Named::Enter) => {
                self.pending = Pending::none();
                self.move_by(Motion::Down, count);
                self.cursor.1 = 0;
            },
            Code::Char(ch) => {
                if key.ctrl {
                    self.ctrl_key(ch);
                } else {
                    self.normal_char(ch, count);
                }
            },
            _ => {
                self.pending = Pending::none();
            },
        }
    }

    /// A key by the mode it arrives in.
    pub fn dispatch(&mut self, key: Key)
        requires
            old(self).wf(),
        ensures
            final(self).wf(),
            dispatch_effect(*old(self), *final(self), key),
    {
        match self.mode {
            Mode::Insert => self.feed_insert(key),
            Mode::Cmdline => self.feed_cmdline(key),
            _ => self.feed_normal(key),
        }
    }

    /// The `lua require("substitute")` family the owner maps onto `s`, `ss`
    /// and `S`, and the diagnostic float; any other Lua call says it cannot
    /// run here.
    pub fn run_lua_command(&mut self, call: &str)
        requires
            old(self).wf(),
        ensures
            final(self).wf(),
            lua_effect(*old(self), *final(self), call@),
    {
        let text = chars_of(call);
        if !contains_text(&text, "substitute") {
            if contains_text(&text, "vim.diagnostic.open_float") {
                self.requests.push(Request::DiagnosticFloat);
                return;
            }
            let t = crate::text::concat(call, ": no Lua runtime in the editing path");
            self.message = Some(Message { text: t, error: true });
            return;
        }
        let (line, col) = self.cursor;
        if contains_text(&text, ".line()") {
            self.apply_operator(Operator::Substitute, Span::Lines { from: line, to: line });
        } else if contains_text(&text, ".eol()") {
            let end = (line, self.buffer.line_len(line));
            self.apply_operator(Operator::Substitute, Span::Chars { start: (line, col), end });
        } else if contains_text(&text, ".visual()") {
            if let Some(kind) = self.visual_kind() {
                let span = self.visual_span(kind);
                self.apply_operator(Operator::Substitute, span);
                self.mode = Mode::Normal;
            }
        } else if contains_text(&text, ".operator()") {
            self.pending.operator = Some(Operator::Substitute);
        }
    }

    /// Carries out a mapped command, or says plainly that it cannot be.
    #[verifier::spinoff_prover]
    #[verifier::rlimit(60)]
    pub fn run_command(&mut self, command: &str)
        requires
            old(self).wf(),
        ensures
            final(self).wf(),
            command_effect(*old(self), *final(self), command@),
    {
        let chars = chars_of(command);
        let (a, b) = crate::text::trim_range(chars.as_slice(), 0, chars.len());
        proof {
            assert(chars@.subrange(0, chars@.len() as int) =~= command@);
        }
        let mut trimmed_chars: Vec<char> = Vec::new();
        let mut i = a;
        while i < b
            invariant
                a <= i <= b <= chars@.len(),
                trimmed_chars@ == chars@.subrange(a as int, i as int),
            decreases b - i,
        {
            trimmed_chars.push(chars[i]);
            i = i + 1;
            assert(trimmed_chars@ =~= chars@.subrange(a as int, i as int));
        }
        let ghost t = trimmed_chars@;
        assert(t == crate::text::trim_ws(command@));
        let trimmed = string_of(trimmed_chars.as_slice());
        let command = trimmed.as_str();
        let lua = chars_of("lua ");
        if trimmed_chars.len() >= 4 && crate::text::occurs(trimmed_chars.as_slice(), lua.as_slice(), 0) {
            let (ca, cb) = crate::text::trim_range(trimmed_chars.as_slice(), 4, trimmed_chars.len());
            proof {
                assert(t.subrange(4, t.len() as int) =~= t.skip(4));
            }
            let mut call: Vec<char> = Vec::new();
            let mut j = ca;
            while j < cb
                invariant
                    ca <= j <= cb <= trimmed_chars@.len(),
                    call@ == trimmed_chars@.subrange(ca as int, j as int),
                decreases cb - j,
            {
                call.push(trimmed_chars[j]);
                j = j + 1;
                assert(call@ =~= trimmed_chars@.subrange(ca as int, j as int));
            }
            let call = string_of(call.as_slice());
            self.run_lua_command(call.as_str());
            return;
        }
        let browser = chars_of("Telescope file_browser");
        if crate::text::same_text(command, "Telescope find_files") || crate::text::same_text(command, "FzfLua files")
            || crate::text::same_text(command, "Telescope git_files") {
            self.requests.push(Request::OpenNavigation(Scope::Files));
        } else if trimmed_chars.len() >= browser.len() && crate::text::occurs(trimmed_chars.as_slice(), browser.as_slice(), 0) {
            let ghost r0 = self.requests@;
            self.requests.push(Request::FileTree(command.to_string()));
            assert(self.requests@.drop_last() =~= r0);
        } else if crate::text::same_text(command, "Telescope buffers") || crate::text::same_text(
            command,
            "Telescope oldfiles",
        ) {
            self.requests.push(Request::OpenNavigation(Scope::Notes));
        } else {
            let before = self.requests.len();
            crate::editcore::command::execute(self, command);
            let ghost mid = *self;
            let unhandled = self.requests.len() == before && match &self.message {
                Some(m) => m.error && {
                    let t = chars_of(m.text.as_str());
                    let e = chars_of("E492");
                    t.len() >= 4 && crate::text::occurs(t.as_slice(), e.as_slice(), 0)
                },
                None => false,
            };
            assert(unhandled == unhandled_by(*old(self), mid));
            if unhandled {
                let t = crate::text::concat(command, ": mapped, but this host has no such command");
                self.message = Some(Message { text: t, error: true });
            }
            proof {
                assert(crate::editcore::command::execute_effect(*old(self), mid, t)
                    && *self == (Editor { message: if unhandled_by(*old(self), mid) { self.message } else { mid.message }, ..mid }));
                assert(exists|m: Editor|
                    #[trigger] crate::editcore::command::execute_effect(*old(self), m, t) && *self == (Editor {
                        message: if unhandled_by(*old(self), m) { self.message } else { m.message },
                        ..m
                    }) && (unhandled_by(*old(self), m) ==> (self.message matches Some(x) && x.error && x.text@ == t
                        + ": mapped, but this host has no such command"@)));
            }
        }
    }
}


/// A key that is not looked up in the mappings: an argument after a key
/// that waits for one, a key on the `:` line, or one too deep in mappings.
pub open spec fn taken_as_is(e: Editor, depth: usize) -> bool {
    e.pending.awaiting is Some || depth > 16 || e.mode == Mode::Cmdline
}

/// The mode letter mappings are looked up under.
pub open spec fn mode_char(m: Mode) -> char {
    match m {
        Mode::Normal => 'n',
        Mode::Insert => 'i',
        Mode::Visual(_) => 'v',
        Mode::Cmdline => 'c',
    }
}

/// Some mapping of `mode` goes on past `keys`.
pub open spec fn maps_beyond(km: Seq<(char, Seq<Key>, RhsModel)>, mode: char, keys: Seq<Key>) -> bool {
    exists|a: int| 0 <= a < km.len() && (#[trigger] km[a]).0 == mode && crate::keymap::extends(km[a].1, keys)
}

/// Entry `a` of the keymap binds exactly `keys` in mode `m`.
pub open spec fn bound_at(km: Seq<(char, Seq<Key>, RhsModel)>, m: char, keys: Seq<Key>, a: int) -> bool {
    0 <= a < km.len() && km[a].0 == m && km[a].1 == keys
}

/// The keys are a whole left-hand side that no longer one goes on from:
/// a mapping that fires now.
pub open spec fn exactly_bound(km: Seq<(char, Seq<Key>, RhsModel)>, m: char, keys: Seq<Key>) -> bool {
    !maps_beyond(km, m, keys) && exists|a: int| #[trigger] bound_at(km, m, keys, a)
}

/// The longest first `s` keys (at most `s`) that fire a mapping, 0 if none.
pub open spec fn fired_len(km: Seq<(char, Seq<Key>, RhsModel)>, m: char, keys: Seq<Key>, s: int) -> int
    decreases s,
{
    if s <= 0 {
        0
    } else if exactly_bound(km, m, keys.take(s)) {
        s
    } else {
        fired_len(km, m, keys, s - 1)
    }
}

/// A state that keys pass through on their way; it names intermediate
/// states so that statements about them can be instantiated.
pub open spec fn passed(e: Editor) -> bool {
    true
}

/// `e1` is `e0` with no keys waiting for a mapping.
pub open spec fn cleared(e0: Editor, e1: Editor) -> bool {
    e1.pending_keys@.len() == 0 && e1 == (Editor { pending_keys: e1.pending_keys, ..e0 })
}

/// One level deeper in mappings, without passing the largest depth.
pub open spec fn deeper(depth: usize) -> usize {
    if depth < usize::MAX { (depth + 1) as usize } else { depth }
}

/// What one key does once mappings are resolved, with `fuel` bounding how
/// deeply they expand: a key taken as it is acts at once; keys that begin
/// a longer mapping wait; keys that are a whole mapping run it; keys that
/// are neither fire the longest mapping they begin with (or act on the
/// first of them when there is none) and the rest are fed again.
pub open spec fn mapped_effect(e0: Editor, e1: Editor, key: Key, depth: usize, fuel: nat) -> bool
    decreases fuel, 0int, 0int,
{
    if fuel == 0 {
        e1 == e0
    } else if taken_as_is(e0, depth) {
        dispatch_effect(e0, e1, key)
    } else {
        let km = e0.keymap@;
        let m = mode_char(e0.mode);
        let keys = e0.pending_keys@.push(key);
        if maps_beyond(km, m, keys) {
            e1.pending_keys@ == keys && e1 == (Editor { pending_keys: e1.pending_keys, ..e0 })
        } else if exists|a: int| #[trigger] bound_at(km, m, keys, a) {
            exists|ea: Editor, a: int|
                #![trigger cleared(e0, ea), bound_at(km, m, keys, a)]
                cleared(e0, ea) && bound_at(km, m, keys, a) && run_effect(ea, e1, km[a].2, depth, (fuel - 1) as nat)
        } else {
            let s = fired_len(km, m, keys, keys.len() as int);
            let rest = keys.skip(if s > 1 { s } else { 1 });
            exists|ea: Editor, eb: Editor|
                #![trigger cleared(e0, ea), passed(eb)]
                cleared(e0, ea) && seq_effect(eb, e1, rest, depth, (fuel - 1) as nat) && if s > 0 {
                    exists|a: int| #[trigger] bound_at(km, m, keys.take(s), a)
                        && run_effect(ea, eb, km[a].2, depth, (fuel - 1) as nat)
                } else {
                    dispatch_effect(ea, eb, keys[0])
                }
        }
    }
}

/// What a mapping's right-hand side does: nothing, its command, or its
/// keys fed one level deeper.
pub open spec fn run_effect(e0: Editor, e1: Editor, rhs: RhsModel, depth: usize, fuel: nat) -> bool
    decreases fuel, 2int, 0int,
{
    match rhs {
        RhsModel::Nothing => e1 == e0,
        RhsModel::Command(c) => command_effect(e0, e1, c),
        RhsModel::Keys(ks) => seq_effect(e0, e1, ks, deeper(depth), fuel),
    }
}

/// Keys fed one after another, each as `mapped_effect` says.
pub open spec fn seq_effect(e0: Editor, e1: Editor, ks: Seq<Key>, depth: usize, fuel: nat) -> bool
    decreases fuel, 1int, ks.len(),
{
    if ks.len() == 0 {
        e1 == e0
    } else {
        exists|mid: Editor| #[trigger] passed(mid) && seq_effect(e0, mid, ks.drop_last(), depth, fuel)
            && mapped_effect(mid, e1, ks.last(), depth, fuel)
    }
}

/// `e1` is `e0` scrolled to show its cursor, with the focused window
/// remembering its place and the edited buffer stored back.
pub open spec fn shown(e0: Editor, e1: Editor) -> bool {
    let top = crate::editcore::editor::scrolled(e0.top_line, e0.cursor.0, e0.view_rows, e0.buffer@.lines.len() as int);
    &&& e1.top_line == top
    &&& e1.views@ == crate::editcore::panes::saved_views(Editor { top_line: top, ..e0 })
    &&& e1.buffers@ == crate::editcore::panes::stored(e0.buffers@, e0.buffer@)
    &&& e1 == (Editor { top_line: e1.top_line, views: e1.views, buffers: e1.buffers, ..e0 })
}

/// What a key from the owner does: nothing while the host owns input;
/// otherwise its mapped effect, then the cursor brought into view.
pub open spec fn fed(e0: Editor, e1: Editor, key: Key) -> bool {
    if e0.suspended {
        e1 == e0
    } else {
        exists|mid: Editor| #[trigger] passed(mid) && mapped_effect(e0, mid, key, 0, EXPANSION_LIMIT as nat) && shown(mid, e1)
    }
}

/// Keys from the owner, fed one after another.
pub open spec fn fed_all(e0: Editor, e1: Editor, ks: Seq<Key>) -> bool
    decreases ks.len(),
{
    if ks.len() == 0 {
        e1 == e0
    } else {
        exists|mid: Editor| #[trigger] passed(mid) && fed_all(e0, mid, ks.drop_last()) && fed(mid, e1, ks.last())
    }
}

impl Editor {
    /// Resolves `key` against the owner's mappings, then acts. A key that is
    /// an argument (after `f` or `"`), a key on the `:` line, and a key
    /// reached through more than sixteen nested mappings are taken as they
    /// are. Keys that are only the start of a mapping wait; when the next key
    /// shows they are not one, the longest mapping they begin with fires and
    /// the rest are replayed. `fuel` bounds how deeply mappings expand.
    pub fn feed_mapped(&mut self, key: Key, depth: usize, fuel: usize)
        requires
            old(self).wf(),
        ensures
            final(self).wf(),
            mapped_effect(*old(self), *final(self), key, depth, fuel as nat),
            fuel == 0 ==> *final(self) == *old(self),
            fuel > 0 && taken_as_is(*old(self), depth) ==> dispatch_effect(*old(self), *final(self), key),
            fuel > 0 && !taken_as_is(*old(self), depth) && maps_beyond(
                old(self).keymap@,
                mode_char(old(self).mode),
                old(self).pending_keys@.push(key),
            ) ==> {
                &&& final(self).pending_keys@ == old(self).pending_keys@.push(key)
                &&& *final(self) == (Editor { pending_keys: final(self).pending_keys, ..*old(self) })
            },
        decreases fuel, 0int,
    {
        let ghost e0 = *self;
        if fuel == 0 {
            return;
        }
        if self.pending.awaiting.is_some() || depth > 16 || self.mode == Mode::Cmdline {
            self.dispatch(key);
            return;
        }
        let ghost km = e0.keymap@;
        let ghost all = e0.pending_keys@.push(key);
        let mode = self.keymap_mode();
        self.pending_keys.push(key);
        let ghost mut a: int = 0;
        let found = match self.keymap.lookup(mode, self.pending_keys.as_slice()) {
            Match::Prefix => {
                assert(maps_beyond(km, mode, all));
                None
            },
            Match::Exact(rhs) => {
                proof {
                    a = choose|a: int| 0 <= a < self.keymap@.len() && (#[trigger] self.keymap@[a]).0 == mode
                        && self.keymap@[a].1 == self.pending_keys@ && self.keymap@[a].2 == rhs_model(*rhs);
                }
                Some(Some(copy_rhs(rhs)))
            },
            Match::NoMatch => Some(None),
        };
        match found {
            None => {
                assert(self.pending_keys@ == all);
                assert(maps_beyond(km, mode, all));
                assert(!taken_as_is(e0, depth) && mode_char(e0.mode) == mode);
                assert(*self == (Editor { pending_keys: self.pending_keys, ..e0 }));
            },
            Some(Some(rhs)) => {
                assert(km[a].2 == rhs_model(rhs));
                self.pending_keys = Vec::new();
                let ghost ea = *self;
                assert(cleared(e0, ea));
                self.run(&rhs, depth, fuel - 1);
                proof {
                    assert(bound_at(km, mode, all, a));
                    assert(!maps_beyond(km, mode, all));
                    assert(cleared(e0, ea) && bound_at(km, mode, all, a)
                        && run_effect(ea, *self, km[a].2, depth, (fuel - 1) as nat));
                }
            },
            Some(None) => {
                let mut keys: Vec<Key> = Vec::new();
                std::mem::swap(&mut keys, &mut self.pending_keys);
                let ghost ea = *self;
                assert(cleared(e0, ea));
                assert(keys@ == all);
                let mut split = keys.len();
                let mut fired: Option<Rhs> = None;
                let ghost mut fa: int = 0;
                while split > 0
                    invariant_except_break
                        split <= keys@.len(),
                        fired is None,
                        fired_len(km, mode, all, all.len() as int) == fired_len(km, mode, all, split as int),
                    invariant
                        keys@ == all,
                        self.keymap@ == km,
                        *self == ea,
                    ensures
                        split <= keys@.len(),
                        fired_len(km, mode, all, all.len() as int) == split as int,
                        match fired {
                            Some(r) => split > 0 && bound_at(km, mode, all.take(split as int), fa)
                                && km[fa].2 == rhs_model(r),
                            None => split == 0,
                        },
                    decreases split,
                {
                    let mut prefix: Vec<Key> = Vec::new();
                    let mut k: usize = 0;
                    while k < split
                        invariant
                            k <= split <= keys@.len(),
                            prefix@ == keys@.take(k as int),
                        decreases split - k,
                    {
                        prefix.push(keys[k]);
                        k = k + 1;
                        assert(prefix@ =~= keys@.take(k as int));
                    }
                    if let Match::Exact(rhs) = self.keymap.lookup(mode, prefix.as_slice()) {
                        proof {
                            fa = choose|a: int| 0 <= a < self.keymap@.len() && (#[trigger] self.keymap@[a]).0 == mode
                                && self.keymap@[a].1 == prefix@ && self.keymap@[a].2 == rhs_model(*rhs);
                            assert(bound_at(km, mode, all.take(split as int), fa));
                            assert(exactly_bound(km, mode, all.take(split as int)));
                        }
                        fired = Some(copy_rhs(rhs));
                        break;
                    }
                    assert(!exactly_bound(km, mode, all.take(split as int)));
                    split = split - 1;
                }
                let ghost s = split as int;
                let ghost eb: Editor;
                match fired {
                    Some(rhs) => {
                        self.run(&rhs, depth, fuel - 1);
                        proof {
                            eb = *self;
                            assert(bound_at(km, mode, all.take(s), fa) && run_effect(ea, eb, km[fa].2, depth, (fuel - 1) as nat));
                        }
                    },
                    None => {
                        if keys.len() > 0 {
                            self.dispatch(keys[0]);
                        }
                        proof {
                            eb = *self;
                        }
                    },
                }
                let mut index = if split >= 1 { split } else { 1 };
                let ghost start = index as int;
                assert(all.skip(start).len() == 0 ==> true);
                assert(all.subrange(start, start) =~= Seq::<Key>::empty());
                while index < keys.len()
                    invariant
                        self.wf(),
                        fuel >= 1,
                        keys@ == all,
                        1 <= start <= index <= keys@.len() || (start == index && index >= keys@.len()),
                        seq_effect(eb, *self, all.subrange(start, index as int), depth, (fuel - 1) as nat),
                    decreases keys@.len() - index,
                {
                    let ghost mid = *self;
                    self.feed_mapped(keys[index], depth, fuel - 1);
                    proof {
                        let next = all.subrange(start, index + 1);
                        assert(next.drop_last() =~= all.subrange(start, index as int));
                        assert(next.last() == all[index as int]);
                        assert(passed(mid));
                        assert(seq_effect(eb, mid, next.drop_last(), depth, (fuel - 1) as nat)
                            && mapped_effect(mid, *self, next.last(), depth, (fuel - 1) as nat));
                        reveal_with_fuel(seq_effect, 2);
                        assert(seq_effect(eb, *self, next, depth, (fuel - 1) as nat));
                    }
                    index = index + 1;
                }
                proof {
                    let rest = all.skip(if s > 1 { s } else { 1 });
                    if start <= all.len() {
                        assert(all.subrange(start, index as int) =~= rest);
                    } else {
                        assert(rest =~= Seq::<Key>::empty());
                        assert(all.subrange(start, index as int) =~= Seq::<Key>::empty());
                    }
                    assert(!maps_beyond(km, mode, all));
                    assert(!(exists|a: int| #[trigger] bound_at(km, mode, all, a)));
                    assert(passed(eb));
                    assert(cleared(e0, ea) && seq_effect(eb, *self, rest, depth, (fuel - 1) as nat));
                }
            },
        }
    }

    /// What a mapping's right-hand side does: replays its keys one level
    /// deeper, or runs its command.
    #[verifier::spinoff_prover]
    #[verifier::rlimit(80)]
    pub fn run(&mut self, rhs: &Rhs, depth: usize, fuel: usize)
        requires
            old(self).wf(),
        ensures
            final(self).wf(),
            run_effect(*old(self), *final(self), rhs_model(*rhs), depth, fuel as nat),
            rhs is Nothing ==> *final(self) == *old(self),
            (rhs matches Rhs::Command(c) ==> command_effect(*old(self), *final(self), c@)),
            (rhs matches Rhs::Keys(ks) ==> ((fuel == 0 || ks@.len() == 0) ==> *final(self) == *old(self))),
        decreases fuel, 1int,
    {
        match rhs {
            Rhs::Nothing => {},
            Rhs::Keys(keys) => {
                let next = if depth < usize::MAX { depth + 1 } else { depth };
                let mut i: usize = 0;
                assert(keys@.take(0) =~= Seq::<Key>::empty());
                while i < keys.len()
                    invariant
                        self.wf(),
                        next == deeper(depth),
                        fuel == 0 ==> *self == *old(self),
                        i == 0 ==> *self == *old(self),
                        i <= keys@.len(),
                        seq_effect(*old(self), *self, keys@.take(i as int), next, fuel as nat),
                    decreases keys@.len() - i,
                {
                    let ghost mid = *self;
                    self.feed_mapped(keys[i], next, fuel);
                    proof {
                        let t = keys@.take(i + 1);
                        assert(t.drop_last() =~= keys@.take(i as int));
                        assert(t.last() == keys@[i as int]);
                        assert(passed(mid));
                        assert(seq_effect(*old(self), mid, t.drop_last(), next, fuel as nat)
                            && mapped_effect(mid, *self, t.last(), next, fuel as nat));
                        assert(seq_effect(*old(self), *self, t, next, fuel as nat));
                    }
                    i = i + 1;
                }
                assert(keys@.take(keys@.len() as int) =~= keys@);
            },
            Rhs::Command(command) => self.run_command(command.as_str()),
        }
    }

    /// One key from the owner; ignored while the host owns input.
    pub fn feed(&mut self, key: Key)
        requires
            old(self).wf(),
        ensures
            final(self).wf(),
            fed(*old(self), *final(self), key),
            old(self).suspended ==> *final(self) == *old(self),
            !old(self).suspended ==> crate::editcore::panes::cursor_shown(*final(self)),
    {
        if self.suspended {
            return;
        }
        self.feed_mapped(key, 0, EXPANSION_LIMIT);
        let ghost mid = *self;
        self.scroll_into_view();
        proof {
            crate::editcore::panes::lemma_scrolled_shows(
                self.top_line,
                self.cursor.0,
                self.view_rows,
                self.buffer@.lines.len() as int,
            );
        }
        let ghost before = *self;
        self.save_focused_view();
        proof {
            assert(before == (Editor { top_line: before.top_line, ..mid }));
            assert(passed(mid) && shown(mid, *self));
            let p = crate::editcore::editor::view_pos(before.views@, before.tabs@.focus());
            if p >= 0 {
                crate::editcore::editor::lemma_view_pos_from(before.views@, before.tabs@.focus(), 0);
                let v = self.views@[p];
                crate::editcore::panes::lemma_view_pos_update(before.views@, before.tabs@.focus(), v, 0);
            }
        }
    }

    /// Keys written in Neovim's notation, such as `"ihello<Esc>"`.
    pub fn feed_str(&mut self, input: &str)
        requires
            old(self).wf(),
        ensures
            final(self).wf(),
            fed_all(*old(self), *final(self), crate::editcore::key::parse_spec(input@)),
            old(self).suspended ==> *final(self) == *old(self),
            !old(self).suspended && crate::editcore::key::parse_spec(input@).len() > 0
                ==> crate::editcore::panes::cursor_shown(*final(self)),
    {
        let keys = crate::editcore::key::parse(input);
        let mut i: usize = 0;
        while i < keys.len()
            invariant
                self.wf(),
                i <= keys@.len(),
                i == 0 ==> *self == *old(self),
                old(self).suspended ==> *self == *old(self),
                i > 0 && !old(self).suspended ==> crate::editcore::panes::cursor_shown(*self),
                fed_all(*old(self), *self, keys@.take(i as int)),
            decreases keys@.len() - i,
        {
            let ghost mid = *self;
            self.feed(keys[i]);
            proof {
                let t = keys@.take(i + 1);
                assert(t.drop_last() =~= keys@.take(i as int));
                assert(t.last() == keys@[i as int]);
                assert(passed(mid));
                assert(fed_all(*old(self), mid, t.drop_last()) && fed(mid, *self, t.last()));
                assert(fed_all(*old(self), *self, t));
            }
            i = i + 1;
        }
        assert(keys@.take(keys@.len() as int) =~= keys@);
    }
}


proof fn lemma_find_last(s: Seq<char>, pat: Seq<char>, i: int)
    ensures
        crate::text::find_last(s, pat, i) == -1 || (crate::text::find_last(s, pat, i) <= i
            && crate::text::occurs_at(s, pat, crate::text::find_last(s, pat, i))),
    decreases i + 1,
{
    if i >= 0 && !crate::text::occurs_at(s, pat, i) {
        lemma_find_last(s, pat, i - 1);
    }
}

proof fn lemma_search_from(lines: Seq<Seq<char>>, cursor: (usize, usize), pat: Seq<char>, sensitive: bool, forward: bool, step: int)
    requires
        lines.len() >= 1,
        cursor.0 < lines.len(),
        0 <= step,
    ensures
        search_from(lines, cursor, pat, sensitive, forward, step) matches Some(at) ==> {
            &&& 0 <= at.0 < lines.len()
            &&& crate::text::occurs_at(searched_text(lines[at.0], sensitive), pat, at.1)
        },
    decreases lines.len() + 1 - step,
{
    if step <= lines.len() {
        let n = lines.len() as int;
        let index = search_line(cursor.0 as int, step, n, forward);
        let text = searched_text(lines[index], sensitive);
        if forward {
            let from = if step == 0 { min_int(cursor.1 + 1, text.len() as int) } else { 0 };
            crate::text::lemma_find_seq(text, pat, from);
        } else {
            let to = if step == 0 { min_int(cursor.1 as int, text.len() as int) } else { text.len() as int };
            lemma_find_last(text.take(to), pat, to - pat.len());
            let k = crate::text::find_last(text.take(to), pat, to - pat.len());
            if k >= 0 {
                assert(text.take(to).subrange(k, k + pat.len()) =~= text.subrange(k, k + pat.len()));
            }
        }
        lemma_search_from(lines, cursor, pat, sensitive, forward, step + 1);
    }
}

/// `n` and `N` land on a match: wherever the search stops, the pattern
/// stands there in the line (lowered, when case does not tell).
pub proof fn law_search_stops_on_a_match(lines: Seq<Seq<char>>, cursor: (usize, usize), pat: Seq<char>, sensitive: bool, forward: bool)
    requires
        lines.len() >= 1,
        cursor.0 < lines.len(),
    ensures
        search_from(lines, cursor, pat, sensitive, forward, 0) matches Some(at) ==> {
            &&& 0 <= at.0 < lines.len()
            &&& crate::text::occurs_at(searched_text(lines[at.0], sensitive), pat, at.1)
        },
{
    lemma_search_from(lines, cursor, pat, sensitive, forward, 0);
}

/// Typing a character in insert mode and then `<BS>` leaves the text as it
/// was, and the cursor where it was.
pub proof fn law_type_then_backspace_restores(lines: Seq<Seq<char>>, line: usize, col: usize, desired: usize, ch: char, indent: Seq<char>)
    requires
        line < lines.len(),
        col <= lines[line as int].len(),
        col < usize::MAX,
        !crate::text::spec_is_control(ch),
    ensures
        ({
            let typed = insert_result(lines, (line, col), desired, crate::editcore::key::plain(ch), indent);
            let erased = insert_result(typed.0, (line, (col + 1) as usize), desired, crate::editcore::key::Key {
                code: Code::Named(Named::Backspace),
                ctrl: false,
                alt: false,
            }, indent);
            &&& typed.1 == (line as int, col + 1)
            &&& erased.0 == lines
            &&& erased.1 == (line as int, col as int)
        }),
{
    let row = lines[line as int];
    let key = crate::editcore::key::plain(ch);
    assert(key.spec_as_text() == Some(ch));
    let grown = inserted(row, col as int, seq![ch]);
    assert(grown =~= row.take(col as int) + seq![ch] + row.skip(col as int));
    let typed = lines.update(line as int, grown);
    assert(insert_result(lines, (line, col), desired, key, indent).0 == typed);
    assert(grown.take(col as int) + grown.skip(col + 1) =~= row);
    assert(typed.update(line as int, row) =~= lines);
}

} // verus!
