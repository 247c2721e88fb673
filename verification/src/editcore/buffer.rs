//! Text storage.
//!
//! Lines are `Vec<char>` because every editing operation here is addressed by
//! character position. A column in this module is a *character* index; what it
//! looks like on the screen is decided by the renderer.

use vstd::prelude::*;
use crate::text::{chars_of, string_of};

verus! {

// ---------------------------------------------------------------------------
// The model
// ---------------------------------------------------------------------------

/// The characters of each line, in order.
pub open spec fn view_lines(v: Seq<Vec<char>>) -> Seq<Seq<char>> {
    v.map_values(|l: Vec<char>| l@)
}

/// One undoable state as the model sees it.
pub struct SnapshotModel {
    pub lines: Seq<Seq<char>>,
    pub cursor: (usize, usize),
}

/// Everything a buffer holds, as mathematical values.
pub struct BufferModel {
    pub lines: Seq<Seq<char>>,
    pub path: Option<Seq<char>>,
    pub modified: bool,
    pub revision: u64,
    pub ending: LineEnding,
    pub trailing_newline: bool,
    pub undo: Seq<SnapshotModel>,
    pub redo: Seq<SnapshotModel>,
    pub pending: Option<SnapshotModel>,
}

/// The revision after one more change; it saturates rather than wrapping.
pub open spec fn bumped(r: u64) -> u64 {
    if r == u64::MAX {
        r
    } else {
        (r + 1) as u64
    }
}

pub open spec fn newline_seq(e: LineEnding) -> Seq<char> {
    match e {
        LineEnding::Lf => seq!['\n'],
        LineEnding::Crlf => seq!['\r', '\n'],
    }
}

/// `s` split on `'\n'`: a string with `k` newlines has `k + 1` pieces.
pub open spec fn split_newlines(s: Seq<char>) -> Seq<Seq<char>>
    decreases s.len(),
{
    if s.len() == 0 {
        seq![Seq::<char>::empty()]
    } else {
        let rest = split_newlines(s.drop_last());
        if s.last() == '\n' {
            rest.push(Seq::<char>::empty())
        } else {
            rest.update(rest.len() - 1, rest.last().push(s.last()))
        }
    }
}

/// The pieces joined back together with `sep` between each two.
pub open spec fn join_with(lines: Seq<Seq<char>>, sep: Seq<char>) -> Seq<char>
    decreases lines.len(),
{
    if lines.len() == 0 {
        Seq::<char>::empty()
    } else if lines.len() == 1 {
        lines[0]
    } else {
        join_with(lines.drop_last(), sep) + sep + lines.last()
    }
}

pub open spec fn strip_last(s: Seq<char>, c: char) -> Seq<char> {
    if s.len() > 0 && s.last() == c {
        s.drop_last()
    } else {
        s
    }
}

pub open spec fn crlf_at(s: Seq<char>, i: int) -> bool {
    s[i] == '\r' && s[i + 1] == '\n'
}

pub open spec fn has_crlf(s: Seq<char>) -> bool {
    exists|i: int| 0 <= i < s.len() - 1 && #[trigger] crlf_at(s, i)
}

/// The line-ending convention a loaded text is written back with.
pub open spec fn detected_ending(s: Seq<char>) -> LineEnding {
    if has_crlf(s) {
        LineEnding::Crlf
    } else {
        LineEnding::Lf
    }
}

pub open spec fn ends_with_newline(s: Seq<char>) -> bool {
    s.len() == 0 || s.last() == '\n'
}

/// The lines a text is loaded as: one final newline (and a `'\r'` before it)
/// is a terminator rather than a line of its own, and every line loses one
/// trailing `'\r'`.
pub open spec fn parsed_lines(s: Seq<char>) -> Seq<Seq<char>> {
    split_newlines(strip_last(strip_last(s, '\n'), '\r')).map_values(
        |l: Seq<char>| strip_last(l, '\r'),
    )
}

/// The text a buffer writes: its lines joined by its line ending, and one more
/// line ending when the loaded file ended with one.
pub open spec fn rendered_text(lines: Seq<Seq<char>>, ending: LineEnding, trailing: bool) -> Seq<
    char,
> {
    join_with(lines, newline_seq(ending)) + if trailing {
        newline_seq(ending)
    } else {
        Seq::<char>::empty()
    }
}

impl BufferModel {
    /// Every text the buffer holds or can go back to has at least one line.
    pub open spec fn wf(self) -> bool {
        &&& self.lines.len() >= 1
        &&& forall|i: int| 0 <= i < self.undo.len() ==> #[trigger] self.undo[i].lines.len() >= 1
        &&& forall|i: int| 0 <= i < self.redo.len() ==> #[trigger] self.redo[i].lines.len() >= 1
        &&& self.pending matches Some(p) ==> p.lines.len() >= 1
    }

    /// The state after a change is closed: a pending snapshot whose lines
    /// differ from the current ones becomes an undo step.
    pub open spec fn after_commit(self) -> BufferModel {
        match self.pending {
            Some(snapshot) => if snapshot.lines != self.lines {
                BufferModel {
                    undo: self.undo.push(snapshot),
                    redo: Seq::empty(),
                    modified: true,
                    revision: bumped(self.revision),
                    pending: None,
                    ..self
                }
            } else {
                BufferModel { pending: None, ..self }
            },
            None => self,
        }
    }

    /// `u`: the last undo step's text comes back, and the text it replaced is
    /// kept for `<C-r>` together with `cursor`.
    pub open spec fn after_undo(self, cursor: (usize, usize)) -> (BufferModel, Option<
        (usize, usize),
    >) {
        if self.undo.len() == 0 {
            (self, None)
        } else {
            let snapshot = self.undo.last();
            (
                BufferModel {
                    lines: snapshot.lines,
                    undo: self.undo.drop_last(),
                    redo: self.redo.push(SnapshotModel { lines: self.lines, cursor }),
                    modified: true,
                    revision: bumped(self.revision),
                    ..self
                },
                Some(snapshot.cursor),
            )
        }
    }

    /// `<C-r>`: the mirror image of [`BufferModel::after_undo`].
    pub open spec fn after_redo(self, cursor: (usize, usize)) -> (BufferModel, Option<
        (usize, usize),
    >) {
        if self.redo.len() == 0 {
            (self, None)
        } else {
            let snapshot = self.redo.last();
            (
                BufferModel {
                    lines: snapshot.lines,
                    redo: self.redo.drop_last(),
                    undo: self.undo.push(SnapshotModel { lines: self.lines, cursor }),
                    modified: true,
                    revision: bumped(self.revision),
                    ..self
                },
                Some(snapshot.cursor),
            )
        }
    }

    /// A change is opened at `cursor`, unless one already is.
    pub open spec fn after_begin(self, cursor: (usize, usize)) -> BufferModel {
        if self.pending is None {
            BufferModel { pending: Some(SnapshotModel { lines: self.lines, cursor }), ..self }
        } else {
            self
        }
    }

    /// The same buffer holding `lines` instead, everything else unchanged.
    pub open spec fn with_lines(self, lines: Seq<Seq<char>>) -> BufferModel {
        BufferModel { lines, ..self }
    }
}

/// The index a request for `line` lands on: the last line when it is past the
/// end.
pub open spec fn clamp_line(m: BufferModel, line: usize) -> int {
    if line < m.lines.len() {
        line as int
    } else {
        m.lines.len() - 1
    }
}

pub open spec fn min_int(a: int, b: int) -> int {
    if a <= b {
        a
    } else {
        b
    }
}

/// `line` with `text` inserted before character `col` (after the last
/// character when `col` is past the end).
pub open spec fn inserted(line: Seq<char>, col: int, text: Seq<char>) -> Seq<char> {
    let at = min_int(col, line.len() as int);
    line.take(at) + text + line.skip(at)
}

/// The lines with the empty line put back when none are left.
pub open spec fn at_least_one(lines: Seq<Seq<char>>) -> Seq<Seq<char>> {
    if lines.len() == 0 {
        seq![Seq::<char>::empty()]
    } else {
        lines
    }
}

/// The first whitespace-free position of `s` from the front.
pub open spec fn leading_ws(s: Seq<char>) -> nat
    decreases s.len(),
{
    if s.len() > 0 && crate::text::spec_is_whitespace(s[0]) {
        1 + leading_ws(s.drop_first())
    } else {
        0
    }
}

/// How many whitespace characters end `s`.
pub open spec fn trailing_ws(s: Seq<char>) -> nat
    decreases s.len(),
{
    if s.len() > 0 && crate::text::spec_is_whitespace(s.last()) {
        1 + trailing_ws(s.drop_last())
    } else {
        0
    }
}

/// vim's `J`: the joined line loses its indentation, the first loses its
/// trailing blanks, and one space goes between them unless either side is
/// empty.
pub open spec fn spaced_join(row: Seq<char>, next: Seq<char>) -> Seq<char> {
    let left = row.take(row.len() - trailing_ws(row));
    let right = next.skip(leading_ws(next) as int);
    if left.len() > 0 && right.len() > 0 {
        left + seq![' '] + right
    } else {
        left + right
    }
}

// ---------------------------------------------------------------------------
// Executable types
// ---------------------------------------------------------------------------

/// One undoable state of the buffer: the whole text, not a diff.
pub struct Snapshot {
    lines: Vec<Vec<char>>,
    pub cursor: (usize, usize),
}

impl Clone for Snapshot {
    fn clone(&self) -> (s: Snapshot)
        ensures
            s.model() == self.model(),
    {
        Snapshot { lines: copy_lines(&self.lines), cursor: self.cursor }
    }
}

impl Snapshot {
    pub closed spec fn model(&self) -> SnapshotModel {
        SnapshotModel { lines: view_lines(self.lines@), cursor: self.cursor }
    }
}

#[derive(Clone, Copy, PartialEq, Eq, Debug)]
pub enum LineEnding {
    Lf,
    Crlf,
}

impl LineEnding {
    pub fn as_str(self) -> (s: &'static str)
        ensures
            s@ == newline_seq(self),
    {
        match self {
            LineEnding::Lf => {
                let s = "\n";
                proof {
                    reveal_strlit("\n");
                }
                s
            },
            LineEnding::Crlf => {
                let s = "\r\n";
                proof {
                    reveal_strlit("\r\n");
                }
                s
            },
        }
    }

    fn chars(self) -> (v: Vec<char>)
        ensures
            v@ == newline_seq(self),
    {
        match self {
            LineEnding::Lf => vec!['\n'],
            LineEnding::Crlf => vec!['\r', '\n'],
        }
    }
}

/// What reading a file for editing came to. Reading is the caller's job; what
/// a buffer makes of the outcome is decided here.
#[derive(Clone, Debug, PartialEq, Eq)]
pub enum FileRead {
    /// The file's text.
    Text(String),
    /// Nothing exists at the path yet: a new file.
    Missing,
    /// Something exists that is not a regular file (a directory, a FIFO).
    NotAFile,
    /// Any other failure, with its description.
    Failed(String),
}

/// Why a path could not be opened as a buffer.
#[derive(Clone, Debug, PartialEq, Eq)]
pub enum OpenError {
    /// The path names something that is not a file to edit.
    NotAFile,
    /// Reading failed for another reason.
    Failed(String),
}

pub struct Buffer {
    lines: Vec<Vec<char>>,
    path: Option<String>,
    modified: bool,
    revision: u64,
    ending: LineEnding,
    /// Whether the file ended with a newline, so that writing a file back
    /// unchanged produces the same text.
    trailing_newline: bool,
    undo: Vec<Snapshot>,
    redo: Vec<Snapshot>,
    /// Set while an operation is in flight so that a multi-key change becomes
    /// one undo step.
    pending: Option<Snapshot>,
}

pub open spec fn snapshot_models(v: Seq<Snapshot>) -> Seq<SnapshotModel> {
    v.map_values(|s: Snapshot| s.model())
}

pub open spec fn opt_snapshot_model(o: Option<Snapshot>) -> Option<SnapshotModel> {
    match o {
        Some(s) => Some(s.model()),
        None => None,
    }
}

pub open spec fn opt_string_view(o: Option<String>) -> Option<Seq<char>> {
    match o {
        Some(s) => Some(s@),
        None => None,
    }
}

impl View for Buffer {
    type V = BufferModel;

    closed spec fn view(&self) -> BufferModel {
        BufferModel {
            lines: view_lines(self.lines@),
            path: opt_string_view(self.path),
            modified: self.modified,
            revision: self.revision,
            ending: self.ending,
            trailing_newline: self.trailing_newline,
            undo: snapshot_models(self.undo@),
            redo: snapshot_models(self.redo@),
            pending: opt_snapshot_model(self.pending),
        }
    }
}

fn copy_snapshots(v: &Vec<Snapshot>) -> (r: Vec<Snapshot>)
    ensures
        snapshot_models(r@) == snapshot_models(v@),
{
    let mut r: Vec<Snapshot> = Vec::new();
    let mut i: usize = 0;
    while i < v.len()
        invariant
            i <= v@.len(),
            r@.len() == i,
            forall|j: int| 0 <= j < i ==> #[trigger] r@[j].model() == v@[j].model(),
        decreases v@.len() - i,
    {
        r.push(v[i].clone());
        i = i + 1;
    }
    assert(snapshot_models(r@) =~= snapshot_models(v@));
    r
}

impl Clone for Buffer {
    /// An independent buffer holding the same text, history and file.
    fn clone(&self) -> (b: Buffer)
        ensures
            b@ == self@,
    {
        let path = match &self.path {
            Some(p) => Some(p.clone()),
            None => None,
        };
        let pending = match &self.pending {
            Some(s) => Some(s.clone()),
            None => None,
        };
        Buffer {
            lines: copy_lines(&self.lines),
            path,
            modified: self.modified,
            revision: self.revision,
            ending: self.ending,
            trailing_newline: self.trailing_newline,
            undo: copy_snapshots(&self.undo),
            redo: copy_snapshots(&self.redo),
            pending,
        }
    }
}

// ---------------------------------------------------------------------------
// Helpers on character vectors
// ---------------------------------------------------------------------------

fn copy_chars(v: &[char]) -> (r: Vec<char>)
    ensures
        r@ == v@,
{
    let mut r: Vec<char> = Vec::new();
    let mut i: usize = 0;
    while i < v.len()
        invariant
            i <= v@.len(),
            r@ == v@.take(i as int),
        decreases v@.len() - i,
    {
        r.push(v[i]);
        i = i + 1;
        assert(r@ =~= v@.take(i as int));
    }
    assert(v@.take(v@.len() as int) =~= v@);
    r
}

/// The first `end` characters split on newlines, each piece without one
/// trailing carriage return.
pub(crate) fn split_lines_upto(chars: &Vec<char>, end: usize) -> (r: Vec<Vec<char>>)
    requires
        end <= chars@.len(),
    ensures
        view_lines(r@) == split_newlines(chars@.take(end as int)).map_values(
            |l: Seq<char>| strip_last(l, '\r'),
        ),
{
    let ghost body = chars@.take(end as int);
    let n = chars.len();
    let mut lines: Vec<Vec<char>> = Vec::new();
    let mut current: Vec<char> = Vec::new();
    let mut k: usize = 0;
    proof {
        assert(body.take(0) =~= Seq::<char>::empty());
    }
    while k < end
        invariant
            end <= n,
            n == chars@.len(),
            body == chars@.take(end as int),
            k <= end,
            view_lines(lines@).push(current@) == split_newlines(body.take(k as int)),
        decreases end - k,
    {
        let c = chars[k];
        proof {
            assert(body.take(k + 1).drop_last() =~= body.take(k as int));
            assert(body.take(k + 1).last() == c);
            lemma_split_nonempty(body.take(k as int));
        }
        if c == '\n' {
            let mut done: Vec<char> = Vec::new();
            std::mem::swap(&mut current, &mut done);
            lines.push(done);
            proof {
                assert(view_lines(lines@).push(current@) =~= split_newlines(body.take(k + 1)));
            }
        } else {
            let ghost before = view_lines(lines@).push(current@);
            current.push(c);
            proof {
                assert(view_lines(lines@).push(current@) =~= before.update(
                    before.len() - 1,
                    before.last().push(c),
                ));
            }
        }
        k = k + 1;
    }
    lines.push(current);
    proof {
        assert(body.take(end as int) =~= body);
        assert(view_lines(lines@) == split_newlines(body));
    }
    let mut stripped: Vec<Vec<char>> = Vec::new();
    let mut m: usize = 0;
    while m < lines.len()
        invariant
            m <= lines@.len(),
            stripped@.len() == m,
            forall|j: int| 0 <= j < m ==> #[trigger] stripped@[j]@ == strip_last(lines@[j]@, '\r'),
        decreases lines@.len() - m,
    {
        let line = &lines[m];
        let len = line.len();
        let mut copy = copy_chars(line.as_slice());
        if len > 0 && line[len - 1] == '\r' {
            copy.pop();
        }
        assert(copy@ =~= strip_last(lines@[m as int]@, '\r'));
        stripped.push(copy);
        m = m + 1;
    }
    proof {
        assert(view_lines(stripped@) =~= view_lines(lines@).map_values(
            |l: Seq<char>| strip_last(l, '\r'),
        ));
    }
    stripped
}

fn copy_lines(v: &Vec<Vec<char>>) -> (r: Vec<Vec<char>>)
    ensures
        view_lines(r@) == view_lines(v@),
        r@.len() == v@.len(),
{
    let mut r: Vec<Vec<char>> = Vec::new();
    let mut i: usize = 0;
    while i < v.len()
        invariant
            i <= v@.len(),
            r@.len() == i,
            forall|j: int| 0 <= j < i ==> #[trigger] r@[j]@ == v@[j]@,
        decreases v@.len() - i,
    {
        let line = copy_chars(v[i].as_slice());
        r.push(line);
        i = i + 1;
    }
    assert(view_lines(r@) =~= view_lines(v@));
    r
}

fn chars_equal(a: &[char], b: &[char]) -> (r: bool)
    ensures
        r == (a@ == b@),
{
    if a.len() != b.len() {
        return false;
    }
    let mut i: usize = 0;
    while i < a.len()
        invariant
            a@.len() == b@.len(),
            i <= a@.len(),
            forall|j: int| 0 <= j < i ==> a@[j] == b@[j],
        decreases a@.len() - i,
    {
        if a[i] != b[i] {
            return false;
        }
        i = i + 1;
    }
    assert(a@ =~= b@);
    true
}

fn lines_equal(a: &Vec<Vec<char>>, b: &Vec<Vec<char>>) -> (r: bool)
    ensures
        r == (view_lines(a@) == view_lines(b@)),
{
    if a.len() != b.len() {
        assert(view_lines(a@).len() != view_lines(b@).len());
        return false;
    }
    let mut i: usize = 0;
    while i < a.len()
        invariant
            a@.len() == b@.len(),
            i <= a@.len(),
            forall|j: int| 0 <= j < i ==> view_lines(a@)[j] == view_lines(b@)[j],
        decreases a@.len() - i,
    {
        if !chars_equal(a[i].as_slice(), b[i].as_slice()) {
            assert(view_lines(a@)[i as int] != view_lines(b@)[i as int]);
            return false;
        }
        i = i + 1;
    }
    assert(view_lines(a@) =~= view_lines(b@));
    true
}

fn strings_to_lines(v: Vec<String>) -> (r: Vec<Vec<char>>)
    ensures
        view_lines(r@) == v@.map_values(|s: String| s@),
{
    let mut r: Vec<Vec<char>> = Vec::new();
    let mut i: usize = 0;
    while i < v.len()
        invariant
            i <= v@.len(),
            r@.len() == i,
            forall|j: int| 0 <= j < i ==> #[trigger] r@[j]@ == v@[j]@,
        decreases v@.len() - i,
    {
        r.push(chars_of(v[i].as_str()));
        i = i + 1;
    }
    assert(view_lines(r@) =~= v@.map_values(|s: String| s@));
    r
}


/// `v` with lines `[s, e)` replaced by `mid`.
fn splice_vec(v: &Vec<Vec<char>>, s: usize, e: usize, mid: &Vec<Vec<char>>) -> (r: Vec<
    Vec<char>,
>)
    requires
        s <= e <= v@.len(),
    ensures
        view_lines(r@) == view_lines(v@).take(s as int) + view_lines(mid@) + view_lines(
            v@,
        ).skip(e as int),
{
    let ghost target = view_lines(v@).take(s as int) + view_lines(mid@) + view_lines(v@).skip(
        e as int,
    );
    let mut r: Vec<Vec<char>> = Vec::new();
    let mut i: usize = 0;
    while i < s
        invariant
            s <= e <= v@.len(),
            target == view_lines(v@).take(s as int) + view_lines(mid@) + view_lines(v@).skip(
                e as int,
            ),
            i <= s,
            r@.len() == i,
            forall|j: int| 0 <= j < i ==> #[trigger] r@[j]@ == target[j],
        decreases s - i,
    {
        r.push(copy_chars(v[i].as_slice()));
        i = i + 1;
    }
    let mut k: usize = 0;
    while k < mid.len()
        invariant
            s <= e <= v@.len(),
            target == view_lines(v@).take(s as int) + view_lines(mid@) + view_lines(v@).skip(
                e as int,
            ),
            k <= mid@.len(),
            r@.len() == s + k,
            forall|j: int| 0 <= j < s + k ==> #[trigger] r@[j]@ == target[j],
        decreases mid@.len() - k,
    {
        r.push(copy_chars(mid[k].as_slice()));
        k = k + 1;
    }
    let mut i: usize = e;
    while i < v.len()
        invariant
            s <= e <= v@.len(),
            target == view_lines(v@).take(s as int) + view_lines(mid@) + view_lines(v@).skip(
                e as int,
            ),
            e <= i <= v@.len(),
            r@.len() == s + mid@.len() + (i - e),
            forall|j: int| 0 <= j < r@.len() ==> #[trigger] r@[j]@ == target[j],
        decreases v@.len() - i,
    {
        r.push(copy_chars(v[i].as_slice()));
        i = i + 1;
    }
    assert(view_lines(r@) =~= target);
    r
}

/// How many whitespace characters start `v`.
fn count_leading_ws(v: &[char]) -> (n: usize)
    ensures
        n == leading_ws(v@),
{
    let mut i: usize = 0;
    assert(v@.skip(0) =~= v@);
    while i < v.len() && crate::text::is_whitespace(v[i])
        invariant
            i <= v@.len(),
            leading_ws(v@) == i + leading_ws(v@.skip(i as int)),
        decreases v@.len() - i,
    {
        proof {
            assert(v@.skip(i as int).drop_first() =~= v@.skip(i + 1));
        }
        i = i + 1;
    }
    i
}

/// How many whitespace characters end `v`.
fn count_trailing_ws(v: &[char]) -> (n: usize)
    ensures
        n == trailing_ws(v@),
        n <= v@.len(),
{
    let mut i: usize = 0;
    assert(v@.take(v@.len() as int) =~= v@);
    while i < v.len() && crate::text::is_whitespace(v[v.len() - 1 - i])
        invariant
            i <= v@.len(),
            trailing_ws(v@) == i + trailing_ws(v@.take(v@.len() - i)),
        decreases v@.len() - i,
    {
        proof {
            assert(v@.take(v@.len() - i).drop_last() =~= v@.take(v@.len() - (i + 1)));
        }
        i = i + 1;
    }
    proof {
        lemma_trailing_ws_bound(v@);
    }
    i
}

pub proof fn lemma_trailing_ws_bound(s: Seq<char>)
    ensures
        trailing_ws(s) <= s.len(),
    decreases s.len(),
{
    if s.len() > 0 {
        lemma_trailing_ws_bound(s.drop_last());
    }
}

proof fn lemma_leading_ws_bound(s: Seq<char>)
    ensures
        leading_ws(s) <= s.len(),
    decreases s.len(),
{
    if s.len() > 0 {
        lemma_leading_ws_bound(s.drop_first());
    }
}

// ---------------------------------------------------------------------------
// Lemmas about splitting and joining
// ---------------------------------------------------------------------------

pub proof fn lemma_split_nonempty(s: Seq<char>)
    ensures
        split_newlines(s).len() >= 1,
    decreases s.len(),
{
    if s.len() > 0 {
        lemma_split_nonempty(s.drop_last());
    }
}

proof fn lemma_join_push(lines: Seq<Seq<char>>, sep: Seq<char>, line: Seq<char>)
    requires
        lines.len() >= 1,
    ensures
        join_with(lines.push(line), sep) == join_with(lines, sep) + sep + line,
{
    assert(lines.push(line).drop_last() =~= lines);
}

proof fn lemma_join_extend_last(lines: Seq<Seq<char>>, sep: Seq<char>, c: char)
    requires
        lines.len() >= 1,
    ensures
        join_with(lines.update(lines.len() - 1, lines.last().push(c)), sep) == join_with(
            lines,
            sep,
        ).push(c),
{
    let up = lines.update(lines.len() - 1, lines.last().push(c));
    if lines.len() == 1 {
        assert(join_with(up, sep) == up[0]);
    } else {
        assert(up.drop_last() =~= lines.drop_last());
        assert(join_with(up, sep) == join_with(lines.drop_last(), sep) + sep + up.last());
        assert(join_with(up, sep) =~= join_with(lines, sep).push(c));
    }
}

/// Splitting on newlines and joining with a newline gives the text back.
pub proof fn lemma_join_split(s: Seq<char>)
    ensures
        join_with(split_newlines(s), seq!['\n']) == s,
    decreases s.len(),
{
    if s.len() == 0 {
        assert(join_with(split_newlines(s), seq!['\n']) =~= s);
    } else {
        let rest = split_newlines(s.drop_last());
        lemma_split_nonempty(s.drop_last());
        lemma_join_split(s.drop_last());
        if s.last() == '\n' {
            lemma_join_push(rest, seq!['\n'], Seq::<char>::empty());
            assert(join_with(split_newlines(s), seq!['\n']) =~= s);
        } else {
            lemma_join_extend_last(rest, seq!['\n'], s.last());
            assert(join_with(split_newlines(s), seq!['\n']) =~= s);
        }
    }
}

proof fn lemma_split_no_cr(s: Seq<char>)
    requires
        forall|i: int| 0 <= i < s.len() ==> s[i] != '\r',
    ensures
        forall|k: int, j: int|
            0 <= k < split_newlines(s).len() && 0 <= j < split_newlines(s)[k].len()
                ==> split_newlines(s)[k][j] != '\r',
    decreases s.len(),
{
    if s.len() > 0 {
        lemma_split_no_cr(s.drop_last());
        lemma_split_nonempty(s.drop_last());
    }
}

/// Loading a text and writing it back gives the same text, for every
/// non-empty text without carriage returns. (The empty text is loaded as one
/// empty line ended by a newline, and comes back as `"\n"`.)
pub proof fn law_text_round_trip(s: Seq<char>)
    requires
        s.len() > 0,
        forall|i: int| 0 <= i < s.len() ==> s[i] != '\r',
    ensures
        rendered_text(parsed_lines(s), detected_ending(s), ends_with_newline(s)) == s,
{
    let body = strip_last(s, '\n');
    assert(strip_last(body, '\r') == body);
    assert(forall|i: int| 0 <= i < body.len() ==> body[i] != '\r');
    lemma_split_no_cr(body);
    let pieces = split_newlines(body);
    assert(parsed_lines(s) =~= pieces) by {
        assert forall|k: int| 0 <= k < pieces.len() implies strip_last(pieces[k], '\r')
            == pieces[k] by {
            if pieces[k].len() > 0 {
                assert(pieces[k][pieces[k].len() - 1] != '\r');
            }
        }
    }
    assert(!has_crlf(s));
    lemma_join_split(body);
    if s.last() == '\n' {
        assert(body + seq!['\n'] =~= s);
    } else {
        assert(body =~= s);
    }
}


/// Every `'\n'` in `w` comes right after a `'\r'`, and every `'\r'` but a
/// last one comes right before a `'\n'`.
pub open spec fn crlf_prefix(w: Seq<char>) -> bool {
    &&& forall|i: int| 0 <= i < w.len() && #[trigger] w[i] == '\n' ==> i > 0 && w[i - 1] == '\r'
    &&& forall|i: int| 0 <= i < w.len() - 1 && #[trigger] w[i] == '\r' ==> w[i + 1] == '\n'
}

/// A text in CRLF form is its lines, each without its `'\r'`, joined by
/// `"\r\n"` (a last lone `'\r'` aside).
proof fn lemma_join_crlf(w: Seq<char>)
    requires
        crlf_prefix(w),
    ensures
        join_with(split_newlines(w).map_values(|l: Seq<char>| strip_last(l, '\r')), seq!['\r', '\n'])
            == strip_last(w, '\r'),
    decreases w.len(),
{
    let f = |l: Seq<char>| strip_last(l, '\r');
    if w.len() == 0 {
        assert(split_newlines(w).map_values(f) =~= seq![Seq::<char>::empty()]);
    } else {
        let v = w.drop_last();
        let c = w.last();
        assert(crlf_prefix(v)) by {
            assert forall|i: int| 0 <= i < v.len() && #[trigger] v[i] == '\n' implies i > 0 && v[i - 1] == '\r' by {
                assert(w[i] == v[i]);
            }
            assert forall|i: int| 0 <= i < v.len() - 1 && #[trigger] v[i] == '\r' implies v[i + 1] == '\n' by {
                assert(w[i] == v[i] && w[i + 1] == v[i + 1]);
            }
        }
        lemma_join_crlf(v);
        lemma_split_nonempty(v);
        let rest = split_newlines(v);
        let q = rest.map_values(f);
        if c == '\n' {
            assert(v.len() > 0 && v.last() == '\r') by {
                assert(w[w.len() - 1] == '\n');
            }
            assert(split_newlines(w).map_values(f) =~= q.push(Seq::<char>::empty()));
            lemma_join_push(q, seq!['\r', '\n'], Seq::<char>::empty());
            assert(strip_last(v, '\r') + seq!['\r', '\n'] =~= w);
        } else {
            if v.len() > 0 {
                assert(v.last() != '\r') by {
                    assert(w[v.len() - 1] == v.last());
                }
            }
            let last = rest.last();
            assert(last.len() > 0 ==> last.last() != '\r') by {
                if v.len() > 0 && v.last() != '\n' {
                    lemma_split_nonempty(v.drop_last());
                    let r2 = split_newlines(v.drop_last());
                    assert(last == r2.last().push(v.last()));
                }
            }
            assert(q.last() == last);
            if c == '\r' {
                assert(last.push(c).drop_last() =~= last);
                assert(f(last.push(c)) == last);
                assert(split_newlines(w).map_values(f) =~= q);
                assert(strip_last(v, '\r') == v);
            } else {
                assert(split_newlines(w).map_values(f) =~= q.update(q.len() - 1, q.last().push(c)));
                lemma_join_extend_last(q, seq!['\r', '\n'], c);
                assert(strip_last(v, '\r') == v);
                assert(v.push(c) =~= w);
            }
        }
    }
}

/// A text in CRLF form comes back as it was loaded: every `'\n'` after a
/// `'\r'` and every `'\r'` before a `'\n'`, with at least one line break.
pub proof fn law_crlf_text_round_trip(s: Seq<char>)
    requires
        crlf_prefix(s),
        s.len() > 0 ==> s.last() != '\r',
        has_crlf(s),
    ensures
        rendered_text(parsed_lines(s), detected_ending(s), ends_with_newline(s)) == s,
{
    let body = strip_last(strip_last(s, '\n'), '\r');
    if s.last() == '\n' {
        assert(s[s.len() - 1] == '\n');
        let x = s.take(s.len() - 2);
        assert(body =~= x);
        assert(crlf_prefix(x)) by {
            assert forall|i: int| 0 <= i < x.len() - 1 && #[trigger] x[i] == '\r' implies x[i + 1] == '\n' by {
                assert(s[i] == x[i] && s[i + 1] == x[i + 1]);
            }
            assert forall|i: int| 0 <= i < x.len() && #[trigger] x[i] == '\n' implies i > 0 && x[i - 1] == '\r' by {
                assert(s[i] == x[i]);
            }
        }
        if x.len() > 0 {
            assert(x.last() != '\r') by {
                assert(s[x.len() - 1] == x.last());
            }
        }
        lemma_join_crlf(x);
        assert(x + seq!['\r', '\n'] =~= s);
    } else {
        assert(body == s);
        lemma_join_crlf(s);
    }
}

// ---------------------------------------------------------------------------
// Laws of undo
// ---------------------------------------------------------------------------

/// Undoing and then redoing gives back the text that was undone, and redo
/// hands back the cursor that undo was given.
pub proof fn law_undo_then_redo(m: BufferModel, c1: (usize, usize), c2: (usize, usize))
    requires
        m.undo.len() > 0,
    ensures
        ({
            let (after, _) = m.after_undo(c1);
            let (back, cursor) = after.after_redo(c2);
            &&& back.lines == m.lines
            &&& cursor == Some(c1)
            &&& back.undo.len() == m.undo.len()
        }),
{
}

/// Redoing and then undoing gives back the text that was redone.
pub proof fn law_redo_then_undo(m: BufferModel, c1: (usize, usize), c2: (usize, usize))
    requires
        m.redo.len() > 0,
    ensures
        ({
            let (after, _) = m.after_redo(c1);
            let (back, cursor) = after.after_undo(c2);
            &&& back.lines == m.lines
            &&& cursor == Some(c1)
            &&& back.redo.len() == m.redo.len()
        }),
{
}

/// A change opened at `cursor` that changed the text is undone back to the
/// text it started from, and undo returns that cursor.
pub proof fn law_undo_restores_the_change(
    m: BufferModel,
    cursor: (usize, usize),
    edited: Seq<Seq<char>>,
    later: (usize, usize),
)
    requires
        m.pending is None,
        edited != m.lines,
    ensures
        ({
            let committed = m.after_begin(cursor).with_lines(edited).after_commit();
            let (undone, back) = committed.after_undo(later);
            &&& committed.undo.len() == m.undo.len() + 1
            &&& committed.redo.len() == 0
            &&& committed.modified
            &&& committed.revision == bumped(m.revision)
            &&& undone.lines == m.lines
            &&& back == Some(cursor)
        }),
{
}

/// A change that changed nothing is not an undo step: the undo history, the
/// revision and the modified flag stay as they were.
pub proof fn law_unchanged_change_is_no_step(m: BufferModel, cursor: (usize, usize))
    requires
        m.pending is None,
    ensures
        ({
            let committed = m.after_begin(cursor).after_commit();
            &&& committed.undo == m.undo
            &&& committed.redo == m.redo
            &&& committed.revision == m.revision
            &&& committed.modified == m.modified
            &&& committed.lines == m.lines
            &&& committed.pending is None
        }),
{
}

/// Opening, closing, undoing and redoing a change never leave a buffer
/// without a line.
pub proof fn law_undo_keeps_a_line(m: BufferModel, c: (usize, usize))
    requires
        m.wf(),
    ensures
        m.after_begin(c).wf(),
        m.after_commit().wf(),
        m.after_undo(c).0.wf(),
        m.after_redo(c).0.wf(),
{
    let (u, _) = m.after_undo(c);
    if m.undo.len() > 0 {
        assert forall|i: int| 0 <= i < u.redo.len() implies #[trigger] u.redo[i].lines.len() >= 1 by {
            if i < m.redo.len() {
                assert(u.redo[i] == m.redo[i]);
            }
        }
    }
    let (r, _) = m.after_redo(c);
    if m.redo.len() > 0 {
        assert forall|i: int| 0 <= i < r.undo.len() implies #[trigger] r.undo[i].lines.len() >= 1 by {
            if i < m.undo.len() {
                assert(r.undo[i] == m.undo[i]);
            }
        }
    }
    let k = m.after_commit();
    if let Some(p) = m.pending {
        if p.lines != m.lines {
            assert forall|i: int| 0 <= i < k.undo.len() implies #[trigger] k.undo[i].lines.len() >= 1 by {
                if i < m.undo.len() {
                    assert(k.undo[i] == m.undo[i]);
                }
            }
        }
    }
}

// ---------------------------------------------------------------------------
// The buffer
// ---------------------------------------------------------------------------

impl Buffer {
    pub fn empty() -> (b: Buffer)
        ensures
            b@.lines == seq![Seq::<char>::empty()],
            b@.path is None,
            !b@.modified,
            b@.revision == 0,
            b@.ending == LineEnding::Lf,
            b@.trailing_newline,
            b@.undo.len() == 0,
            b@.redo.len() == 0,
            b@.pending is None,
            b@.wf(),
    {
        let b = Buffer {
            lines: vec![Vec::new()],
            path: None,
            modified: false,
            revision: 0,
            ending: LineEnding::Lf,
            trailing_newline: true,
            undo: Vec::new(),
            redo: Vec::new(),
            pending: None,
        };
        assert(b@.lines =~= seq![Seq::<char>::empty()]);
        assert(b@.undo =~= Seq::<SnapshotModel>::empty());
        assert(b@.redo =~= Seq::<SnapshotModel>::empty());
        b
    }

    /// A buffer holding `text`, unmodified, at revision 1.
    pub fn from_text(text: &str) -> (b: Buffer)
        ensures
            b@.lines == parsed_lines(text@),
            b@.ending == detected_ending(text@),
            b@.trailing_newline == ends_with_newline(text@),
            b@.path is None,
            !b@.modified,
            b@.revision == 1,
            b@.undo.len() == 0,
            b@.redo.len() == 0,
            b@.pending is None,
            b@.wf(),
    {
        let mut buffer = Self::empty();
        buffer.set_text(text);
        buffer.modified = false;
        buffer
    }

    /// Opening what reading `path` came to. A path that does not exist yet
    /// starts a new, empty file; anything that is not a file to edit, and any
    /// other failure, is an error.
    pub fn open(path: &str, read: FileRead) -> (r: Result<Buffer, OpenError>)
        ensures
            match read {
                FileRead::Text(text) => r matches Ok(b) && b@.lines == parsed_lines(text@)
                    && b@.ending == detected_ending(text@) && b@.trailing_newline
                    == ends_with_newline(text@) && b@.revision == 1,
                FileRead::Missing => r matches Ok(b) && b@.lines == seq![Seq::<char>::empty()]
                    && b@.ending == LineEnding::Lf && b@.trailing_newline && b@.revision == 0,
                FileRead::NotAFile => r == Err::<Buffer, OpenError>(OpenError::NotAFile),
                FileRead::Failed(why) => r == Err::<Buffer, OpenError>(OpenError::Failed(why)),
            },
            r matches Ok(b) ==> {
                &&& b@.path == Some(path@)
                &&& !b@.modified
                &&& b@.undo.len() == 0
                &&& b@.redo.len() == 0
                &&& b@.pending is None
                &&& b@.wf()
            },
    {
        let mut buffer = match read {
            FileRead::Text(text) => Self::from_text(text.as_str()),
            FileRead::Missing => Self::empty(),
            FileRead::NotAFile => return Err(OpenError::NotAFile),
            FileRead::Failed(why) => return Err(OpenError::Failed(why)),
        };
        buffer.path = Some(path.to_owned());
        buffer.modified = false;
        Ok(buffer)
    }

    fn set_text(&mut self, text: &str)
        requires
            old(self)@.wf(),
        ensures
            final(self)@ == (BufferModel {
                lines: parsed_lines(text@),
                ending: detected_ending(text@),
                trailing_newline: ends_with_newline(text@),
                revision: bumped(old(self)@.revision),
                ..old(self)@
            }),
            final(self)@.wf(),
    {
        let chars = chars_of(text);
        let n = chars.len();
        // The line ending.
        let mut crlf = false;
        let mut i: usize = 0;
        while n > 0 && i < n - 1
            invariant
                n == chars@.len(),
                chars@ == text@,
                i <= n,
                n > 0 ==> i <= n - 1,
                crlf <==> exists|j: int| 0 <= j < i && #[trigger] crlf_at(text@, j),
            decreases n - i,
        {
            if chars[i] == '\r' && chars[i + 1] == '\n' {
                crlf = true;
                assert(crlf_at(text@, i as int));
            }
            i = i + 1;
        }
        assert(crlf <==> has_crlf(text@)) by {
            if has_crlf(text@) {
                let j = choose|j: int| 0 <= j < text@.len() - 1 && #[trigger] crlf_at(text@, j);
                assert(j < i);
            }
            if crlf {
                let j = choose|j: int| 0 <= j < i && #[trigger] crlf_at(text@, j);
                assert(0 <= j < text@.len() - 1);
            }
        }
        self.ending = if crlf {
            LineEnding::Crlf
        } else {
            LineEnding::Lf
        };
        self.trailing_newline = n == 0 || chars[n - 1] == '\n';
        // The body: one final newline, then one final carriage return, go.
        let mut end = n;
        if end > 0 && chars[end - 1] == '\n' {
            end = end - 1;
        }
        let ghost body1 = strip_last(text@, '\n');
        assert(body1 =~= text@.take(end as int));
        if end > 0 && chars[end - 1] == '\r' {
            end = end - 1;
        }
        let ghost body = strip_last(body1, '\r');
        assert(body =~= text@.take(end as int));
        let stripped = split_lines_upto(&chars, end);
        proof {
            assert(chars@.take(end as int) == body);
            lemma_split_nonempty(body);
        }
        self.lines = stripped;
        self.revision = if self.revision == u64::MAX {
            self.revision
        } else {
            self.revision + 1
        };
    }

    /// The whole text as it would be written.
    pub fn text(&self) -> (s: String)
        ensures
            s@ == rendered_text(self@.lines, self@.ending, self@.trailing_newline),
    {
        let sep = self.ending.chars();
        let mut out: Vec<char> = Vec::new();
        let mut index: usize = 0;
        while index < self.lines.len()
            invariant
                index <= self.lines@.len(),
                sep@ == newline_seq(self.ending),
                out@ == join_with(view_lines(self.lines@).take(index as int), sep@),
            decreases self.lines@.len() - index,
        {
            let ghost before = view_lines(self.lines@).take(index as int);
            let line = &self.lines[index];
            if index > 0 {
                let mut j: usize = 0;
                let ghost start = out@;
                while j < sep.len()
                    invariant
                        j <= sep@.len(),
                        out@ == start + sep@.take(j as int),
                    decreases sep@.len() - j,
                {
                    out.push(sep[j]);
                    j = j + 1;
                    assert(out@ =~= start + sep@.take(j as int));
                }
                assert(sep@.take(sep@.len() as int) =~= sep@);
            }
            let ghost mid = out@;
            let mut j: usize = 0;
            while j < line.len()
                invariant
                    j <= line@.len(),
                    out@ == mid + line@.take(j as int),
                decreases line@.len() - j,
            {
                out.push(line[j]);
                j = j + 1;
                assert(out@ =~= mid + line@.take(j as int));
            }
            proof {
                assert(line@.take(line@.len() as int) =~= line@);
                let after = view_lines(self.lines@).take(index + 1);
                assert(after.drop_last() =~= before);
                if index == 0 {
                    assert(out@ =~= join_with(after, sep@));
                } else {
                    assert(out@ =~= join_with(after, sep@));
                }
            }
            index = index + 1;
        }
        proof {
            assert(view_lines(self.lines@).take(self.lines@.len() as int) =~= view_lines(
                self.lines@,
            ));
        }
        if self.trailing_newline {
            let ghost start = out@;
            let mut j: usize = 0;
            while j < sep.len()
                invariant
                    j <= sep@.len(),
                    out@ == start + sep@.take(j as int),
                decreases sep@.len() - j,
            {
                out.push(sep[j]);
                j = j + 1;
                assert(out@ =~= start + sep@.take(j as int));
            }
            assert(sep@.take(sep@.len() as int) =~= sep@);
        } else {
            assert(out@ =~= out@ + Seq::<char>::empty());
        }
        string_of(out.as_slice())
    }

    pub fn path(&self) -> (p: Option<&str>)
        ensures
            match p {
                Some(s) => self@.path == Some(s@),
                None => self@.path is None,
            },
    {
        match &self.path {
            Some(p) => Some(p.as_str()),
            None => None,
        }
    }

    pub fn set_path(&mut self, path: String)
        ensures
            final(self)@ == (BufferModel { path: Some(path@), ..old(self)@ }),
    {
        self.path = Some(path);
    }

    /// The path, or `[No Name]` for a buffer that has none.
    pub fn name(&self) -> (s: String)
        ensures
            s@ == match self@.path {
                Some(p) => p,
                None => "[No Name]"@,
            },
    {
        match &self.path {
            Some(p) => p.clone(),
            None => {
                proof {
                    reveal_strlit("[No Name]");
                }
                "[No Name]".to_owned()
            },
        }
    }

    pub fn modified(&self) -> (m: bool)
        ensures
            m == self@.modified,
    {
        self.modified
    }

    pub fn revision(&self) -> (r: u64)
        ensures
            r == self@.revision,
    {
        self.revision
    }

    /// Where a write goes: the path asked for, else the buffer's own path;
    /// `None` when there is neither ("no file name").
    pub fn write_target(&self, to: Option<&str>) -> (t: Option<String>)
        ensures
            match to {
                Some(p) => t matches Some(s) && s@ == p@,
                None => match self@.path {
                    Some(p) => t matches Some(s) && s@ == p,
                    None => t is None,
                },
            },
    {
        match to {
            Some(p) => Some(p.to_owned()),
            None => match &self.path {
                Some(p) => Some(p.clone()),
                None => None,
            },
        }
    }

    /// The state after the text was written to `target`: the buffer is clean,
    /// and it takes `target` as its path when the write used its own path or
    /// it had none.
    pub fn mark_written(&mut self, target: String, explicit: bool)
        ensures
            final(self)@ == (BufferModel {
                modified: false,
                path: if !explicit || old(self)@.path is None {
                    Some(target@)
                } else {
                    old(self)@.path
                },
                ..old(self)@
            }),
    {
        if !explicit || self.path.is_none() {
            self.path = Some(target);
        }
        self.modified = false;
    }

    pub fn line_count(&self) -> (n: usize)
        ensures
            n == self@.lines.len(),
    {
        self.lines.len()
    }

    /// The characters of line `index`; nothing past the end.
    pub fn line(&self, index: usize) -> (l: &[char])
        ensures
            l@ == if index < self@.lines.len() {
                self@.lines[index as int]
            } else {
                Seq::<char>::empty()
            },
    {
        if index < self.lines.len() {
            self.lines[index].as_slice()
        } else {
            let empty: &[char] = &[];
            assert(empty@ =~= Seq::<char>::empty());
            empty
        }
    }

    pub fn line_text(&self, index: usize) -> (s: String)
        ensures
            s@ == if index < self@.lines.len() {
                self@.lines[index as int]
            } else {
                Seq::<char>::empty()
            },
    {
        string_of(self.line(index))
    }

    pub fn line_len(&self, index: usize) -> (n: usize)
        ensures
            n == if index < self@.lines.len() {
                self@.lines[index as int].len()
            } else {
                0
            },
    {
        if index < self.lines.len() {
            self.lines[index].len()
        } else {
            0
        }
    }

    /// The text of lines `[start, end)`, the end clamped to the buffer.
    pub fn lines_text(&self, start: usize, end: usize) -> (v: Vec<String>)
        ensures
            v@.map_values(|s: String| s@) == if start < min_int(
                end as int,
                self@.lines.len() as int,
            ) {
                self@.lines.subrange(start as int, min_int(end as int, self@.lines.len() as int))
            } else {
                Seq::<Seq<char>>::empty()
            },
    {
        let end = if end < self.lines.len() {
            end
        } else {
            self.lines.len()
        };
        let mut out: Vec<String> = Vec::new();
        if start >= end {
            assert(out@.map_values(|s: String| s@) =~= Seq::<Seq<char>>::empty());
            return out;
        }
        let mut i = start;
        while i < end
            invariant
                start <= i <= end,
                end <= self.lines@.len(),
                out@.len() == i - start,
                forall|j: int| 0 <= j < i - start ==> #[trigger] out@[j]@ == self.lines@[start + j]@,
            decreases end - i,
        {
            out.push(string_of(self.lines[i].as_slice()));
            i = i + 1;
        }
        assert(out@.map_values(|s: String| s@) =~= view_lines(self.lines@).subrange(
            start as int,
            end as int,
        ));
        out
    }

    // --- undo -------------------------------------------------------------
    /// Opens a change; idempotent within one operation, so a change that
    /// touches several lines is one undo step.
    pub fn begin_change(&mut self, cursor: (usize, usize))
        requires
            old(self)@.wf(),
        ensures
            final(self)@.wf(),
            final(self)@ == old(self)@.after_begin(cursor),
    {
        if self.pending.is_none() {
            self.pending = Some(Snapshot { lines: copy_lines(&self.lines), cursor });
        }
        proof {
            law_undo_keeps_a_line(old(self)@, cursor);
        }
    }

    /// Closes the change. Only a change that changed the text becomes an
    /// undo step, marks the buffer modified and advances the revision.
    pub fn commit_change(&mut self)
        requires
            old(self)@.wf(),
        ensures
            final(self)@.wf(),
            final(self)@ == old(self)@.after_commit(),
    {
        proof {
            law_undo_keeps_a_line(old(self)@, (0, 0));
        }
        let pending = self.pending.take();
        if let Some(snapshot) = pending {
            if !lines_equal(&snapshot.lines, &self.lines) {
                self.undo.push(snapshot);
                self.redo = Vec::new();
                self.modified = true;
                self.revision = if self.revision == u64::MAX {
                    self.revision
                } else {
                    self.revision + 1
                };
                assert(self@.undo =~= old(self)@.undo.push(snapshot.model()));
                assert(self@.redo =~= Seq::<SnapshotModel>::empty());
            }
        }
    }

    /// Drops an opened change without recording it.
    pub fn abort_change(&mut self)
        requires
            old(self)@.wf(),
        ensures
            final(self)@.wf(),
            final(self)@ == (BufferModel { pending: None, ..old(self)@ }),
    {
        self.pending = None;
    }

    pub fn undo(&mut self, cursor: (usize, usize)) -> (r: Option<(usize, usize)>)
        requires
            old(self)@.wf(),
        ensures
            final(self)@.wf(),
            (final(self)@, r) == old(self)@.after_undo(cursor),
    {
        proof {
            law_undo_keeps_a_line(old(self)@, cursor);
        }
        let popped = self.undo.pop();
        match popped {
            None => None,
            Some(snapshot) => {
                let mut current = snapshot.lines;
                std::mem::swap(&mut current, &mut self.lines);
                let saved = Snapshot { lines: current, cursor };
                self.redo.push(saved);
                self.modified = true;
                self.revision = if self.revision == u64::MAX {
                    self.revision
                } else {
                    self.revision + 1
                };
                assert(self@.undo =~= old(self)@.undo.drop_last());
                assert(self@.redo =~= old(self)@.redo.push(
                    SnapshotModel { lines: old(self)@.lines, cursor },
                ));
                Some(snapshot.cursor)
            },
        }
    }

    pub fn redo(&mut self, cursor: (usize, usize)) -> (r: Option<(usize, usize)>)
        requires
            old(self)@.wf(),
        ensures
            final(self)@.wf(),
            (final(self)@, r) == old(self)@.after_redo(cursor),
    {
        proof {
            law_undo_keeps_a_line(old(self)@, cursor);
        }
        let popped = self.redo.pop();
        match popped {
            None => None,
            Some(snapshot) => {
                let mut current = snapshot.lines;
                std::mem::swap(&mut current, &mut self.lines);
                let saved = Snapshot { lines: current, cursor };
                self.undo.push(saved);
                self.modified = true;
                self.revision = if self.revision == u64::MAX {
                    self.revision
                } else {
                    self.revision + 1
                };
                assert(self@.redo =~= old(self)@.redo.drop_last());
                assert(self@.undo =~= old(self)@.undo.push(
                    SnapshotModel { lines: old(self)@.lines, cursor },
                ));
                Some(snapshot.cursor)
            },
        }
    }

    // --- editing ----------------------------------------------------------
    pub fn insert_char(&mut self, line: usize, col: usize, ch: char)
        requires
            old(self)@.wf(),
        ensures
            final(self)@ == old(self)@.with_lines(
                old(self)@.lines.update(
                    clamp_line(old(self)@, line),
                    inserted(old(self)@.lines[clamp_line(old(self)@, line)], col as int, seq![ch]),
                ),
            ),
            final(self)@.wf(),
    {
        let l = if line < self.lines.len() {
            line
        } else {
            self.lines.len() - 1
        };
        let len = self.lines[l].len();
        let c = if col < len {
            col
        } else {
            len
        };
        let ghost row = self.lines@[l as int]@;
        self.lines[l].insert(c, ch);
        proof {
            assert(self.lines@[l as int]@ =~= inserted(row, col as int, seq![ch]));
            assert(view_lines(self.lines@) =~= old(self)@.lines.update(
                l as int,
                inserted(row, col as int, seq![ch]),
            ));
        }
    }

    pub fn insert_str(&mut self, line: usize, col: usize, text: &str)
        requires
            old(self)@.wf(),
        ensures
            final(self)@ == old(self)@.with_lines(
                old(self)@.lines.update(
                    clamp_line(old(self)@, line),
                    inserted(old(self)@.lines[clamp_line(old(self)@, line)], col as int, text@),
                ),
            ),
            final(self)@.wf(),
    {
        let chars = chars_of(text);
        let l = if line < self.lines.len() { line } else { self.lines.len() - 1 };
        let ghost row = old(self)@.lines[l as int];
        let mut new_row: Vec<char> = Vec::new();
        {
            let current = &self.lines[l];
            assert(current@ == row);
            let at = if col < current.len() { col } else { current.len() };
            let mut i: usize = 0;
            while i < at
                invariant
                    i <= at <= current@.len(),
                    new_row@ == current@.take(i as int),
                decreases at - i,
            {
                new_row.push(current[i]);
                i = i + 1;
                assert(new_row@ =~= current@.take(i as int));
            }
            let mut k: usize = 0;
            while k < chars.len()
                invariant
                    k <= chars@.len(),
                    new_row@ == current@.take(at as int) + chars@.take(k as int),
                decreases chars@.len() - k,
            {
                new_row.push(chars[k]);
                k = k + 1;
                assert(new_row@ =~= current@.take(at as int) + chars@.take(k as int));
            }
            let mut j = at;
            while j < current.len()
                invariant
                    at <= j <= current@.len(),
                    new_row@ == current@.take(at as int) + chars@ + current@.subrange(at as int, j as int),
                decreases current@.len() - j,
            {
                new_row.push(current[j]);
                j = j + 1;
                assert(new_row@ =~= current@.take(at as int) + chars@ + current@.subrange(at as int, j as int));
            }
            proof {
                assert(chars@.take(chars@.len() as int) =~= chars@);
                assert(current@.subrange(at as int, current@.len() as int) =~= current@.skip(at as int));
                assert(new_row@ =~= inserted(row, col as int, text@));
            }
        }
        self.replace_line(l, new_row);
    }

    pub fn delete_range_in_line(&mut self, line: usize, from: usize, to: usize) -> (s: String)
        requires
            old(self)@.wf(),
        ensures
            ({
                let m = old(self)@;
                if line < m.lines.len() && min_int(from as int, m.lines[line as int].len() as int)
                    < min_int(to as int, m.lines[line as int].len() as int) {
                    let row = m.lines[line as int];
                    let f = min_int(from as int, row.len() as int);
                    let t = min_int(to as int, row.len() as int);
                    &&& s@ == row.subrange(f, t)
                    &&& final(self)@ == m.with_lines(m.lines.update(line as int, row.take(f) + row.skip(t)))
                } else {
                    &&& s@ == Seq::<char>::empty()
                    &&& final(self)@ == m
                }
            }),
            final(self)@.wf(),
    {
        if line >= self.lines.len() {
            let s = String::new();
            return s;
        }
        let len = self.lines[line].len();
        let f = if from < len {
            from
        } else {
            len
        };
        let t = if to < len {
            to
        } else {
            len
        };
        if f >= t {
            return String::new();
        }
        let ghost row = self.lines@[line as int]@;
        let mut removed: Vec<char> = Vec::new();
        let mut kept: Vec<char> = Vec::new();
        let mut i: usize = 0;
        while i < len
            invariant
                len == row.len(),
                f < t <= len,
                line < self.lines@.len(),
                self.lines@[line as int]@ == row,
                i <= len,
                kept@ == row.take(min_int(i as int, f as int)) + row.subrange(
                    min_int(i as int, t as int),
                    if i < t { t as int } else { i as int },
                ).take(0) + (if i > t { row.subrange(t as int, i as int) } else { Seq::<char>::empty() }),
                removed@ == if i <= f {
                    Seq::<char>::empty()
                } else {
                    row.subrange(f as int, min_int(i as int, t as int))
                },
            decreases len - i,
        {
            let c = self.lines[line][i];
            if i < f || i >= t {
                kept.push(c);
            } else {
                removed.push(c);
            }
            i = i + 1;
            proof {
                assert(kept@ =~= row.take(min_int(i as int, f as int)) + row.subrange(
                    min_int(i as int, t as int),
                    if i < t { t as int } else { i as int },
                ).take(0) + (if i > t { row.subrange(t as int, i as int) } else { Seq::<char>::empty() }));
                assert(removed@ =~= if i <= f {
                    Seq::<char>::empty()
                } else {
                    row.subrange(f as int, min_int(i as int, t as int))
                });
            }
        }
        proof {
            assert(kept@ =~= row.take(f as int) + row.skip(t as int));
        }
        self.lines[line] = kept;
        proof {
            assert(view_lines(self.lines@) =~= old(self)@.lines.update(
                line as int,
                row.take(f as int) + row.skip(t as int),
            ));
        }
        string_of(removed.as_slice())
    }

    /// Breaks line `line` before character `col`.
    pub fn split_line(&mut self, line: usize, col: usize)
        requires
            old(self)@.wf(),
            line < old(self)@.lines.len(),
        ensures
            ({
                let m = old(self)@;
                let row = m.lines[line as int];
                let c = min_int(col as int, row.len() as int);
                final(self)@ == m.with_lines(
                    m.lines.update(line as int, row.take(c)).insert(line + 1, row.skip(c)),
                )
            }),
            final(self)@.wf(),
    {
        let count = self.lines.len();
        let len = self.lines[line].len();
        let c = if col < len {
            col
        } else {
            len
        };
        let tail = self.lines[line].split_off(c);
        self.lines.insert(line + 1, tail);
        proof {
            let m = old(self)@;
            let row = m.lines[line as int];
            assert(view_lines(self.lines@) =~= m.lines.update(line as int, row.take(c as int)).insert(
                line + 1,
                row.skip(c as int),
            ));
        }
    }

    /// Appends line `line + 1` to line `line`, returning the column where the
    /// join happened. With `spaced`, vim's `J`: the joined line's indentation
    /// and the first line's trailing blanks become one space.
    pub fn join_lines(&mut self, line: usize, spaced: bool) -> (r: Option<usize>)
        requires
            old(self)@.wf(),
        ensures
            ({
                let m = old(self)@;
                if line + 1 >= m.lines.len() {
                    r is None && final(self)@ == m
                } else {
                    let row = m.lines[line as int];
                    let next = m.lines[line + 1];
                    if spaced {
                        &&& r == Some((row.len() - trailing_ws(row)) as usize)
                        &&& final(self)@ == m.with_lines(
                            m.lines.update(line as int, spaced_join(row, next)).remove(line + 1),
                        )
                    } else {
                        &&& r == Some(row.len() as usize)
                        &&& final(self)@ == m.with_lines(
                            m.lines.update(line as int, row + next).remove(line + 1),
                        )
                    }
                }
            }),
            final(self)@.wf(),
    {
        if line >= self.lines.len() - 1 {
            return None;
        }
        let ghost m = old(self)@;
        let ghost row = m.lines[line as int];
        let ghost next_s = m.lines[line + 1];
        let next = self.lines.remove(line + 1);
        let (joined, at) = {
            let cur = &self.lines[line];
            let (skip_front, keep_back) = if spaced {
                (count_leading_ws(next.as_slice()), cur.len() - count_trailing_ws(cur.as_slice()))
            } else {
                (0, cur.len())
            };
            proof {
                lemma_leading_ws_bound(next_s);
            }
            let mut out: Vec<char> = Vec::new();
            let mut i: usize = 0;
            while i < keep_back
                invariant
                    keep_back <= cur@.len(),
                    i <= keep_back,
                    out@ == cur@.take(i as int),
                decreases keep_back - i,
            {
                out.push(cur[i]);
                i = i + 1;
                assert(out@ =~= cur@.take(i as int));
            }
            if spaced && keep_back > 0 && skip_front < next.len() {
                out.push(' ');
            }
            let ghost mid = out@;
            let mut j: usize = skip_front;
            while j < next.len()
                invariant
                    skip_front <= j <= next@.len() || (skip_front > next@.len() && j == skip_front),
                    out@ == mid + next@.subrange(skip_front as int, if j >= skip_front { j as int } else { skip_front as int }),
                decreases next@.len() - j,
            {
                out.push(next[j]);
                j = j + 1;
                assert(out@ =~= mid + next@.subrange(skip_front as int, j as int));
            }
            proof {
                if spaced {
                    assert(out@ =~= spaced_join(row, next_s));
                } else {
                    assert(out@ =~= row + next_s);
                }
            }
            (out, keep_back)
        };
        self.lines[line] = joined;
        proof {
            if spaced {
                assert(view_lines(self.lines@) =~= m.lines.update(line as int, spaced_join(row, next_s)).remove(line + 1));
            } else {
                assert(view_lines(self.lines@) =~= m.lines.update(line as int, row + next_s).remove(line + 1));
            }
        }
        Some(at)
    }

    /// Inserts a line before `index` (after the last line when past the end).
    pub fn insert_line(&mut self, index: usize, text: Vec<char>)
        requires
            old(self)@.wf(),
        ensures
            final(self)@ == old(self)@.with_lines(
                old(self)@.lines.insert(
                    min_int(index as int, old(self)@.lines.len() as int),
                    text@,
                ),
            ),
            final(self)@.wf(),
    {
        let index = if index < self.lines.len() {
            index
        } else {
            self.lines.len()
        };
        let ghost t = text@;
        self.lines.insert(index, text);
        assert(view_lines(self.lines@) =~= old(self)@.lines.insert(index as int, t));
    }

    /// Removes `count` lines from `from` (fewer at the end of the buffer) and
    /// returns their text. Removing every line leaves one empty line.
    pub fn remove_lines(&mut self, from: usize, count: usize) -> (removed: Vec<String>)
        requires
            old(self)@.wf(),
        ensures
            ({
                let m = old(self)@;
                if from >= m.lines.len() || count == 0 {
                    removed@.len() == 0 && final(self)@ == m
                } else {
                    let to = min_int(from + count, m.lines.len() as int);
                    &&& removed@.map_values(|s: String| s@) == m.lines.subrange(from as int, to)
                    &&& final(self)@ == m.with_lines(
                        at_least_one(m.lines.take(from as int) + m.lines.skip(to)),
                    )
                }
            }),
            final(self)@.wf(),
    {
        if from >= self.lines.len() || count == 0 {
            return Vec::new();
        }
        let to = if count < self.lines.len() - from {
            from + count
        } else {
            self.lines.len()
        };
        let removed = self.lines_text(from, to);
        let empty: Vec<Vec<char>> = Vec::new();
        let mut rest = splice_vec(&self.lines, from, to, &empty);
        if rest.len() == 0 {
            rest.push(Vec::new());
        }
        proof {
            let m = old(self)@;
            assert(view_lines(empty@) =~= Seq::<Seq<char>>::empty());
            assert(view_lines(rest@) =~= at_least_one(m.lines.take(from as int) + m.lines.skip(to as int)));
        }
        self.lines = rest;
        removed
    }

    /// Replaces the text of line `index`; nothing happens past the end.
    pub fn replace_line(&mut self, index: usize, text: Vec<char>)
        requires
            old(self)@.wf(),
        ensures
            final(self)@ == if index < old(self)@.lines.len() {
                old(self)@.with_lines(old(self)@.lines.update(index as int, text@))
            } else {
                old(self)@
            },
            final(self)@.wf(),
    {
        if index < self.lines.len() {
            let ghost t = text@;
            self.lines[index] = text;
            assert(view_lines(self.lines@) =~= old(self)@.lines.update(index as int, t));
        }
    }

    /// Replaces the whole text. This is a change: the buffer becomes modified
    /// and its revision advances.
    pub fn set_lines(&mut self, lines: Vec<String>)
        requires
            old(self)@.wf(),
        ensures
            final(self)@ == (BufferModel {
                lines: at_least_one(lines@.map_values(|s: String| s@)),
                modified: true,
                revision: bumped(old(self)@.revision),
                ..old(self)@
            }),
            final(self)@.wf(),
    {
        let mut new_lines = strings_to_lines(lines);
        if new_lines.len() == 0 {
            new_lines.push(Vec::new());
        }
        self.lines = new_lines;
        assert(view_lines(self.lines@) =~= at_least_one(lines@.map_values(|s: String| s@)));
        self.modified = true;
        self.revision = if self.revision == u64::MAX {
            self.revision
        } else {
            self.revision + 1
        };
    }

    /// Replaces lines `[start, end)` with `replacement`, the shape
    /// `nvim_buf_set_lines` speaks: `start` is clamped to the buffer and `end`
    /// to `[start, line count]`.
    pub fn splice_lines(&mut self, start: usize, end: usize, replacement: Vec<String>)
        requires
            old(self)@.wf(),
        ensures
            ({
                let m = old(self)@;
                let s = min_int(start as int, m.lines.len() as int);
                let e = if end < s { s } else { min_int(end as int, m.lines.len() as int) };
                final(self)@ == (BufferModel {
                    lines: at_least_one(
                        m.lines.take(s) + replacement@.map_values(|x: String| x@) + m.lines.skip(e),
                    ),
                    modified: true,
                    revision: bumped(m.revision),
                    ..m
                })
            }),
            final(self)@.wf(),
    {
        let len = self.lines.len();
        let s = if start < len {
            start
        } else {
            len
        };
        let e = if end < s {
            s
        } else if end < len {
            end
        } else {
            len
        };
        let mid = strings_to_lines(replacement);
        let mut new_lines = splice_vec(&self.lines, s, e, &mid);
        if new_lines.len() == 0 {
            new_lines.push(Vec::new());
        }
        proof {
            let m = old(self)@;
            assert(view_lines(new_lines@) =~= at_least_one(
                m.lines.take(s as int) + replacement@.map_values(|x: String| x@) + m.lines.skip(e as int),
            ));
        }
        self.lines = new_lines;
        self.modified = true;
        self.revision = if self.revision == u64::MAX {
            self.revision
        } else {
            self.revision + 1
        };
    }
}

} // verus!
