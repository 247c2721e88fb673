//! Line diff between a HEAD blob and the current buffer text.
//!
//! The reference is a blob and the other side is the buffer, edits that have
//! not been written included. The diff is a longest common subsequence of the
//! lines, and its runs of deletions and additions become the sign column's
//! hunks.

use vstd::prelude::*;
use crate::editcore::buffer::{split_lines_upto, split_newlines, strip_last, view_lines};
use crate::editcore::vcs::{Hunk, SignKind};
use crate::text::{chars_of, string_of};

verus! {

/// One step of an edit script: a line both sides keep, a line only the old
/// side has, or a line only the new side has.
#[derive(Clone, Copy, Debug, PartialEq, Eq, Structural)]
pub enum Op {
    Equal,
    Delete,
    Add,
}

pub open spec fn texts(v: Seq<String>) -> Seq<Seq<char>> {
    v.map_values(|s: String| s@)
}

/// The length of a longest common subsequence of `a[i..]` and `b[j..]`.
pub open spec fn lcs(a: Seq<Seq<char>>, b: Seq<Seq<char>>, i: int, j: int) -> nat
    decreases a.len() - i + b.len() - j,
{
    if i < 0 || j < 0 || i >= a.len() || j >= b.len() {
        0
    } else if a[i] == b[j] {
        1 + lcs(a, b, i + 1, j + 1)
    } else {
        let down = lcs(a, b, i + 1, j);
        let right = lcs(a, b, i, j + 1);
        if down >= right { down } else { right }
    }
}

/// The edit script from `a[i..]` to `b[j..]`: a kept line where the two lines
/// are equal, else a deletion where that keeps as long a common subsequence
/// as an addition would, else an addition; what is left on one side at the
/// end is deleted, then what is left on the other is added.
pub open spec fn script(a: Seq<Seq<char>>, b: Seq<Seq<char>>, i: int, j: int) -> Seq<Op>
    decreases a.len() - i + b.len() - j,
{
    if i < 0 || j < 0 {
        Seq::empty()
    } else if i >= a.len() {
        Seq::new((if j < b.len() { b.len() - j } else { 0 }) as nat, |k: int| Op::Add)
    } else if j >= b.len() {
        Seq::new((a.len() - i) as nat, |k: int| Op::Delete)
    } else if a[i] == b[j] {
        seq![Op::Equal] + script(a, b, i + 1, j + 1)
    } else if lcs(a, b, i + 1, j) >= lcs(a, b, i, j + 1) {
        seq![Op::Delete] + script(a, b, i + 1, j)
    } else {
        seq![Op::Add] + script(a, b, i, j + 1)
    }
}

/// The end of the run of changes that starts at `k`.
pub open spec fn run_end(ops: Seq<Op>, k: int) -> int
    decreases ops.len() - k,
{
    if k < 0 || k >= ops.len() || ops[k] is Equal {
        k
    } else {
        run_end(ops, k + 1)
    }
}

/// How many of `ops[from..to]` are `op`.
pub open spec fn count(ops: Seq<Op>, from: int, to: int, op: Op) -> nat
    decreases to - from,
{
    if to <= from {
        0
    } else {
        count(ops, from, to - 1, op) + if ops[to - 1] == op { 1nat } else { 0nat }
    }
}

pub open spec fn kind_of(deleted: nat, added: nat) -> SignKind {
    if deleted == 0 {
        SignKind::Add
    } else if added == 0 {
        SignKind::Delete
    } else {
        SignKind::Change
    }
}

pub proof fn lemma_run_end(ops: Seq<Op>, k: int)
    requires
        0 <= k,
    ensures
        k <= run_end(ops, k),
        run_end(ops, k) <= ops.len() || run_end(ops, k) == k,
        k < ops.len() && !(ops[k] is Equal) ==> k < run_end(ops, k),
    decreases ops.len() - k,
{
    if k < ops.len() && !(ops[k] is Equal) {
        lemma_run_end(ops, k + 1);
    }
}

/// The hunks of `ops[k..]`, with `old_line` and `new_line` the lines the
/// script has reached on each side: each maximal run of deletions and
/// additions is one hunk.
pub open spec fn hunks_from(ops: Seq<Op>, k: int, old_line: int, new_line: int) -> Seq<Hunk>
    decreases ops.len() - k,
{
    if k < 0 || k >= ops.len() {
        Seq::empty()
    } else if ops[k] is Equal {
        hunks_from(ops, k + 1, old_line + 1, new_line + 1)
    } else {
        let e = run_end(ops, k);
        let d = count(ops, k, e, Op::Delete);
        let a = count(ops, k, e, Op::Add);
        let h = Hunk {
            old_start: old_line as usize,
            old_len: d as usize,
            new_start: new_line as usize,
            new_len: a as usize,
            kind: kind_of(d, a),
        };
        proof {
            lemma_run_end(ops, k);
        }
        seq![h] + hunks_from(ops, e, old_line + d, new_line + a)
    }
}

/// The old lines deleted above the first new line.
pub open spec fn deleted_above(hs: Seq<Hunk>) -> int
    decreases hs.len(),
{
    if hs.len() == 0 {
        0
    } else {
        let h = hs.last();
        deleted_above(hs.drop_last()) + if h.old_len > 0 && h.new_len == 0 && h.new_start == 0 {
            h.old_len as int
        } else {
            0
        }
    }
}

pub open spec fn diff_hunks(a: Seq<Seq<char>>, b: Seq<Seq<char>>) -> Seq<Hunk> {
    hunks_from(script(a, b, 0, 0), 0, 0, 0)
}

/// The lines of a blob: one final newline ends the last line rather than
/// starting another, an empty blob has none, and each line loses one
/// trailing carriage return.
pub open spec fn blob_lines(s: Seq<char>) -> Seq<Seq<char>> {
    let body = strip_last(s, '\n');
    if body.len() == 0 {
        Seq::empty()
    } else {
        split_newlines(body).map_values(|l: Seq<char>| strip_last(l, '\r'))
    }
}

proof fn lemma_lcs_bound(a: Seq<Seq<char>>, b: Seq<Seq<char>>, i: int, j: int)
    requires
        0 <= i <= a.len(),
        0 <= j <= b.len(),
    ensures
        lcs(a, b, i, j) <= a.len() - i,
    decreases a.len() - i + b.len() - j,
{
    if i < a.len() && j < b.len() {
        lemma_lcs_bound(a, b, i + 1, j + 1);
        lemma_lcs_bound(a, b, i + 1, j);
        lemma_lcs_bound(a, b, i, j + 1);
    }
}

fn zeros(n: usize) -> (v: Vec<usize>)
    ensures
        v@.len() == n,
        forall|i: int| 0 <= i < n ==> #[trigger] v@[i] == 0,
{
    let mut v: Vec<usize> = Vec::new();
    while v.len() < n
        invariant
            v@.len() <= n,
            forall|i: int| 0 <= i < v@.len() ==> #[trigger] v@[i] == 0,
        decreases n - v@.len(),
    {
        v.push(0);
    }
    v
}

/// `table[k][q]` holds the common-subsequence length from line
/// `rows - 1 - k` of the old side and line `q` of the new side.
pub open spec fn table_holds(table: Seq<Vec<usize>>, a: Seq<Seq<char>>, b: Seq<Seq<char>>) -> bool {
    &&& forall|k: int| 0 <= k < table.len() ==> (#[trigger] table[k])@.len() == b.len()
    &&& forall|k: int, q: int| 0 <= k < table.len() && 0 <= q < b.len()
        ==> #[trigger] table[k]@[q] == lcs(a, b, a.len() - 1 - k, q)
}

/// The common-subsequence length from line `i` of old and line `j` of new,
/// read from a table that holds the rows from `i` on.
fn cell(table: &Vec<Vec<usize>>, rows: usize, cols: usize, i: usize, j: usize, Ghost(a): Ghost<Seq<Seq<char>>>, Ghost(b): Ghost<Seq<Seq<char>>>) -> (v: usize)
    requires
        rows == a.len(),
        cols == b.len(),
        i <= rows,
        j <= cols,
        rows - i <= table@.len(),
        table_holds(table@, a, b),
    ensures
        v == lcs(a, b, i as int, j as int),
{
    if i == rows || j == cols {
        0
    } else {
        table[rows - 1 - i][j]
    }
}

/// The edit script from `old` to `new`.
fn diff_ops(old: &[String], new: &[String]) -> (ops: Vec<Op>)
    ensures
        ops@ == script(texts(old@), texts(new@), 0, 0),
{
    let ghost a = texts(old@);
    let ghost b = texts(new@);
    let rows = old.len();
    let cols = new.len();
    let mut table: Vec<Vec<usize>> = Vec::new();
    let mut i = rows;
    while i > 0
        invariant
            i <= rows,
            rows == a.len(),
            cols == b.len(),
            a == texts(old@),
            b == texts(new@),
            table@.len() == rows - i,
            table_holds(table@, a, b),
        decreases i,
    {
        let r = i - 1;
        let mut row = zeros(cols);
        let mut c = cols;
        while c > 0
            invariant
                c <= cols,
                r < rows,
                i == r + 1,
                rows == a.len(),
                cols == b.len(),
                a == texts(old@),
                b == texts(new@),
                table@.len() == rows - i,
                table_holds(table@, a, b),
                row@.len() == cols,
                forall|x: int| c <= x < cols ==> #[trigger] row@[x] == lcs(a, b, r as int, x),
            decreases c,
        {
            let col = c - 1;
            proof {
                lemma_lcs_bound(a, b, r + 1, col + 1);
                assert(a[r as int] == old@[r as int]@);
                assert(b[col as int] == new@[col as int]@);
            }
            let value = if old[r] == new[col] {
                let diag = cell(&table, rows, cols, i, col + 1, Ghost(a), Ghost(b));
                assert(a[r as int] == b[col as int]);
                assert(lcs(a, b, r as int, col as int) == 1 + lcs(a, b, r + 1, col + 1));
                diag + 1
            } else {
                let down = cell(&table, rows, cols, i, col, Ghost(a), Ghost(b));
                let right = if col + 1 == cols { 0 } else { row[col + 1] };
                assert(right == lcs(a, b, r as int, col + 1));
                assert(down == lcs(a, b, r + 1, col as int));
                if down >= right { down } else { right }
            };
            assert(value == lcs(a, b, r as int, col as int));
            let ghost prev = row@;
            row[col] = value;
            assert(row@ == prev.update(col as int, value));
            c = col;
        }
        let ghost before = table@;
        table.push(row);
        proof {
            assert forall|k: int, q: int| 0 <= k < table@.len() && 0 <= q < b.len()
                implies #[trigger] table@[k]@[q] == lcs(a, b, a.len() - 1 - k, q) by {
                if k < before.len() {
                    assert(table@[k] == before[k]);
                }
            }
        }
        i = r;
    }
    // Walk the table from the top left.
    let mut out: Vec<Op> = Vec::new();
    let mut i: usize = 0;
    let mut j: usize = 0;
    while i < rows && j < cols
        invariant
            i <= rows,
            j <= cols,
            rows == a.len(),
            cols == b.len(),
            a == texts(old@),
            b == texts(new@),
            table@.len() == rows,
            table_holds(table@, a, b),
            out@ + script(a, b, i as int, j as int) == script(a, b, 0, 0),
        decreases rows - i + cols - j,
    {
        proof {
            assert(a[i as int] == old@[i as int]@);
            assert(b[j as int] == new@[j as int]@);
        }
        let ghost before = out@;
        if old[i] == new[j] {
            out.push(Op::Equal);
            proof {
                assert(out@ + script(a, b, i + 1, j + 1) =~= before + script(a, b, i as int, j as int));
            }
            i = i + 1;
            j = j + 1;
        } else {
            let down = cell(&table, rows, cols, i + 1, j, Ghost(a), Ghost(b));
            let right = cell(&table, rows, cols, i, j + 1, Ghost(a), Ghost(b));
            if down >= right {
                out.push(Op::Delete);
                proof {
                    assert(out@ + script(a, b, i + 1, j as int) =~= before + script(a, b, i as int, j as int));
                }
                i = i + 1;
            } else {
                out.push(Op::Add);
                proof {
                    assert(out@ + script(a, b, i as int, j + 1) =~= before + script(a, b, i as int, j as int));
                }
                j = j + 1;
            }
        }
    }
    while i < rows
        invariant
            i <= rows,
            j <= cols,
            rows == a.len(),
            cols == b.len(),
            j == cols || i == rows,
            out@ + script(a, b, i as int, j as int) == script(a, b, 0, 0),
        decreases rows - i,
    {
        let ghost before = out@;
        out.push(Op::Delete);
        proof {
            assert(j == cols);
            assert(out@ + script(a, b, i + 1, j as int) =~= before + script(a, b, i as int, j as int));
        }
        i = i + 1;
    }
    while j < cols
        invariant
            i == rows,
            j <= cols,
            rows == a.len(),
            cols == b.len(),
            out@ + script(a, b, i as int, j as int) == script(a, b, 0, 0),
        decreases cols - j,
    {
        let ghost before = out@;
        out.push(Op::Add);
        proof {
            assert(out@ + script(a, b, i as int, j + 1) =~= before + script(a, b, i as int, j as int));
        }
        j = j + 1;
    }
    proof {
        assert(script(a, b, i as int, j as int) =~= Seq::<Op>::empty());
        assert(out@ =~= out@ + script(a, b, i as int, j as int));
    }
    out
}

proof fn lemma_count_step(ops: Seq<Op>, from: int, to: int)
    requires
        from <= to,
    ensures
        count(ops, from, to + 1, Op::Delete) == count(ops, from, to, Op::Delete) + if ops[to] == Op::Delete { 1nat } else { 0nat },
        count(ops, from, to + 1, Op::Add) == count(ops, from, to, Op::Add) + if ops[to] == Op::Add { 1nat } else { 0nat },
{
}

proof fn lemma_count_bound(ops: Seq<Op>, from: int, to: int, op: Op)
    requires
        from <= to,
    ensures
        count(ops, from, to, op) <= to - from,
    decreases to - from,
{
    if from < to {
        lemma_count_bound(ops, from, to - 1, op);
    }
}

proof fn lemma_count_split(ops: Seq<Op>, from: int, to: int)
    requires
        from <= to,
        forall|x: int| from <= x < to ==> !(#[trigger] ops[x] is Equal),
    ensures
        count(ops, from, to, Op::Delete) + count(ops, from, to, Op::Add) == to - from,
    decreases to - from,
{
    if from < to {
        lemma_count_split(ops, from, to - 1);
    }
}

proof fn lemma_run_end_step(ops: Seq<Op>, start: int, k: int)
    requires
        0 <= start <= k,
        k < ops.len(),
        !(ops[k] is Equal),
        run_end(ops, start) == run_end(ops, k),
    ensures
        run_end(ops, start) == run_end(ops, k + 1),
{
}

/// The sign-column hunks between `old` and `new`, and how many old lines
/// were deleted above the first new line.
pub fn hunks(old: &[String], new: &[String]) -> (r: (Vec<Hunk>, usize))
    ensures
        r.0@ == diff_hunks(texts(old@), texts(new@)),
        r.1 == deleted_above(r.0@),
{
    let ops = diff_ops(old, new);
    let ghost s = ops@;
    let mut out: Vec<Hunk> = Vec::new();
    let mut old_line: usize = 0;
    let mut new_line: usize = 0;
    let mut index: usize = 0;
    let mut deleted: usize = 0;
    proof {
        assert(out@ + hunks_from(s, 0, 0, 0) =~= hunks_from(s, 0, 0, 0));
    }
    while index < ops.len()
        invariant
            s == ops@,
            index <= ops@.len(),
            old_line <= index,
            new_line <= index,
            deleted <= old_line,
            deleted == deleted_above(out@),
            out@ + hunks_from(s, index as int, old_line as int, new_line as int) == hunks_from(s, 0, 0, 0),
        decreases ops@.len() - index,
    {
        if ops[index] == Op::Equal {
            old_line = old_line + 1;
            new_line = new_line + 1;
            index = index + 1;
        } else {
            let old_start = old_line;
            let new_start = new_line;
            let start = index;
            let mut old_len: usize = 0;
            let mut new_len: usize = 0;
            proof {
                lemma_run_end(s, start as int);
            }
            while index < ops.len() && ops[index] != Op::Equal
                invariant
                    s == ops@,
                    start <= index <= ops@.len(),
                    start < ops@.len(),
                    !(s[start as int] is Equal),
                    run_end(s, start as int) == run_end(s, index as int),
                    old_len == count(s, start as int, index as int, Op::Delete),
                    new_len == count(s, start as int, index as int, Op::Add),
                    old_len + new_len == index - start,
                    old_line == old_start + old_len,
                    new_line == new_start + new_len,
                    old_start <= start,
                    new_start <= start,
                decreases ops@.len() - index,
            {
                proof {
                    lemma_count_step(s, start as int, index as int);
                    lemma_run_end_step(s, start as int, index as int);
                }
                match ops[index] {
                    Op::Delete => {
                        old_len = old_len + 1;
                        old_line = old_line + 1;
                    },
                    _ => {
                        new_len = new_len + 1;
                        new_line = new_line + 1;
                    },
                }
                index = index + 1;
            }
            proof {
                assert(run_end(s, index as int) == index);
            }
            if old_len > 0 && new_len == 0 && new_start == 0 {
                deleted = deleted + old_len;
            }
            let kind = if old_len == 0 {
                SignKind::Add
            } else if new_len == 0 {
                SignKind::Delete
            } else {
                SignKind::Change
            };
            let h = Hunk { old_start, old_len, new_start, new_len, kind };
            let ghost before = out@;
            out.push(h);
            proof {
                assert(out@.drop_last() == before);
                assert(out@ + hunks_from(s, index as int, old_line as int, new_line as int)
                    =~= before + hunks_from(s, start as int, old_start as int, new_start as int));
            }
        }
    }
    proof {
        assert(out@ =~= out@ + hunks_from(s, index as int, old_line as int, new_line as int));
    }
    (out, deleted)
}

/// The lines of the blob `head` as strings.
fn blob_strings(head: &str) -> (v: Vec<String>)
    ensures
        texts(v@) == blob_lines(head@),
{
    let chars = chars_of(head);
    let mut end = chars.len();
    if end > 0 && chars[end - 1] == '\n' {
        end = end - 1;
    }
    proof {
        assert(strip_last(head@, '\n') =~= chars@.take(end as int));
    }
    let mut out: Vec<String> = Vec::new();
    if end == 0 {
        assert(texts(out@) =~= Seq::<Seq<char>>::empty());
        return out;
    }
    let lines = split_lines_upto(&chars, end);
    let mut k: usize = 0;
    while k < lines.len()
        invariant
            k <= lines@.len(),
            out@.len() == k,
            forall|j: int| 0 <= j < k ==> #[trigger] out@[j]@ == lines@[j]@,
        decreases lines@.len() - k,
    {
        out.push(string_of(lines[k].as_slice()));
        k = k + 1;
    }
    proof {
        assert(texts(out@) =~= view_lines(lines@));
    }
    out
}

/// The hunks between the blob `head` and the buffer's lines.
pub fn hunks_from_text(head: &str, buffer: &[String]) -> (r: (Vec<Hunk>, usize))
    ensures
        r.0@ == diff_hunks(blob_lines(head@), texts(buffer@)),
        r.1 == deleted_above(r.0@),
{
    let old = blob_strings(head);
    hunks(old.as_slice(), buffer)
}

// ---------------------------------------------------------------------------
// What the edit script is
// ---------------------------------------------------------------------------

/// `ops` walks `a` from line `i` and `b` from line `j` to their ends, keeping
/// only lines that are equal on both sides.
pub open spec fn walks(ops: Seq<Op>, a: Seq<Seq<char>>, b: Seq<Seq<char>>, i: int, j: int) -> bool
    decreases ops.len(),
{
    if ops.len() == 0 {
        i == a.len() && j == b.len()
    } else {
        let rest = ops.drop_first();
        match ops[0] {
            Op::Equal => 0 <= i < a.len() && 0 <= j < b.len() && a[i] == b[j] && walks(rest, a, b, i + 1, j + 1),
            Op::Delete => 0 <= i < a.len() && walks(rest, a, b, i + 1, j),
            Op::Add => 0 <= j < b.len() && walks(rest, a, b, i, j + 1),
        }
    }
}

/// How many lines a script keeps.
pub open spec fn kept(ops: Seq<Op>) -> nat
    decreases ops.len(),
{
    if ops.len() == 0 {
        0
    } else {
        kept(ops.drop_first()) + if ops[0] is Equal { 1nat } else { 0nat }
    }
}

proof fn lemma_uniform_walks(n: nat, op: Op, a: Seq<Seq<char>>, b: Seq<Seq<char>>, i: int, j: int)
    requires
        op is Delete ==> 0 <= i && i + n == a.len() && j == b.len(),
        op is Add ==> 0 <= j && j + n == b.len() && i == a.len(),
        !(op is Equal),
    ensures
        walks(Seq::new(n, |k: int| op), a, b, i, j),
        kept(Seq::new(n, |k: int| op)) == 0,
    decreases n,
{
    let s = Seq::new(n, |k: int| op);
    if n > 0 {
        assert(s.drop_first() =~= Seq::new((n - 1) as nat, |k: int| op));
        if op is Delete {
            lemma_uniform_walks((n - 1) as nat, op, a, b, i + 1, j);
        } else {
            lemma_uniform_walks((n - 1) as nat, op, a, b, i, j + 1);
        }
    }
}

/// The diff is an edit script from `a` to `b` that keeps a longest common
/// subsequence of their lines.
pub proof fn law_script_is_an_optimal_edit(a: Seq<Seq<char>>, b: Seq<Seq<char>>, i: int, j: int)
    requires
        0 <= i <= a.len(),
        0 <= j <= b.len(),
    ensures
        walks(script(a, b, i, j), a, b, i, j),
        kept(script(a, b, i, j)) == lcs(a, b, i, j),
    decreases a.len() - i + b.len() - j,
{
    let s = script(a, b, i, j);
    if i >= a.len() {
        lemma_uniform_walks((b.len() - j) as nat, Op::Add, a, b, i, j);
    } else if j >= b.len() {
        lemma_uniform_walks((a.len() - i) as nat, Op::Delete, a, b, i, j);
    } else if a[i] == b[j] {
        law_script_is_an_optimal_edit(a, b, i + 1, j + 1);
        assert(s.drop_first() =~= script(a, b, i + 1, j + 1));
    } else if lcs(a, b, i + 1, j) >= lcs(a, b, i, j + 1) {
        law_script_is_an_optimal_edit(a, b, i + 1, j);
        assert(s.drop_first() =~= script(a, b, i + 1, j));
    } else {
        law_script_is_an_optimal_edit(a, b, i, j + 1);
        assert(s.drop_first() =~= script(a, b, i, j + 1));
    }
}

} // verus!
