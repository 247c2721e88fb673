//! The rows of the git views the host opens beside a buffer.

use vstd::prelude::*;
use crate::editcore::buffer::{split_newlines, strip_last};
use crate::editcore::vcs::{BlameLine, Hunk, SignKind};
use crate::text::{chars_of, decimal, decimal_text, string_of};

verus! {

/// The mark of a hunk's kind.
pub open spec fn kind_mark(k: SignKind) -> Seq<char> {
    match k {
        SignKind::Add => "+"@,
        SignKind::Change => "~"@,
        SignKind::Delete => "-"@,
    }
}

/// A hunk's row: its kind, then where it starts (1-based) and how long it
/// is on each side.
pub open spec fn hunk_row(h: Hunk) -> Seq<char> {
    kind_mark(h.kind) + " old "@ + decimal((h.old_start + 1) as nat) + "+"@ + decimal(h.old_len as nat)
        + "  new "@ + decimal((h.new_start + 1) as nat) + "+"@ + decimal(h.new_len as nat)
}

/// The rows of the hunks view: one per hunk, or `No hunks`.
pub open spec fn hunk_rows_of(hunks: Seq<Hunk>) -> Seq<Seq<char>> {
    if hunks.len() == 0 {
        seq!["No hunks"@]
    } else {
        hunks.map_values(|h: Hunk| hunk_row(h))
    }
}

fn push_text(out: &mut Vec<char>, s: &str)
    ensures
        final(out)@ == old(out)@ + s@,
{
    let v = chars_of(s);
    let mut i: usize = 0;
    let ghost start = out@;
    while i < v.len()
        invariant
            i <= v@.len(),
            v@ == s@,
            out@ == start + v@.take(i as int),
        decreases v@.len() - i,
    {
        out.push(v[i]);
        i = i + 1;
        assert(out@ =~= start + v@.take(i as int));
    }
    assert(v@.take(v@.len() as int) =~= v@);
}

fn hunk_row_text(h: &Hunk) -> (s: String)
    requires
        h.old_start < usize::MAX,
        h.new_start < usize::MAX,
    ensures
        s@ == hunk_row(*h),
{
    let mut out: Vec<char> = Vec::new();
    let kind = match h.kind {
        SignKind::Add => "+",
        SignKind::Change => "~",
        SignKind::Delete => "-",
    };
    push_text(&mut out, kind);
    push_text(&mut out, " old ");
    push_text(&mut out, decimal_text(h.old_start + 1).as_str());
    push_text(&mut out, "+");
    push_text(&mut out, decimal_text(h.old_len).as_str());
    push_text(&mut out, "  new ");
    push_text(&mut out, decimal_text(h.new_start + 1).as_str());
    push_text(&mut out, "+");
    push_text(&mut out, decimal_text(h.new_len).as_str());
    assert(out@ =~= hunk_row(*h));
    string_of(out.as_slice())
}

/// The rows of the hunks view.
pub fn hunk_rows(hunks: &Vec<Hunk>) -> (rows: Vec<String>)
    requires
        forall|i: int| 0 <= i < hunks@.len() ==> #[trigger] hunks@[i].old_start < usize::MAX && hunks@[i].new_start < usize::MAX,
    ensures
        rows@.map_values(|s: String| s@) == hunk_rows_of(hunks@),
{
    let mut rows: Vec<String> = Vec::new();
    if hunks.len() == 0 {
        rows.push("No hunks".to_owned());
        assert(rows@.map_values(|s: String| s@) =~= hunk_rows_of(hunks@));
        return rows;
    }
    let mut i: usize = 0;
    while i < hunks.len()
        invariant
            i <= hunks@.len(),
            hunks@.len() > 0,
            forall|j: int| 0 <= j < hunks@.len() ==> #[trigger] hunks@[j].old_start < usize::MAX && hunks@[j].new_start < usize::MAX,
            rows@.map_values(|s: String| s@) == hunks@.take(i as int).map_values(|h: Hunk| hunk_row(h)),
        decreases hunks@.len() - i,
    {
        let row = hunk_row_text(&hunks[i]);
        rows.push(row);
        assert(hunks@.take(i + 1).map_values(|h: Hunk| hunk_row(h)) =~= hunks@.take(i as int).map_values(|h: Hunk| hunk_row(h)).push(hunk_row(hunks@[i as int])));
        i = i + 1;
        assert(rows@.map_values(|s: String| s@) =~= hunks@.take(i as int).map_values(|h: Hunk| hunk_row(h)));
    }
    assert(hunks@.take(hunks@.len() as int) =~= hunks@);
    rows
}

/// The rows of the view of the file at the head: its lines, without the
/// final line break and without a `\r` ending any line.
pub open spec fn blob_rows_of(blob: Seq<char>) -> Seq<Seq<char>> {
    split_newlines(strip_last(blob, '\n')).map_values(|l: Seq<char>| strip_last(l, '\r'))
}

pub fn blob_rows(blob: &str) -> (rows: Vec<String>)
    ensures
        rows@.map_values(|s: String| s@) == blob_rows_of(blob@),
{
    let v = chars_of(blob);
    let n = if v.len() > 0 && v[v.len() - 1] == '\n' { v.len() - 1 } else { v.len() };
    let ghost body = strip_last(blob@, '\n');
    assert(v@.take(n as int) =~= body);
    let mut rows: Vec<String> = Vec::new();
    let mut line: Vec<char> = Vec::new();
    let mut i: usize = 0;
    while i < n
        invariant
            i <= n <= v@.len(),
            v@ == blob@,
            body == v@.take(n as int),
            split_newlines(v@.take(i as int)) == rows@.map_values(|s: String| s@).push(line@),
        decreases n - i,
    {
        assert(v@.take(i + 1).drop_last() =~= v@.take(i as int));
        if v[i] == '\n' {
            rows.push(string_of(line.as_slice()));
            line = Vec::new();
        } else {
            line.push(v[i]);
        }
        i = i + 1;
        assert(split_newlines(v@.take(i as int)) =~= rows@.map_values(|s: String| s@).push(line@));
    }
    rows.push(string_of(line.as_slice()));
    let ghost pieces = rows@.map_values(|s: String| s@);
    assert(pieces == split_newlines(body));
    let mut out: Vec<String> = Vec::new();
    let mut k: usize = 0;
    while k < rows.len()
        invariant
            k <= rows@.len(),
            pieces == rows@.map_values(|s: String| s@),
            out@.map_values(|s: String| s@) == pieces.take(k as int).map_values(|l: Seq<char>| strip_last(l, '\r')),
        decreases rows@.len() - k,
    {
        let c = chars_of(rows[k].as_str());
        let m = if c.len() > 0 && c[c.len() - 1] == '\r' { c.len() - 1 } else { c.len() };
        let kept = crate::editcore::key::copy_range(c.as_slice(), 0, m);
        assert(kept@ =~= strip_last(pieces[k as int], '\r'));
        out.push(string_of(kept.as_slice()));
        assert(pieces.take(k + 1).map_values(|l: Seq<char>| strip_last(l, '\r')) =~= pieces.take(k as int).map_values(|l: Seq<char>| strip_last(l, '\r')).push(strip_last(pieces[k as int], '\r')));
        k = k + 1;
        assert(out@.map_values(|s: String| s@) =~= pieces.take(k as int).map_values(|l: Seq<char>| strip_last(l, '\r')));
    }
    assert(pieces.take(rows@.len() as int) =~= pieces);
    out
}

/// `n` spaces.
pub open spec fn spaces(n: int) -> Seq<char> {
    Seq::new(if n > 0 { n as nat } else { 0 }, |i: int| ' ')
}

/// `s` right-aligned in `w` columns, as `{:>w}` writes it.
pub open spec fn pad_left(s: Seq<char>, w: int) -> Seq<char> {
    spaces(w - s.len()) + s
}

/// `s` left-aligned in `w` columns, as `{:<w}` writes it.
pub open spec fn pad_right(s: Seq<char>, w: int) -> Seq<char> {
    s + spaces(w - s.len())
}

/// A blame line's row: its 1-based line number in five columns, then the
/// commit in twelve, the author in eighteen, and the summary.
pub open spec fn blame_row(b: BlameLine) -> Seq<char> {
    pad_left(decimal((b.line + 1) as nat), 5) + "  "@ + pad_right(b.commit@, 12) + " "@ + pad_right(b.author@, 18)
        + " "@ + b.summary@
}

fn push_spaces(out: &mut Vec<char>, n: usize)
    ensures
        final(out)@ == old(out)@ + spaces(n as int),
{
    let mut i: usize = 0;
    let ghost start = out@;
    while i < n
        invariant
            i <= n,
            out@ == start + spaces(i as int),
        decreases n - i,
    {
        out.push(' ');
        i = i + 1;
        assert(out@ =~= start + spaces(i as int));
    }
}

fn push_padded(out: &mut Vec<char>, s: &str, w: usize, right: bool)
    ensures
        final(out)@ == old(out)@ + if right { pad_left(s@, w as int) } else { pad_right(s@, w as int) },
{
    let n = chars_of(s).len();
    let gap = if n < w { w - n } else { 0 };
    let ghost start = out@;
    if right {
        push_spaces(out, gap);
        push_text(out, s);
        assert(out@ =~= start + pad_left(s@, w as int));
    } else {
        push_text(out, s);
        push_spaces(out, gap);
        assert(out@ =~= start + pad_right(s@, w as int));
    }
}

/// The row a blame line is shown as.
pub fn blame_row_text(b: &BlameLine) -> (s: String)
    requires
        b.line < usize::MAX,
    ensures
        s@ == blame_row(*b),
{
    let mut out: Vec<char> = Vec::new();
    push_padded(&mut out, decimal_text(b.line + 1).as_str(), 5, true);
    push_text(&mut out, "  ");
    push_padded(&mut out, b.commit.as_str(), 12, false);
    push_text(&mut out, " ");
    push_padded(&mut out, b.author.as_str(), 18, false);
    push_text(&mut out, " ");
    push_text(&mut out, b.summary.as_str());
    assert(out@ =~= blame_row(*b));
    string_of(out.as_slice())
}

} // verus!
