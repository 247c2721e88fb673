//! What the host makes of Git's answers. Running `git` is the host's; the
//! decisions about what its output means are here.

use vstd::prelude::*;
use vstd::string::StrSliceExecFns;
use vstd::utf8::{decode_utf8, encode_utf8, valid_utf8};
use crate::editcore::key::{all_digits, copy_range, digits_value, is_digit, lemma_digits_monotone};
use crate::editcore::buffer::{lemma_split_nonempty, split_newlines, view_lines};
use crate::editcore::vcs::{BlameLine, HeadLabel};
use crate::lsp::types::{from_utf8_lossy, lossy_text};
use crate::text::{
    chars_of, is_whitespace, spec_is_whitespace, string_of, trim_range, trim_start_ws, trim_ws,
};

verus! {

/// What one run of `git` gave back: its exit code (none when it was killed
/// or timed out) and its standard output.
pub struct GitOutput {
    pub status: Option<i32>,
    pub stdout: Vec<u8>,
}

/// Wraps `String::from_utf8`: the text the bytes encode, or nothing when they
/// are not UTF-8, as its documentation says.
#[verifier::external_body]
fn utf8_text(bytes: Vec<u8>) -> (r: Option<String>)
    ensures
        r is Some <==> valid_utf8(bytes@),
        r matches Some(s) ==> s@ == decode_utf8(bytes@),
{
    String::from_utf8(bytes).ok()
}

/// The text of a successful run, trimmed, when it is UTF-8.
pub open spec fn answer(out: GitOutput) -> Option<Seq<char>> {
    if out.status == Some(0i32) && valid_utf8(out.stdout@) {
        Some(trim_ws(decode_utf8(out.stdout@)))
    } else {
        None
    }
}

fn trimmed_answer(out: GitOutput) -> (r: Option<String>)
    ensures
        match r {
            Some(s) => answer(out) == Some(s@),
            None => answer(out) is None,
        },
{
    if out.status != Some(0i32) {
        return None;
    }
    match utf8_text(out.stdout) {
        Some(text) => {
            let chars = chars_of(text.as_str());
            let (a, b) = trim_range(chars.as_slice(), 0, chars.len());
            assert(chars@.subrange(0, chars@.len() as int) =~= chars@);
            let t = copy_range(chars.as_slice(), a, b);
            Some(string_of(t.as_slice()))
        },
        None => None,
    }
}

/// The repository root `git rev-parse --show-toplevel` reported: a
/// successful run's trimmed, non-empty output.
pub fn repo_root(out: GitOutput) -> (r: Option<String>)
    ensures
        match r {
            Some(root) => answer(out) == Some(root@) && root@.len() > 0,
            None => answer(out) is None || answer(out)->0.len() == 0,
        },
{
    match trimmed_answer(out) {
        Some(root) => {
            if root.as_str().unicode_len() == 0 {
                None
            } else {
                Some(root)
            }
        },
        None => None,
    }
}

/// What comes of asking for HEAD: `symbolic` is `symbolic-ref --short HEAD`,
/// `verified` is `rev-parse --verify HEAD`, `short` (asked only when HEAD
/// exists and is no branch) is `rev-parse --short HEAD`.
pub open spec fn head_label_of(symbolic: Option<Seq<char>>, verified: Option<int>, short: Option<Seq<char>>) -> Option<HeadModel> {
    match verified {
        None => None,
        Some(code) => if code != 0 {
            Some(HeadModel::Unborn)
        } else {
            match symbolic {
                Some(branch) => if branch.len() > 0 { Some(HeadModel::Branch(branch)) } else {
                    match short {
                        Some(s) => Some(HeadModel::Detached(s)),
                        None => None,
                    }
                },
                None => match short {
                    Some(s) => Some(HeadModel::Detached(s)),
                    None => None,
                },
            }
        },
    }
}

pub enum HeadModel {
    Branch(Seq<char>),
    Detached(Seq<char>),
    Unborn,
}

pub open spec fn head_model(h: HeadLabel) -> HeadModel {
    match h {
        HeadLabel::Branch(b) => HeadModel::Branch(b@),
        HeadLabel::Detached(d) => HeadModel::Detached(d@),
        HeadLabel::Unborn => HeadModel::Unborn,
    }
}

/// Whether the third question is needed: HEAD exists and is not a branch.
pub open spec fn needs_short(symbolic: Option<Seq<char>>, verified: Option<int>) -> bool {
    verified == Some(0int) && !(symbolic matches Some(b) && b.len() > 0)
}

/// The label of HEAD from the answers to the first two questions, and
/// `short` the answer to the third when it was needed. A run that did not
/// happen at all (`verified` none, or `short` none when needed) gives no label.
pub fn head_label(symbolic: Option<GitOutput>, verified: Option<GitOutput>, short: Option<GitOutput>) -> (r: Option<HeadLabel>)
    ensures
        ({
            let sym = match symbolic { Some(o) => answer(o), None => None };
            let ver = match verified { Some(o) => match o.status { Some(c) => Some(c as int), None => Some(-1int) }, None => None };
            let sh = match short { Some(o) => answer(o), None => None };
            match r {
                Some(h) => head_label_of(sym, ver, sh) == Some(head_model(h)),
                None => head_label_of(sym, ver, sh) is None,
            }
        }),
{
    let branch = match symbolic {
        Some(o) => trimmed_answer(o),
        None => None,
    };
    let code = match verified {
        Some(o) => match o.status {
            Some(c) => c,
            None => -1,
        },
        None => {
            return None;
        },
    };
    if code != 0 {
        return Some(HeadLabel::Unborn);
    }
    match branch {
        Some(b) => {
            if b.as_str().unicode_len() > 0 {
                return Some(HeadLabel::Branch(b));
            }
        },
        None => {},
    }
    match short {
        Some(o) => match trimmed_answer(o) {
            Some(s) => Some(HeadLabel::Detached(s)),
            None => None,
        },
        None => None,
    }
}

// ---------------------------------------------------------------------------
// Fields and numbers
// ---------------------------------------------------------------------------

/// The leading run of non-whitespace of `s`.
pub open spec fn word(s: Seq<char>) -> Seq<char>
    decreases s.len(),
{
    if s.len() == 0 || spec_is_whitespace(s[0]) {
        Seq::empty()
    } else {
        seq![s[0]] + word(s.drop_first())
    }
}

/// What `str::split_whitespace` gives.
pub open spec fn fields(s: Seq<char>) -> Seq<Seq<char>>
    decreases s.len(),
{
    let t = trim_start_ws(s);
    if t.len() == 0 {
        Seq::empty()
    } else {
        proof {
            lemma_trim_start_len(s);
            lemma_word_len(t);
        }
        seq![word(t)] + fields(t.skip(word(t).len() as int))
    }
}

pub proof fn lemma_trim_start_len(s: Seq<char>)
    ensures
        trim_start_ws(s).len() <= s.len(),
        trim_start_ws(s) == s.skip(s.len() - trim_start_ws(s).len()),
        trim_start_ws(s).len() > 0 ==> !spec_is_whitespace(trim_start_ws(s)[0]),
    decreases s.len(),
{
    if s.len() > 0 && spec_is_whitespace(s[0]) {
        lemma_trim_start_len(s.drop_first());
        assert(s.drop_first().skip(s.drop_first().len() - trim_start_ws(s).len()) =~= s.skip(s.len() - trim_start_ws(s).len()));
    } else {
        assert(s.skip(0) =~= s);
    }
}

pub proof fn lemma_word_len(s: Seq<char>)
    ensures
        word(s).len() <= s.len(),
        word(s) == s.take(word(s).len() as int),
        s.len() > 0 && !spec_is_whitespace(s[0]) ==> word(s).len() > 0,
        word(s).len() < s.len() ==> spec_is_whitespace(s[word(s).len() as int]),
    decreases s.len(),
{
    if s.len() > 0 && !spec_is_whitespace(s[0]) {
        lemma_word_len(s.drop_first());
        assert(word(s) =~= s.take(word(s).len() as int));
    } else {
        assert(s.take(0) =~= Seq::<char>::empty());
    }
}

/// Digits after an optional sign: the sign and the digits.
pub open spec fn signed_digits(s: Seq<char>) -> (bool, Seq<char>) {
    if s.len() > 0 && s[0] == '-' {
        (true, s.drop_first())
    } else if s.len() > 0 && s[0] == '+' {
        (false, s.drop_first())
    } else {
        (false, s)
    }
}

/// What `str::parse::<usize>` accepts.
pub open spec fn parse_usize_spec(s: Seq<char>) -> Option<usize> {
    let d = if s.len() > 0 && s[0] == '+' { s.drop_first() } else { s };
    if d.len() > 0 && all_digits(d) && digits_value(d) <= usize::MAX {
        Some(digits_value(d) as usize)
    } else {
        None
    }
}

/// What `str::parse::<i64>` accepts.
pub open spec fn parse_i64_spec(s: Seq<char>) -> Option<i64> {
    let (negative, d) = signed_digits(s);
    if d.len() > 0 && all_digits(d) && (if negative { digits_value(d) <= 0x8000_0000_0000_0000 } else {
        digits_value(d) <= i64::MAX
    }) {
        Some((if negative { -digits_value(d) } else { digits_value(d) as int }) as i64)
    } else {
        None
    }
}

/// The value of the digits of `v[from..to]` when they are all digits, there
/// is at least one, and the value is at most `limit`.
fn digits_upto(v: &[char], from: usize, to: usize, limit: u128) -> (r: Option<u128>)
    requires
        from <= to <= v@.len(),
        limit <= u64::MAX as u128 + 1,
    ensures
        ({
            let d = v@.subrange(from as int, to as int);
            match r {
                Some(x) => d.len() > 0 && all_digits(d) && digits_value(d) <= limit && x == digits_value(d),
                None => !(d.len() > 0 && all_digits(d) && digits_value(d) <= limit),
            }
        }),
{
    let ghost d = v@.subrange(from as int, to as int);
    if from == to {
        return None;
    }
    let mut value: u128 = 0;
    let mut i = from;
    while i < to
        invariant
            from <= i <= to <= v@.len(),
            from < to,
            d == v@.subrange(from as int, to as int),
            limit <= u64::MAX as u128 + 1,
            value == digits_value(d.take(i - from)),
            value <= limit,
            all_digits(d.take(i - from)),
        decreases to - i,
    {
        let c = v[i];
        if c < '0' || c > '9' {
            assert(d[i - from] == c);
            assert(!is_digit(d[i - from]));
            return None;
        }
        let digit = (c as u32 - '0' as u32) as u128;
        proof {
            let t = d.take(i - from + 1);
            assert(t.drop_last() =~= d.take(i - from));
            assert(t.last() == c);
            assert(all_digits(t)) by {
                assert forall|j: int| 0 <= j < t.len() implies #[trigger] is_digit(t[j]) by {
                    if j < t.len() - 1 {
                        assert(t[j] == d.take(i - from)[j]);
                    }
                }
            }
        }
        value = value * 10 + digit;
        i = i + 1;
        if value > limit {
            proof {
                if all_digits(d) {
                    lemma_digits_monotone(d, (i - from) as int);
                }
            }
            return None;
        }
    }
    proof {
        assert(d.take(i - from) =~= d);
    }
    Some(value)
}

pub(crate) fn parse_usize(v: &[char], from: usize, to: usize) -> (r: Option<usize>)
    requires
        from <= to <= v@.len(),
    ensures
        r == parse_usize_spec(v@.subrange(from as int, to as int)),
{
    let ghost s = v@.subrange(from as int, to as int);
    let start = if from < to && v[from] == '+' { from + 1 } else { from };
    assert(v@.subrange(start as int, to as int) =~= (if s.len() > 0 && s[0] == '+' { s.drop_first() } else { s }));
    match digits_upto(v, start, to, usize::MAX as u128) {
        Some(x) => Some(x as usize),
        None => None,
    }
}

fn parse_i64(v: &[char], from: usize, to: usize) -> (r: Option<i64>)
    requires
        from <= to <= v@.len(),
    ensures
        r == parse_i64_spec(v@.subrange(from as int, to as int)),
{
    let ghost s = v@.subrange(from as int, to as int);
    let negative = from < to && v[from] == '-';
    let start = if from < to && (v[from] == '-' || v[from] == '+') { from + 1 } else { from };
    assert(v@.subrange(start as int, to as int) =~= signed_digits(s).1);
    let limit: u128 = if negative { 0x8000_0000_0000_0000 } else { 0x7FFF_FFFF_FFFF_FFFF };
    match digits_upto(v, start, to, limit) {
        Some(x) => {
            if negative {
                if x == 0x8000_0000_0000_0000 {
                    Some(i64::MIN)
                } else {
                    Some(-(x as i64))
                }
            } else {
                Some(x as i64)
            }
        },
        None => None,
    }
}

// ---------------------------------------------------------------------------
// Lines
// ---------------------------------------------------------------------------

pub open spec fn strip_cr(l: Seq<char>) -> Seq<char> {
    if l.len() > 0 && l.last() == '\r' { l.drop_last() } else { l }
}

/// What `str::lines` gives: the text split at each `\n`, a final `\n`
/// ending the last line rather than starting another, and a `\r` before a
/// `\n` part of the line ending.
pub open spec fn text_lines(s: Seq<char>) -> Seq<Seq<char>> {
    let pieces = split_newlines(s);
    if s.len() == 0 {
        Seq::empty()
    } else if s.last() == '\n' {
        pieces.drop_last().map_values(|l: Seq<char>| strip_cr(l))
    } else {
        pieces.drop_last().map_values(|l: Seq<char>| strip_cr(l)).push(pieces.last())
    }
}

fn copy_line(v: &Vec<char>) -> (r: Vec<char>)
    ensures
        r@ == v@,
{
    let r = copy_range(v.as_slice(), 0, v.len());
    assert(v@.subrange(0, v@.len() as int) =~= v@);
    r
}

/// The lines of `text`, as `str::lines` splits it.
pub fn lines_of(text: &str) -> (r: Vec<Vec<char>>)
    ensures
        view_lines(r@) == text_lines(text@),
{
    let chars = chars_of(text);
    let n = chars.len();
    if n == 0 {
        let out: Vec<Vec<char>> = Vec::new();
        assert(view_lines(out@) =~= text_lines(text@));
        return out;
    }
    let ends_nl = chars[n - 1] == '\n';
    // All the pieces between newlines, each without a `\r` before its newline.
    let mut done: Vec<Vec<char>> = Vec::new();
    let mut current: Vec<char> = Vec::new();
    let mut k: usize = 0;
    proof {
        assert(chars@.take(0) =~= Seq::<char>::empty());
    }
    while k < n
        invariant
            n == chars@.len(),
            k <= n,
            view_lines(done@).push(current@) == {
                let p = split_newlines(chars@.take(k as int));
                p.drop_last().map_values(|l: Seq<char>| strip_cr(l)).push(p.last())
            },
        decreases n - k,
    {
        let c = chars[k];
        proof {
            assert(chars@.take(k + 1).drop_last() =~= chars@.take(k as int));
            assert(chars@.take(k + 1).last() == c);
            lemma_split_nonempty(chars@.take(k as int));
        }
        let ghost p = split_newlines(chars@.take(k as int));
        let ghost d0 = view_lines(done@);
        let ghost c0 = current@;
        proof {
            let both = d0.push(c0);
            assert(both.drop_last() =~= d0);
            assert(both.last() == c0);
            let rhs = p.drop_last().map_values(|l: Seq<char>| strip_cr(l)).push(p.last());
            assert(rhs.drop_last() =~= p.drop_last().map_values(|l: Seq<char>| strip_cr(l)));
            assert(d0 =~= p.drop_last().map_values(|l: Seq<char>| strip_cr(l)));
            assert(c0 == p.last());
        }
        if c == '\n' {
            let mut line = copy_line(&current);
            if line.len() > 0 && line[line.len() - 1] == '\r' {
                line.pop();
            }
            assert(line@ =~= strip_cr(current@));
            done.push(line);
            current = Vec::new();
            proof {
                let q = split_newlines(chars@.take(k + 1));
                assert(q == p.push(Seq::<char>::empty()));
                assert(q.drop_last() =~= p);
                assert(p.map_values(|l: Seq<char>| strip_cr(l)) =~= p.drop_last().map_values(|l: Seq<char>| strip_cr(l)).push(strip_cr(p.last())));
                assert(view_lines(done@) =~= d0.push(strip_cr(c0)));
                assert(view_lines(done@).push(current@) =~= q.drop_last().map_values(|l: Seq<char>| strip_cr(l)).push(q.last()));
            }
        } else {
            current.push(c);
            proof {
                let q = split_newlines(chars@.take(k + 1));
                assert(q == p.update(p.len() - 1, p.last().push(c)));
                assert(q.drop_last() =~= p.drop_last());
                assert(q.last() == c0.push(c));
                assert(view_lines(done@).push(current@) =~= q.drop_last().map_values(|l: Seq<char>| strip_cr(l)).push(q.last()));
            }
        }
        k = k + 1;
    }
    proof {
        assert(chars@.take(n as int) =~= chars@);
        assert(chars@ == text@);
    }
    let ghost d0 = view_lines(done@);
    let ghost c0 = current@;
    proof {
        let p = split_newlines(text@);
        lemma_split_nonempty(text@);
        let both = d0.push(c0);
        assert(both.drop_last() =~= d0);
        assert(both.last() == c0);
        let rhs = p.drop_last().map_values(|l: Seq<char>| strip_cr(l)).push(p.last());
        assert(rhs.drop_last() =~= p.drop_last().map_values(|l: Seq<char>| strip_cr(l)));
        assert(d0 =~= p.drop_last().map_values(|l: Seq<char>| strip_cr(l)));
    }
    if !ends_nl {
        done.push(current);
        proof {
            assert(view_lines(done@) =~= d0.push(c0));
            assert(view_lines(done@) =~= text_lines(text@));
        }
    } else {
        proof {
            let x = text@.drop_last();
            lemma_split_nonempty(x);
            assert(x.push('\n') =~= text@);
            assert(split_newlines(text@) == split_newlines(x).push(Seq::<char>::empty()));
            assert(split_newlines(text@).drop_last() =~= split_newlines(x));
            assert(view_lines(done@) =~= text_lines(text@));
        }
    }
    done
}

// ---------------------------------------------------------------------------
// Blame
// ---------------------------------------------------------------------------

/// One blamed line as values: the line, commit, author, time and summary.
pub open spec fn blame_model(b: BlameLine) -> (usize, Seq<char>, Seq<char>, Option<i64>, Seq<char>) {
    (b.line, b.commit@, b.author@, b.time, b.summary@)
}

/// Where `git blame --line-porcelain` is in its output: the header of the
/// current line so far, and the lines finished.
pub struct BlameState {
    pub line: Option<usize>,
    pub commit: Seq<char>,
    pub author: Seq<char>,
    pub time: Option<i64>,
    pub summary: Seq<char>,
    pub out: Seq<(usize, Seq<char>, Seq<char>, Option<i64>, Seq<char>)>,
}

pub open spec fn blame_start() -> BlameState {
    BlameState { line: None, commit: Seq::empty(), author: Seq::empty(), time: None, summary: Seq::empty(), out: Seq::empty() }
}

/// One output line: a tab-led line is the blamed text and finishes a line
/// (which needs a line number); a commit header starts one; the `author`,
/// `author-time` and `summary` keys fill it in.
pub open spec fn blame_step(st: BlameState, raw: Seq<char>) -> Option<BlameState> {
    if raw.len() > 0 && raw[0] == '\t' {
        match st.line {
            None => None,
            Some(l) => Some(BlameState { out: st.out.push((l, st.commit, st.author, st.time, st.summary)), ..st }),
        }
    } else {
        let sp = crate::editcore::key::find_char(raw, ' ');
        let key = if sp < 0 { raw } else { raw.take(sp) };
        let value = if sp < 0 { Seq::<char>::empty() } else { raw.skip(sp + 1) };
        if encode_utf8(key).len() == 40 {
            let f = fields(raw);
            let line = if f.len() > 2 {
                match parse_usize_spec(f[2]) {
                    Some(n) => Some(if n > 0 { (n - 1) as usize } else { 0usize }),
                    None => None,
                }
            } else {
                None
            };
            Some(BlameState {
                line,
                commit: if f.len() > 0 { f[0].take(if f[0].len() < 12 { f[0].len() as int } else { 12 }) } else { Seq::empty() },
                author: Seq::empty(),
                time: None,
                summary: Seq::empty(),
                ..st
            })
        } else if key == "author"@ {
            Some(BlameState { author: value, ..st })
        } else if key == "author-time"@ {
            Some(BlameState { time: parse_i64_spec(value), ..st })
        } else if key == "summary"@ {
            Some(BlameState { summary: value, ..st })
        } else {
            Some(st)
        }
    }
}

pub open spec fn blame_run(lines: Seq<Seq<char>>, i: int, st: BlameState) -> Option<Seq<(usize, Seq<char>, Seq<char>, Option<i64>, Seq<char>)>>
    decreases lines.len() - i,
{
    if i < 0 || i >= lines.len() {
        Some(st.out)
    } else {
        match blame_step(st, lines[i]) {
            None => None,
            Some(next) => blame_run(lines, i + 1, next),
        }
    }
}

/// The fields of `v`, as `str::split_whitespace` gives them.
fn fields_exec(v: &[char]) -> (r: Vec<Vec<char>>)
    ensures
        view_lines(r@) == fields(v@),
{
    let n = v.len();
    let mut out: Vec<Vec<char>> = Vec::new();
    let mut i: usize = 0;
    assert(v@.skip(0) =~= v@);
    while i < n
        invariant
            n == v@.len(),
            i <= n,
            view_lines(out@) + fields(v@.skip(i as int)) == fields(v@),
        decreases n - i,
    {
        let ghost rest = v@.skip(i as int);
        let mut j = i;
        while j < n && is_whitespace(v[j])
            invariant
                n == v@.len(),
                i <= j <= n,
                trim_start_ws(rest) == trim_start_ws(v@.skip(j as int)),
            decreases n - j,
        {
            proof {
                assert(v@.skip(j as int).drop_first() =~= v@.skip(j + 1));
            }
            j = j + 1;
        }
        proof {
            assert(trim_start_ws(v@.skip(j as int)) == v@.skip(j as int));
        }
        if j == n {
            proof {
                assert(v@.skip(j as int).len() == 0);
                assert(fields(rest) =~= Seq::<Seq<char>>::empty());
                assert(view_lines(out@) + fields(v@.skip(n as int)) =~= view_lines(out@));
            }
            i = n;
        } else {
            let mut e = j;
            while e < n && !is_whitespace(v[e])
                invariant
                    n == v@.len(),
                    j <= e <= n,
                    word(v@.skip(j as int)) == v@.subrange(j as int, e as int) + word(v@.skip(e as int)),
                decreases n - e,
            {
                proof {
                    assert(v@.skip(e as int).drop_first() =~= v@.skip(e + 1));
                    assert(v@.subrange(j as int, e + 1) =~= v@.subrange(j as int, e as int) + seq![v@[e as int]]);
                }
                e = e + 1;
            }
            proof {
                assert(word(v@.skip(e as int)) =~= Seq::<char>::empty());
                let t = v@.skip(j as int);
                assert(word(t) =~= v@.subrange(j as int, e as int));
                assert(t.skip(word(t).len() as int) =~= v@.skip(e as int));
            }
            let ghost before = view_lines(out@);
            out.push(copy_range(v, j, e));
            proof {
                assert(view_lines(out@) =~= before.push(v@.subrange(j as int, e as int)));
                assert(view_lines(out@) + fields(v@.skip(e as int)) =~= before + fields(rest));
            }
            i = e;
        }
    }
    proof {
        assert(v@.skip(n as int) =~= Seq::<char>::empty());
        assert(view_lines(out@) + fields(v@.skip(n as int)) =~= view_lines(out@));
    }
    out
}

/// Reads `git blame --line-porcelain` output; nothing when a blamed line
/// comes before any line number.
pub fn parse_blame(text: &str) -> (r: Option<Vec<BlameLine>>)
    ensures
        match r {
            Some(v) => blame_run(text_lines(text@), 0, blame_start()) == Some(v@.map_values(|b: BlameLine| blame_model(b))),
            None => blame_run(text_lines(text@), 0, blame_start()) is None,
        },
{
    let lines = lines_of(text);
    let ghost ls = text_lines(text@);
    let mut out: Vec<BlameLine> = Vec::new();
    let mut line: Option<usize> = None;
    let mut commit: Vec<char> = Vec::new();
    let mut author: Vec<char> = Vec::new();
    let mut time: Option<i64> = None;
    let mut summary: Vec<char> = Vec::new();
    let mut i: usize = 0;
    proof {
        assert(out@.map_values(|b: BlameLine| blame_model(b)) =~= Seq::empty());
        reveal_strlit("author");
        reveal_strlit("author-time");
        reveal_strlit("summary");
    }
    while i < lines.len()
        invariant
            i <= lines@.len(),
            view_lines(lines@) == ls,
            ls == text_lines(text@),
            blame_run(ls, 0, blame_start()) == blame_run(ls, i as int, BlameState {
                line,
                commit: commit@,
                author: author@,
                time,
                summary: summary@,
                out: out@.map_values(|b: BlameLine| blame_model(b)),
            }),
        decreases lines@.len() - i,
    {
        let raw = &lines[i];
        assert(ls[i as int] == raw@);
        let ghost st = BlameState {
            line,
            commit: commit@,
            author: author@,
            time,
            summary: summary@,
            out: out@.map_values(|b: BlameLine| blame_model(b)),
        };
        if raw.len() > 0 && raw[0] == '\t' {
            match line {
                None => {
                    return None;
                },
                Some(l) => {
                    let b = BlameLine {
                        line: l,
                        commit: string_of(commit.as_slice()),
                        author: string_of(author.as_slice()),
                        time,
                        summary: string_of(summary.as_slice()),
                    };
                    let ghost before = out@;
                    out.push(b);
                    assert(out@.map_values(|b: BlameLine| blame_model(b)) =~= st.out.push(blame_model(b)));
                    assert(blame_step(st, raw@) == Some(BlameState {
                        line,
                        commit: commit@,
                        author: author@,
                        time,
                        summary: summary@,
                        out: out@.map_values(|b: BlameLine| blame_model(b)),
                    }));
                },
            }
        } else {
            let sp = match find_char_in(raw.as_slice(), ' ') {
                Some(k) => k,
                None => raw.len(),
            };
            let key = copy_range(raw.as_slice(), 0, sp);
            let key_text = string_of(key.as_slice());
            let value_start = if sp < raw.len() { sp + 1 } else { sp };
            proof {
                assert(key@ =~= (if crate::editcore::key::find_char(raw@, ' ') < 0 { raw@ } else {
                    raw@.take(sp as int)
                }));
            }
            if crate::text::utf8_len_upto(key.as_slice(), 40) == Some(40usize) {
                let f = fields_exec(raw.as_slice());
                line = if f.len() > 2 {
                    match parse_usize(f[2].as_slice(), 0, f[2].len()) {
                        Some(n) => Some(if n > 0 { n - 1 } else { 0 }),
                        None => None,
                    }
                } else {
                    None
                };
                proof {
                    if f@.len() > 2 {
                        assert(f@[2]@.subrange(0, f@[2]@.len() as int) =~= f@[2]@);
                        assert(view_lines(f@)[2] == f@[2]@);
                    }
                }
                commit = if f.len() > 0 {
                    let first = &f[0];
                    let take = if first.len() < 12 { first.len() } else { 12 };
                    assert(view_lines(f@)[0] == first@);
                    let c = copy_range(first.as_slice(), 0, take);
                    assert(c@ =~= first@.take(take as int));
                    c
                } else {
                    Vec::new()
                };
                author = Vec::new();
                time = None;
                summary = Vec::new();
                assert(blame_step(st, raw@) == Some(BlameState {
                    line,
                    commit: commit@,
                    author: author@,
                    time,
                    summary: summary@,
                    out: out@.map_values(|b: BlameLine| blame_model(b)),
                }));
            } else if is_text(&key, "author") {
                author = copy_range(raw.as_slice(), value_start, raw.len());
                assert(author@ =~= (if sp >= raw@.len() { Seq::<char>::empty() } else { raw@.skip(sp + 1) }));
            } else if is_text(&key, "author-time") {
                time = parse_i64(raw.as_slice(), value_start, raw.len());
                assert(raw@.subrange(value_start as int, raw@.len() as int) =~= (if sp >= raw@.len() {
                    Seq::<char>::empty()
                } else {
                    raw@.skip(sp + 1)
                }));
            } else if is_text(&key, "summary") {
                summary = copy_range(raw.as_slice(), value_start, raw.len());
                assert(summary@ =~= (if sp >= raw@.len() { Seq::<char>::empty() } else { raw@.skip(sp + 1) }));
            }
            proof {
                assert(blame_step(st, raw@) == Some(BlameState {
                    line,
                    commit: commit@,
                    author: author@,
                    time,
                    summary: summary@,
                    out: out@.map_values(|b: BlameLine| blame_model(b)),
                }));
            }
        }
        i = i + 1;
    }
    Some(out)
}

fn find_char_in(v: &[char], c: char) -> (r: Option<usize>)
    ensures
        match r {
            Some(k) => k == crate::editcore::key::find_char(v@, c) && k < v@.len(),
            None => crate::editcore::key::find_char(v@, c) < 0,
        },
{
    let mut i: usize = 0;
    assert(v@.skip(0) =~= v@);
    while i < v.len()
        invariant
            i <= v@.len(),
            crate::editcore::key::find_char(v@, c) == if crate::editcore::key::find_char(v@.skip(i as int), c) < 0 {
                -1
            } else {
                crate::editcore::key::find_char(v@.skip(i as int), c) + i
            },
        decreases v@.len() - i,
    {
        proof {
            assert(v@.skip(i as int).drop_first() =~= v@.skip(i + 1));
        }
        if v[i] == c {
            return Some(i);
        }
        i = i + 1;
    }
    None
}

fn is_text(v: &Vec<char>, w: &str) -> (r: bool)
    ensures
        r == (v@ == w@),
{
    let chars = chars_of(w);
    crate::editcore::key::same_chars(v.as_slice(), chars.as_slice())
}

/// The blame of a run of `git blame --line-porcelain`: nothing unless it
/// succeeded; its output read as text, invalid UTF-8 replaced.
pub fn blame(out: GitOutput) -> (r: Option<Vec<BlameLine>>)
    ensures
        out.status != Some(0i32) ==> r is None,
        out.status == Some(0i32) ==> match r {
            Some(v) => blame_run(text_lines(lossy_text(out.stdout@)), 0, blame_start())
                == Some(v@.map_values(|b: BlameLine| blame_model(b))),
            None => blame_run(text_lines(lossy_text(out.stdout@)), 0, blame_start()) is None,
        },
{
    if out.status != Some(0i32) {
        return None;
    }
    let text = from_utf8_lossy(out.stdout.as_slice());
    parse_blame(text.as_str())
}

/// What `git ls-tree -z HEAD -- <path>` says about a file: not in HEAD (its
/// blob is empty), not a plain blob, or the blob to read.
pub enum BlobLookup {
    Done(Option<String>),
    Read(String),
}

pub enum LookupModel {
    Done(Option<Seq<char>>),
    Read(Seq<char>),
}

pub open spec fn lookup_of(tree: GitOutput) -> LookupModel {
    if tree.status != Some(0i32) || tree.stdout@.len() == 0 {
        LookupModel::Done(Some(Seq::empty()))
    } else {
        let f = fields(lossy_text(tree.stdout@));
        if f.len() < 3 || f[1] != "blob"@ {
            LookupModel::Done(None)
        } else {
            LookupModel::Read(f[2])
        }
    }
}

pub open spec fn lookup_model(l: BlobLookup) -> LookupModel {
    match l {
        BlobLookup::Done(Some(s)) => LookupModel::Done(Some(s@)),
        BlobLookup::Done(None) => LookupModel::Done(None),
        BlobLookup::Read(o) => LookupModel::Read(o@),
    }
}

/// What the tree entry of a file says to do next.
pub fn blob_object(tree: &GitOutput) -> (r: BlobLookup)
    ensures
        lookup_model(r) == lookup_of(*tree),
{
    if tree.status != Some(0i32) || tree.stdout.len() == 0 {
        let none: Vec<char> = Vec::new();
        let empty = string_of(none.as_slice());
        assert(empty@ =~= Seq::<char>::empty());
        return BlobLookup::Done(Some(empty));
    }
    let entry = from_utf8_lossy(tree.stdout.as_slice());
    let chars = chars_of(entry.as_str());
    let f = fields_exec(chars.as_slice());
    proof {
        reveal_strlit("blob");
    }
    if f.len() < 3 {
        return BlobLookup::Done(None);
    }
    assert(view_lines(f@)[1] == f@[1]@ && view_lines(f@)[2] == f@[2]@);
    if !is_text(&f[1], "blob") {
        return BlobLookup::Done(None);
    }
    BlobLookup::Read(string_of(f[2].as_slice()))
}

/// The HEAD text of a file: empty when HEAD does not have it, nothing when
/// its entry is not a blob or reading it failed, else the blob as text.
/// `blob` is what `git cat-file -p` gave for the object `blob_object` named.
pub fn head_blob(tree: &GitOutput, blob: Option<GitOutput>) -> (r: Option<String>)
    ensures
        match lookup_of(*tree) {
            LookupModel::Done(d) => match r {
                Some(s) => d == Some(s@),
                None => d is None,
            },
            LookupModel::Read(_) => match blob {
                None => r is None,
                Some(o) => match r {
                    Some(s) => o.status == Some(0i32) && valid_utf8(o.stdout@) && s@ == decode_utf8(o.stdout@),
                    None => o.status != Some(0i32) || !valid_utf8(o.stdout@),
                },
            },
        },
{
    match blob_object(tree) {
        BlobLookup::Done(d) => d,
        BlobLookup::Read(_) => match blob {
            None => None,
            Some(o) => {
                if o.status != Some(0i32) {
                    None
                } else {
                    utf8_text(o.stdout)
                }
            },
        },
    }
}

} // verus!
