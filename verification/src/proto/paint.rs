//! Turning editor state into what a window's rows show: the palette, cell
//! widths, the gutter, line-level markdown styling and each row's cells.

use vstd::prelude::*;
use crate::editcore::buffer::{min_int, Buffer};
use crate::editcore::editor::{gutter_number, Options, Visual};
use crate::editcore::vcs::{sign_of, SignKind, VcsState};
use crate::editcore::window::WindowView;
use crate::lsp::types::{covers, rank_of, Diagnostic};
use crate::proto::hl;
use crate::text::{chars_of, decimal, decimal_text, is_whitespace, spec_is_whitespace, string_of, trim_end_ws};

verus! {

/// The editor's own palette; one theme drives the grid and the navigation
/// surface together.
#[derive(Clone, Copy, Debug, PartialEq, Eq, Structural)]
pub struct Theme {
    pub bg: u32,
    pub fg: u32,
    pub line_nr: u32,
    pub cursor_line_nr: u32,
    pub status_fg: u32,
    pub status_bg: u32,
    pub visual: u32,
    pub search_fg: u32,
    pub search_bg: u32,
    pub error: u32,
    pub non_text: u32,
    pub heading: u32,
    pub code: u32,
    pub emphasis: u32,
    pub bullet: u32,
    pub link: u32,
    pub modified_fg: u32,
    pub modified_bg: u32,
    /// `cursorline`: a wash under the cursor line, under the text.
    pub cursor_line_bg: u32,
    pub git_add: u32,
    pub git_change: u32,
    pub git_delete: u32,
    pub diag_error: u32,
    pub diag_warn: u32,
    pub diag_info: u32,
    pub diag_hint: u32,
    pub pmenu_bg: u32,
    pub pmenu_sel_bg: u32,
}

pub open spec fn dark_theme() -> Theme {
    Theme {
        bg: 0x0F1117,
        fg: 0xD3D9E4,
        line_nr: 0x454C5E,
        cursor_line_nr: 0xE0C285,
        status_fg: 0xB9C2D6,
        status_bg: 0x1B2130,
        visual: 0x2B3350,
        search_fg: 0x11141C,
        search_bg: 0xE0C285,
        error: 0xE86B7E,
        non_text: 0x272D3A,
        heading: 0x7FA7F5,
        code: 0x93C97E,
        emphasis: 0xB38DEF,
        bullet: 0xE0C285,
        link: 0x6FC7EF,
        modified_fg: 0xE86B7E,
        modified_bg: 0x1B2130,
        cursor_line_bg: 0x161A24,
        git_add: 0x75C47A,
        git_change: 0xE0C285,
        git_delete: 0xE86B7E,
        diag_error: 0xE86B7E,
        diag_warn: 0xE0C285,
        diag_info: 0x6FC7EF,
        diag_hint: 0x93C97E,
        pmenu_bg: 0x202636,
        pmenu_sel_bg: 0x33405F,
    }
}

pub open spec fn light_theme() -> Theme {
    Theme {
        bg: 0xF7F8FB,
        fg: 0x2B3140,
        line_nr: 0xA8B0C2,
        cursor_line_nr: 0x9A6B12,
        status_fg: 0x3D4557,
        status_bg: 0xE6EAF3,
        visual: 0xD3DEF7,
        search_fg: 0x2B3140,
        search_bg: 0xF3D9A0,
        error: 0xC0324B,
        non_text: 0xD8DDE8,
        heading: 0x2F5FD0,
        code: 0x2F7A3F,
        emphasis: 0x7040B8,
        bullet: 0x9A6B12,
        link: 0x1C6B93,
        modified_fg: 0xC0324B,
        modified_bg: 0xE6EAF3,
        cursor_line_bg: 0xECEFF6,
        git_add: 0x2F7A3F,
        git_change: 0x9A6B12,
        git_delete: 0xC0324B,
        diag_error: 0xC0324B,
        diag_warn: 0x9A6B12,
        diag_info: 0x1C6B93,
        diag_hint: 0x2F7A3F,
        pmenu_bg: 0xE8ECF5,
        pmenu_sel_bg: 0xCBD8F2,
    }
}

impl Theme {
    pub fn dark() -> (t: Theme)
        ensures
            t == dark_theme(),
    {
        Theme {
            bg: 0x0F1117,
            fg: 0xD3D9E4,
            line_nr: 0x454C5E,
            cursor_line_nr: 0xE0C285,
            status_fg: 0xB9C2D6,
            status_bg: 0x1B2130,
            visual: 0x2B3350,
            search_fg: 0x11141C,
            search_bg: 0xE0C285,
            error: 0xE86B7E,
            non_text: 0x272D3A,
            heading: 0x7FA7F5,
            code: 0x93C97E,
            emphasis: 0xB38DEF,
            bullet: 0xE0C285,
            link: 0x6FC7EF,
            modified_fg: 0xE86B7E,
            modified_bg: 0x1B2130,
            cursor_line_bg: 0x161A24,
            git_add: 0x75C47A,
            git_change: 0xE0C285,
            git_delete: 0xE86B7E,
            diag_error: 0xE86B7E,
            diag_warn: 0xE0C285,
            diag_info: 0x6FC7EF,
            diag_hint: 0x93C97E,
            pmenu_bg: 0x202636,
            pmenu_sel_bg: 0x33405F,
        }
    }

    pub fn light() -> (t: Theme)
        ensures
            t == light_theme(),
    {
        Theme {
            bg: 0xF7F8FB,
            fg: 0x2B3140,
            line_nr: 0xA8B0C2,
            cursor_line_nr: 0x9A6B12,
            status_fg: 0x3D4557,
            status_bg: 0xE6EAF3,
            visual: 0xD3DEF7,
            search_fg: 0x2B3140,
            search_bg: 0xF3D9A0,
            error: 0xC0324B,
            non_text: 0xD8DDE8,
            heading: 0x2F5FD0,
            code: 0x2F7A3F,
            emphasis: 0x7040B8,
            bullet: 0x9A6B12,
            link: 0x1C6B93,
            modified_fg: 0xC0324B,
            modified_bg: 0xE6EAF3,
            cursor_line_bg: 0xECEFF6,
            git_add: 0x2F7A3F,
            git_change: 0x9A6B12,
            git_delete: 0xC0324B,
            diag_error: 0xC0324B,
            diag_warn: 0x9A6B12,
            diag_info: 0x1C6B93,
            diag_hint: 0x2F7A3F,
            pmenu_bg: 0xE8ECF5,
            pmenu_sel_bg: 0xCBD8F2,
        }
    }

    /// `"light"` names the light palette; every other name the dark one.
    pub fn named(name: &str) -> (t: Theme)
        ensures
            t == if name@ == "light"@ { light_theme() } else { dark_theme() },
    {
        if crate::text::same_text(name, "light") {
            Theme::light()
        } else {
            Theme::dark()
        }
    }
}

/// East Asian wide ranges (CJK, Hangul, fullwidth forms, pictographs)
/// take two cells; everything else one.
pub open spec fn wide(c: u32) -> bool {
    (0x1100 <= c <= 0x115F) || (0x2E80 <= c <= 0x303E) || (0x3041 <= c <= 0x33FF) || (0x3400 <= c <= 0x4DBF)
        || (0x4E00 <= c <= 0x9FFF) || (0xA000 <= c <= 0xA4CF) || (0xAC00 <= c <= 0xD7A3) || (0xF900 <= c <= 0xFAFF)
        || (0xFE30 <= c <= 0xFE6F) || (0xFF00 <= c <= 0xFF60) || (0xFFE0 <= c <= 0xFFE6) || (0x1F300 <= c
        <= 0x1F64F) || (0x1F900 <= c <= 0x1F9FF) || (0x20000 <= c <= 0x2FFFD) || (0x30000 <= c <= 0x3FFFD)
}

pub open spec fn width_of(ch: char) -> usize {
    if wide(ch as u32) { 2 } else { 1 }
}

/// Display width in grid cells: a CJK character is one column of the
/// editing core and two cells on screen.
pub fn char_width(ch: char) -> (w: usize)
    ensures
        w == width_of(ch),
{
    let c = ch as u32;
    let wide = (0x1100 <= c && c <= 0x115F) || (0x2E80 <= c && c <= 0x303E) || (0x3041 <= c && c <= 0x33FF)
        || (0x3400 <= c && c <= 0x4DBF) || (0x4E00 <= c && c <= 0x9FFF) || (0xA000 <= c && c <= 0xA4CF) || (0xAC00
        <= c && c <= 0xD7A3) || (0xF900 <= c && c <= 0xFAFF) || (0xFE30 <= c && c <= 0xFE6F) || (0xFF00 <= c && c
        <= 0xFF60) || (0xFFE0 <= c && c <= 0xFFE6) || (0x1F300 <= c && c <= 0x1F64F) || (0x1F900 <= c && c
        <= 0x1F9FF) || (0x20000 <= c && c <= 0x2FFFD) || (0x30000 <= c && c <= 0x3FFFD);
    if wide { 2 } else { 1 }
}

/// The gutter for a buffer of `lines` lines: room for the widest line
/// number (at least three digits), a space, and the sign cell.
pub open spec fn gutter_of(lines: usize) -> usize {
    let digits = decimal(lines as nat).len();
    ((if digits > 3 { digits } else { 3 }) + 2) as usize
}

pub fn gutter_width(lines: usize) -> (w: usize)
    ensures
        w == gutter_of(lines),
{
    let digits = chars_of(decimal_text(lines).as_str()).len();
    proof {
        crate::text::lemma_decimal_len_usize(lines);
    }
    (if digits > 3 { digits } else { 3 }) + 2
}

/// `text` cut from the front to fit `limit` characters (never fewer than
/// eight), an ellipsis marking the cut.
pub open spec fn shortened(text: Seq<char>, limit: usize) -> Seq<char> {
    let l = if limit > 8 { limit as int } else { 8 };
    if text.len() <= l {
        text
    } else {
        seq!['…'] + text.skip(text.len() - (l - 1))
    }
}

pub fn shorten(text: &str, limit: usize) -> (s: String)
    ensures
        s@ == shortened(text@, limit),
{
    let chars = chars_of(text);
    let l = if limit > 8 { limit } else { 8 };
    if chars.len() <= l {
        return text.to_string();
    }
    let keep = l - 1;
    let skipped = chars.len() - keep;
    let mut out: Vec<char> = vec!['…'];
    let mut i = skipped;
    while i < chars.len()
        invariant
            skipped <= i <= chars@.len(),
            out@ == seq!['…'] + chars@.subrange(skipped as int, i as int),
        decreases chars@.len() - i,
    {
        out.push(chars[i]);
        i = i + 1;
        assert(out@ =~= seq!['…'] + chars@.subrange(skipped as int, i as int));
    }
    assert(chars@.subrange(skipped as int, chars@.len() as int) =~= chars@.skip(skipped as int));
    string_of(out.as_slice())
}

/// Whether character `index` of `text` lies inside an occurrence of
/// `pattern`.
pub open spec fn within_match(text: Seq<char>, pattern: Seq<char>, index: int) -> bool {
    pattern.len() > 0 && exists|start: int| index - (pattern.len() - 1) <= start <= index && #[trigger]
        crate::text::occurs_at(text, pattern, start)
}

pub fn matches_at(text: &str, pattern: &str, index: usize) -> (r: bool)
    ensures
        r == within_match(text@, pattern@, index as int),
{
    let chars = chars_of(text);
    let needle = chars_of(pattern);
    if needle.len() == 0 {
        return false;
    }
    let first = if index >= needle.len() - 1 { index - (needle.len() - 1) } else { 0 };
    let mut start = first;
    while start <= index
        invariant
            first <= start,
            needle@ == pattern@,
            chars@ == text@,
            needle@.len() > 0,
            first == if index >= needle@.len() - 1 { index - (needle@.len() - 1) } else { 0 },
            forall|s: int| first <= s < start ==> !crate::text::occurs_at(text@, pattern@, s),
        decreases index + 1 - start,
    {
        if crate::text::occurs(chars.as_slice(), needle.as_slice(), start) {
            return true;
        }
        if start == index {
            proof {
                assert forall|s: int| index - (pattern@.len() - 1) <= s <= index implies !crate::text::occurs_at(
                    text@,
                    pattern@,
                    s,
                ) by {
                    if s < first {
                        assert(s < 0);
                    }
                }
            }
            return false;
        }
        start = start + 1;
    }
    proof {
        assert forall|s: int| index - (pattern@.len() - 1) <= s <= index implies !crate::text::occurs_at(
            text@,
            pattern@,
            s,
        ) by {
            if s < first {
                assert(s < 0);
            }
        }
    }
    false
}

/// Whether the cell at `line`, `col` is inside the visual selection.
pub open spec fn visual_contains(range: Option<((usize, usize), (usize, usize))>, kind: Option<Visual>, line: usize, col: usize) -> bool {
    match range {
        None => false,
        Some((start, end)) => match kind {
            Some(Visual::Line) => start.0 <= line <= end.0,
            Some(Visual::Char) => start.0 <= line <= end.0 && (line > start.0 || col >= start.1) && (line < end.0
                || col <= end.1),
            None => false,
        },
    }
}

pub fn in_visual(range: Option<((usize, usize), (usize, usize))>, kind: Option<Visual>, line: usize, col: usize) -> (r: bool)
    ensures
        r == visual_contains(range, kind, line, col),
{
    let (start, end) = match range {
        Some(r) => r,
        None => {
            return false;
        },
    };
    match kind {
        Some(Visual::Line) => line >= start.0 && line <= end.0,
        Some(Visual::Char) => {
            if line < start.0 || line > end.0 {
                return false;
            }
            let after_start = line > start.0 || col >= start.1;
            let before_end = line < end.0 || col <= end.1;
            after_start && before_end
        },
        None => false,
    }
}


// ---------------------------------------------------------------------------
// Markdown styling
// ---------------------------------------------------------------------------

/// The first `c` at or after `i`.
pub open spec fn find_from(chars: Seq<char>, c: char, i: int) -> Option<int>
    decreases chars.len() - i,
{
    if i < 0 || i >= chars.len() {
        None
    } else if chars[i] == c {
        Some(i)
    } else {
        find_from(chars, c, i + 1)
    }
}

/// The first doubled `m` (`**`, `__`) starting at or after `i`.
pub open spec fn find_pair_from(chars: Seq<char>, m: char, i: int) -> Option<int>
    decreases chars.len() - i,
{
    if i < 0 || i + 1 >= chars.len() {
        None
    } else if chars[i] == m && chars[i + 1] == m {
        Some(i)
    } else {
        find_pair_from(chars, m, i + 1)
    }
}

pub proof fn lemma_find_from(chars: Seq<char>, c: char, i: int)
    ensures
        find_from(chars, c, i) matches Some(k) ==> i <= k < chars.len() && chars[k] == c,
    decreases chars.len() - i,
{
    if 0 <= i < chars.len() && chars[i] != c {
        lemma_find_from(chars, c, i + 1);
    }
}

pub proof fn lemma_find_pair_from(chars: Seq<char>, m: char, i: int)
    ensures
        find_pair_from(chars, m, i) matches Some(k) ==> i <= k && k + 1 < chars.len(),
    decreases chars.len() - i,
{
    if 0 <= i && i + 1 < chars.len() && !(chars[i] == m && chars[i + 1] == m) {
        lemma_find_pair_from(chars, m, i + 1);
    }
}

/// `spans` with positions `a..b` set to `v`.
pub open spec fn marked(spans: Seq<u64>, a: int, b: int, v: u64) -> Seq<u64> {
    Seq::new(spans.len(), |i: int| if a <= i < b { v } else { spans[i] })
}

/// The inline pass from `index` on: a backquoted run is code, a doubled `*`
/// or `_` run emphasis, a bracketed run a link; an opener without its
/// closer is plain.
pub open spec fn inline_spans(chars: Seq<char>, spans: Seq<u64>, index: int) -> Seq<u64>
    decreases chars.len() - index,
{
    if index < 0 || index >= chars.len() {
        spans
    } else {
        let c = chars[index];
        if c == '`' && find_from(chars, '`', index + 1) is Some {
            let close = find_from(chars, '`', index + 1).unwrap();
            proof {
                lemma_find_from(chars, '`', index + 1);
            }
            inline_spans(chars, marked(spans, index, close + 1, hl::CODE), close + 1)
        } else if (c == '*' || c == '_') && index + 1 < chars.len() && chars[index + 1] == c && find_pair_from(
            chars,
            c,
            index + 2,
        ) is Some {
            let close = find_pair_from(chars, c, index + 2).unwrap();
            proof {
                lemma_find_pair_from(chars, c, index + 2);
            }
            inline_spans(chars, marked(spans, index, close + 2, hl::EMPHASIS), close + 2)
        } else if c == '[' && find_from(chars, ']', index + 1) is Some {
            let close = find_from(chars, ']', index + 1).unwrap();
            proof {
                lemma_find_from(chars, ']', index + 1);
            }
            inline_spans(chars, marked(spans, index, close + 1, hl::LINK), close + 1)
        } else {
            inline_spans(chars, spans, index + 1)
        }
    }
}

pub open spec fn starts(s: Seq<char>, p: Seq<char>) -> bool {
    p.len() <= s.len() && s.take(p.len() as int) == p
}

/// Line-level markdown styling, one highlight per character: a heading,
/// a fence line and a quote are styled whole; a list bullet is marked; then
/// the inline pass runs.
pub open spec fn markdown_styles(chars: Seq<char>) -> Seq<u64> {
    let trimmed = crate::text::trim_start_ws(chars);
    let indent = chars.len() - trimmed.len();
    let n = chars.len();
    if starts(trimmed, seq!['#']) {
        Seq::new(n, |i: int| hl::HEADING)
    } else if starts(trimmed, seq!['`', '`', '`']) || starts(trimmed, seq!['~', '~', '~']) {
        Seq::new(n, |i: int| hl::CODE)
    } else if starts(trimmed, seq!['>', ' ']) {
        Seq::new(n, |i: int| hl::EMPHASIS)
    } else {
        let base = Seq::new(n, |i: int| hl::DEFAULT);
        let bulleted = if starts(trimmed, seq!['-', ' ']) || starts(trimmed, seq!['*', ' ']) || starts(
            trimmed,
            seq!['+', ' '],
        ) {
            marked(base, indent, indent + 1, hl::BULLET)
        } else {
            base
        };
        inline_spans(chars, bulleted, 0)
    }
}

proof fn lemma_trim_start_suffix(s: Seq<char>)
    ensures
        crate::text::trim_start_ws(s).len() <= s.len(),
        crate::text::trim_start_ws(s) == s.skip(s.len() - crate::text::trim_start_ws(s).len()),
    decreases s.len(),
{
    if s.len() > 0 && crate::text::spec_is_whitespace(s[0]) {
        lemma_trim_start_suffix(s.drop_first());
        let t = crate::text::trim_start_ws(s.drop_first());
        assert(s.drop_first().skip(s.drop_first().len() - t.len()) =~= s.skip(s.len() - t.len()));
    } else {
        assert(s.skip(0) =~= s);
    }
}

fn find_char_exec(chars: &Vec<char>, c: char, i: usize) -> (r: Option<usize>)
    ensures
        match r {
            Some(k) => find_from(chars@, c, i as int) == Some(k as int) && i <= k < chars@.len(),
            None => find_from(chars@, c, i as int) is None,
        },
{
    proof {
        lemma_find_from(chars@, c, i as int);
    }
    let mut k = i;
    while k < chars.len()
        invariant
            i <= k,
            find_from(chars@, c, k as int) == find_from(chars@, c, i as int),
        decreases chars@.len() - k,
    {
        if chars[k] == c {
            return Some(k);
        }
        k = k + 1;
    }
    None
}

fn find_pair_exec(chars: &Vec<char>, m: char, i: usize) -> (r: Option<usize>)
    ensures
        match r {
            Some(k) => find_pair_from(chars@, m, i as int) == Some(k as int) && i <= k && k + 1 < chars@.len(),
            None => find_pair_from(chars@, m, i as int) is None,
        },
{
    proof {
        lemma_find_pair_from(chars@, m, i as int);
    }
    let mut k = i;
    while k < chars.len() && k + 1 < chars.len()
        invariant
            i <= k,
            find_pair_from(chars@, m, k as int) == find_pair_from(chars@, m, i as int),
        decreases chars@.len() - k,
    {
        if chars[k] == m && chars[k + 1] == m {
            return Some(k);
        }
        k = k + 1;
    }
    None
}

fn mark(spans: &mut Vec<u64>, a: usize, b: usize, v: u64)
    ensures
        final(spans)@ == marked(old(spans)@, a as int, b as int, v),
{
    let mut i = a;
    let ghost start = spans@;
    while i < b && i < spans.len()
        invariant
            a <= i,
            i == a || i <= b,
            spans@.len() == start.len(),
            forall|j: int| 0 <= j < spans@.len() ==> spans@[j] == if a <= j < i { v } else { start[j] },
        decreases spans@.len() - i,
    {
        spans.set(i, v);
        i = i + 1;
    }
    assert(spans@ =~= marked(start, a as int, b as int, v));
}

fn starts_exec(s: &[char], from: usize, p: &str) -> (r: bool)
    requires
        from <= s@.len(),
    ensures
        r == starts(s@.skip(from as int), p@),
{
    let pc = chars_of(p);
    let slen = s.len();
    if s.len() - from < pc.len() {
        return false;
    }
    let mut k: usize = 0;
    while k < pc.len()
        invariant
            k <= pc@.len(),
            pc@ == p@,
            slen == s@.len(),
            from + pc@.len() <= s@.len(),
            forall|q: int| 0 <= q < k ==> s@[from + q] == pc@[q],
        decreases pc@.len() - k,
    {
        if s[from + k] != pc[k] {
            assert(s@.skip(from as int).take(pc@.len() as int)[k as int] != p@[k as int]);
            return false;
        }
        k = k + 1;
    }
    assert(s@.skip(from as int).take(pc@.len() as int) =~= p@);
    true
}

/// The highlight of each character of `text` under markdown styling.
pub fn markdown_spans(text: &str) -> (spans: Vec<u64>)
    ensures
        spans@ == markdown_styles(text@),
{
    let chars = chars_of(text);
    let n = chars.len();
    proof {
        reveal_strlit("#");
        reveal_strlit("```");
        reveal_strlit("~~~");
        reveal_strlit("> ");
        reveal_strlit("- ");
        reveal_strlit("* ");
        reveal_strlit("+ ");
        assert(chars@.skip(0) =~= chars@);
        assert("#"@ =~= seq!['#']);
        assert("```"@ =~= seq!['`', '`', '`']);
        assert("~~~"@ =~= seq!['~', '~', '~']);
        assert("> "@ =~= seq!['>', ' ']);
        assert("- "@ =~= seq!['-', ' ']);
        assert("* "@ =~= seq!['*', ' ']);
        assert("+ "@ =~= seq!['+', ' ']);
    }
    let mut indent: usize = 0;
    while indent < n && crate::text::is_whitespace(chars[indent])
        invariant
            indent <= n == chars@.len(),
            crate::text::trim_start_ws(chars@.skip(indent as int)) == crate::text::trim_start_ws(chars@),
        decreases n - indent,
    {
        assert(chars@.skip(indent as int).drop_first() =~= chars@.skip(indent + 1));
        indent = indent + 1;
    }
    proof {
        assert(chars@.skip(0) =~= chars@);
        assert(crate::text::trim_start_ws(chars@.skip(indent as int)) == chars@.skip(indent as int)) by {
            if indent < n {
                assert(chars@.skip(indent as int)[0] == chars@[indent as int]);
            }
        }
        assert(chars@.len() - crate::text::trim_start_ws(chars@).len() == indent);
    }
    let ghost trimmed = chars@.skip(indent as int);
    let mut spans: Vec<u64> = Vec::new();
    let fill = if starts_exec(chars.as_slice(), indent, "#") {
        Some(hl::HEADING)
    } else if starts_exec(chars.as_slice(), indent, "```") || starts_exec(chars.as_slice(), indent, "~~~") {
        Some(hl::CODE)
    } else if starts_exec(chars.as_slice(), indent, "> ") {
        Some(hl::EMPHASIS)
    } else {
        None
    };
    let v = match fill {
        Some(v) => v,
        None => hl::DEFAULT,
    };
    let mut k: usize = 0;
    while k < n
        invariant
            k <= n,
            spans@ == Seq::new(k as nat, |i: int| v),
        decreases n - k,
    {
        spans.push(v);
        k = k + 1;
        assert(spans@ =~= Seq::new(k as nat, |i: int| v));
    }
    if fill.is_some() {
        proof {
            assert(crate::text::trim_start_ws(chars@) == trimmed);
        }
        return spans;
    }
    proof {
        assert(crate::text::trim_start_ws(chars@) == trimmed);
        assert(spans@ =~= Seq::new(n as nat, |i: int| hl::DEFAULT));
    }
    if starts_exec(chars.as_slice(), indent, "- ") || starts_exec(chars.as_slice(), indent, "* ") || starts_exec(
        chars.as_slice(),
        indent,
        "+ ",
    ) {
        mark(&mut spans, indent, indent + 1, hl::BULLET);
    }
    let mut index: usize = 0;
    while index < n
        invariant
            index <= n == chars@.len(),
            spans@.len() == n,
            inline_spans(chars@, spans@, index as int) == markdown_styles(text@),
        decreases n - index,
    {
        let c = chars[index];
        if c == '`' {
            if let Some(close) = find_char_exec(&chars, '`', index + 1) {
                mark(&mut spans, index, close + 1, hl::CODE);
                index = close + 1;
                continue;
            }
        } else if (c == '*' || c == '_') && index + 1 < n && chars[index + 1] == c {
            if let Some(close) = find_pair_exec(&chars, c, index + 2) {
                mark(&mut spans, index, close + 2, hl::EMPHASIS);
                index = close + 2;
                continue;
            }
        } else if c == '[' {
            if let Some(close) = find_char_exec(&chars, ']', index + 1) {
                mark(&mut spans, index, close + 1, hl::LINK);
                index = close + 1;
                continue;
            }
        }
        index = index + 1;
    }
    spans
}


// ---------------------------------------------------------------------------
// Diagnostics in a window
// ---------------------------------------------------------------------------

/// The highlight a diagnostic of severity `rank` draws with.
pub open spec fn diag_hl_of(rank: u8) -> u64 {
    if rank == 1 {
        hl::DIAG_ERROR
    } else if rank == 2 {
        hl::DIAG_WARN
    } else if rank == 3 {
        hl::DIAG_INFO
    } else {
        hl::DIAG_HINT
    }
}

/// The sign-column letter of a diagnostic of severity `rank`.
pub open spec fn sign_char_of(rank: u8) -> char {
    if rank == 1 {
        'E'
    } else if rank == 2 {
        'W'
    } else if rank == 3 {
        'I'
    } else {
        'H'
    }
}

/// Among the first `n` of `ds`, the first of the most severe that start on
/// `line`.
pub open spec fn worst_on_line(ds: Seq<Diagnostic>, line: usize, n: int) -> Option<int>
    decreases n,
{
    if n <= 0 {
        None
    } else {
        let prev = worst_on_line(ds, line, n - 1);
        let d = ds[n - 1];
        if d.range.start.line != line {
            prev
        } else {
            match prev {
                None => Some(n - 1),
                Some(p) => if rank_of(d) < rank_of(ds[p]) { Some(n - 1) } else { prev },
            }
        }
    }
}

/// Among the first `n` of `ds`, the first of the most severe whose range
/// covers `(line, col)` of `lines`.
pub open spec fn worst_covering(ds: Seq<Diagnostic>, lines: Seq<Seq<char>>, line: usize, col: usize, n: int) -> Option<int>
    decreases n,
{
    if n <= 0 {
        None
    } else {
        let prev = worst_covering(ds, lines, line, col, n - 1);
        let d = ds[n - 1];
        if !covers(d.range, lines, line, col) {
            prev
        } else {
            match prev {
                None => Some(n - 1),
                Some(p) => if rank_of(d) < rank_of(ds[p]) { Some(n - 1) } else { prev },
            }
        }
    }
}

pub open spec fn index_of(r: Option<usize>) -> Option<int> {
    match r {
        Some(k) => Some(k as int),
        None => None,
    }
}

fn diagnostic_hl(diagnostic: &Diagnostic) -> (h: u64)
    ensures
        h == diag_hl_of(rank_of(*diagnostic)),
{
    let rank = diagnostic.severity_rank();
    if rank == 1 {
        hl::DIAG_ERROR
    } else if rank == 2 {
        hl::DIAG_WARN
    } else if rank == 3 {
        hl::DIAG_INFO
    } else {
        hl::DIAG_HINT
    }
}

/// The index of the first of the most severe diagnostics on `line`.
fn first_diagnostic_on_line(diagnostics: &[Diagnostic], line: usize) -> (r: Option<usize>)
    ensures
        index_of(r) == worst_on_line(diagnostics@, line, diagnostics@.len() as int),
        r matches Some(k) ==> k < diagnostics@.len(),
{
    let mut best: Option<usize> = None;
    let mut i: usize = 0;
    while i < diagnostics.len()
        invariant
            i <= diagnostics@.len(),
            index_of(best) == worst_on_line(diagnostics@, line, i as int),
            best matches Some(k) ==> k < i,
        decreases diagnostics@.len() - i,
    {
        let d = &diagnostics[i];
        if d.line() == line {
            match best {
                None => {
                    best = Some(i);
                },
                Some(p) => {
                    if d.severity_rank() < diagnostics[p].severity_rank() {
                        best = Some(i);
                    }
                },
            }
        }
        i = i + 1;
    }
    best
}

/// The sign a diagnostic puts on `line`, if any starts there.
fn diagnostic_sign_at(diagnostics: &[Diagnostic], line: usize) -> (r: Option<(char, u64)>)
    ensures
        r == match worst_on_line(diagnostics@, line, diagnostics@.len() as int) {
            Some(k) => Some((sign_char_of(rank_of(diagnostics@[k])), diag_hl_of(rank_of(diagnostics@[k])))),
            None => None,
        },
{
    let k = match first_diagnostic_on_line(diagnostics, line) {
        Some(k) => k,
        None => {
            return None;
        },
    };
    let d = &diagnostics[k];
    let rank = d.severity_rank();
    let ch = if rank == 1 {
        'E'
    } else if rank == 2 {
        'W'
    } else if rank == 3 {
        'I'
    } else {
        'H'
    };
    Some((ch, diagnostic_hl(d)))
}

/// The highlight the most severe diagnostic covering `(line, col)` gives it.
fn diagnostic_hl_at(diagnostics: &[Diagnostic], buffer: &Buffer, line: usize, col: usize) -> (r: Option<u64>)
    requires
        buffer@.wf(),
        forall|i: int| 0 <= i < buffer@.lines.len() ==> #[trigger] buffer@.lines[i].len() <= usize::MAX / 2,
    ensures
        r == match worst_covering(diagnostics@, buffer@.lines, line, col, diagnostics@.len() as int) {
            Some(k) => Some(diag_hl_of(rank_of(diagnostics@[k]))),
            None => None,
        },
{
    let mut best: Option<usize> = None;
    let mut i: usize = 0;
    while i < diagnostics.len()
        invariant
            buffer@.wf(),
            forall|i: int| 0 <= i < buffer@.lines.len() ==> #[trigger] buffer@.lines[i].len() <= usize::MAX / 2,
            i <= diagnostics@.len(),
            index_of(best) == worst_covering(diagnostics@, buffer@.lines, line, col, i as int),
            best matches Some(k) ==> k < i,
        decreases diagnostics@.len() - i,
    {
        let d = &diagnostics[i];
        if d.range.contains_buffer_position(buffer, line, col) {
            match best {
                None => {
                    best = Some(i);
                },
                Some(p) => {
                    if d.severity_rank() < diagnostics[p].severity_rank() {
                        best = Some(i);
                    }
                },
            }
        }
        i = i + 1;
    }
    match best {
        Some(k) => Some(diagnostic_hl(&diagnostics[k])),
        None => None,
    }
}


// ---------------------------------------------------------------------------
// A window's rows
// ---------------------------------------------------------------------------

#[derive(Clone, Copy, Debug, PartialEq, Eq, Structural)]
pub struct RenderCell {
    pub text: char,
    pub hl: u64,
}

#[derive(Clone, Debug, PartialEq, Eq)]
pub struct RenderRow {
    pub cells: Vec<RenderCell>,
    pub fill: u64,
}

/// What only the focused window draws: the selection, search matches, git
/// signs, blame and diagnostics.
pub struct FocusRender<'a> {
    pub visual_range: Option<((usize, usize), (usize, usize))>,
    pub visual_kind: Option<Visual>,
    pub last_search: Option<&'a str>,
    pub highlight_search: bool,
    pub vcs: Option<&'a VcsState>,
    pub cursor_blame: Option<String>,
    pub diagnostics: &'a [Diagnostic],
}

pub open spec fn visual_of<'a>(focus: Option<FocusRender<'a>>) -> Option<((usize, usize), (usize, usize))> {
    match focus {
        Some(f) => f.visual_range,
        None => None,
    }
}

pub open spec fn kind_of<'a>(focus: Option<FocusRender<'a>>) -> Option<Visual> {
    match focus {
        Some(f) => f.visual_kind,
        None => None,
    }
}

/// The search pattern drawn, when search highlighting is on.
pub open spec fn search_of<'a>(focus: Option<FocusRender<'a>>) -> Option<Seq<char>> {
    match focus {
        Some(f) => if f.highlight_search {
            match f.last_search {
                Some(p) => Some(p@),
                None => None,
            }
        } else {
            None
        },
        None => None,
    }
}

pub open spec fn diags_of<'a>(focus: Option<FocusRender<'a>>) -> Seq<Diagnostic> {
    match focus {
        Some(f) => f.diagnostics@,
        None => Seq::empty(),
    }
}

pub open spec fn blame_of<'a>(focus: Option<FocusRender<'a>>) -> Option<Seq<char>> {
    match focus {
        Some(f) => match f.cursor_blame {
            Some(b) => Some(b@),
            None => None,
        },
        None => None,
    }
}

/// The git sign on `line` of a buffer of `count` lines.
pub open spec fn vcs_sign_of<'a>(focus: Option<FocusRender<'a>>, line: int, count: int) -> Option<SignKind> {
    match focus {
        Some(f) => match f.vcs {
            Some(v) => sign_of(v.hunks@, line, count),
            None => None,
        },
        None => None,
    }
}

pub open spec fn spaces(n: int) -> Seq<char> {
    Seq::new(n as nat, |i: int| ' ')
}

/// `s` right-aligned in `width` columns.
pub open spec fn pad_left(s: Seq<char>, width: int) -> Seq<char> {
    if s.len() < width {
        spaces(width - s.len()) + s
    } else {
        s
    }
}

/// The characters of `text`, each drawn with `h`.
pub open spec fn cells_in(chars: Seq<char>, h: u64) -> Seq<RenderCell> {
    Seq::new(chars.len(), |i: int| cell_of(chars[i], h))
}

pub open spec fn cell_of(c: char, h: u64) -> RenderCell {
    RenderCell { text: c, hl: h }
}

/// The leading cells of `cells` that start left of column `cols` when the
/// first starts at `col`, each as wide as its character.
pub open spec fn fitted(cells: Seq<RenderCell>, col: int, cols: int) -> Seq<RenderCell>
    decreases cells.len(),
{
    if cells.len() == 0 || col >= cols {
        Seq::empty()
    } else {
        seq![cells[0]] + fitted(cells.drop_first(), col + width_of(cells[0].text), cols)
    }
}

/// The column after what `fitted` keeps.
pub open spec fn fitted_end(cells: Seq<RenderCell>, col: int, cols: int) -> int
    decreases cells.len(),
{
    if cells.len() == 0 || col >= cols {
        col
    } else {
        fitted_end(cells.drop_first(), col + width_of(cells[0].text), cols)
    }
}

/// The number column's text: the gutter number right-aligned and a space,
/// or blanks when the options show no number.
pub open spec fn number_text(o: Options, line: int, cursor_line: int, gutter: int) -> Seq<char> {
    match gutter_number(o, line, cursor_line) {
        Some(v) => pad_left(decimal(v as nat), gutter - 2).push(' '),
        None => spaces(gutter - 1),
    }
}

pub open spec fn number_hl_of(view: WindowView, line: int) -> u64 {
    if line == view.cursor.0 {
        hl::CURSOR_LINE_NR
    } else {
        hl::LINE_NR
    }
}

/// The highlight of text and fill on `line` when nothing else claims it.
pub open spec fn rest_of(view: WindowView, o: Options, line: int) -> u64 {
    if o.cursorline && line == view.cursor.0 {
        hl::CURSOR_LINE
    } else {
        hl::DEFAULT
    }
}

/// The sign cell: a diagnostic's letter, else the git sign, else blank.
pub open spec fn sign_cell<'a>(view: WindowView, lines: Seq<Seq<char>>, focus: Option<FocusRender<'a>>, line: int) -> RenderCell {
    let ds = diags_of(focus);
    match worst_on_line(ds, line as usize, ds.len() as int) {
        Some(k) => RenderCell { text: sign_char_of(rank_of(ds[k])), hl: diag_hl_of(rank_of(ds[k])) },
        None => match vcs_sign_of(focus, line, lines.len() as int) {
            Some(SignKind::Add) => RenderCell { text: '+', hl: hl::GIT_ADD },
            Some(SignKind::Change) => RenderCell { text: '~', hl: hl::GIT_CHANGE },
            Some(SignKind::Delete) => RenderCell { text: '-', hl: hl::GIT_DELETE },
            None => RenderCell { text: ' ', hl: number_hl_of(view, line) },
        },
    }
}

/// Character `index` of `line` as drawn: markdown style; with `list`, a tab
/// and trailing whitespace shown by their list characters; then the
/// selection, a diagnostic under it, or a search match, in that order.
pub open spec fn styled_cell<'a>(
    view: WindowView,
    lines: Seq<Seq<char>>,
    o: Options,
    focus: Option<FocusRender<'a>>,
    line: int,
    index: int,
) -> RenderCell {
    let chars = lines[line];
    let spans = markdown_styles(chars);
    let base = if index < spans.len() { spans[index] } else { rest_of(view, o, line) };
    let c = chars[index];
    let shown = if o.list && c == '\t' {
        o.listchar_tab
    } else if o.list && index >= trim_end_ws(chars).len() {
        o.listchar_trail
    } else {
        c
    };
    let listed = if o.list && (c == '\t' || index >= trim_end_ws(chars).len()) { hl::NON_TEXT } else { base };
    let ds = diags_of(focus);
    let h = if visual_contains(visual_of(focus), kind_of(focus), line as usize, index as usize) {
        hl::VISUAL
    } else {
        match worst_covering(ds, lines, line as usize, index as usize, ds.len() as int) {
            Some(k) => diag_hl_of(rank_of(ds[k])),
            None => match search_of(focus) {
                Some(p) => if p.len() > 0 && within_match(chars, p, index) { hl::SEARCH } else { listed },
                None => listed,
            },
        }
    };
    RenderCell { text: shown, hl: h }
}

/// What follows the text: the most severe diagnostic's message on its
/// line, or on the cursor line the blame, after two blanks.
pub open spec fn trailing_cells<'a>(view: WindowView, focus: Option<FocusRender<'a>>, line: int) -> Seq<RenderCell> {
    let ds = diags_of(focus);
    match worst_on_line(ds, line as usize, ds.len() as int) {
        Some(k) => cells_in(spaces(2) + ds[k].message@, diag_hl_of(rank_of(ds[k]))),
        None => if line == view.cursor.0 {
            match blame_of(focus) {
                Some(b) => cells_in(spaces(2) + b, hl::NON_TEXT),
                None => Seq::empty(),
            }
        } else {
            Seq::empty()
        },
    }
}

/// The cells of buffer line `line`: number column, sign cell, then as much
/// of the styled text and the trailing note as fits from the gutter on.
pub open spec fn line_cells<'a>(
    view: WindowView,
    lines: Seq<Seq<char>>,
    o: Options,
    focus: Option<FocusRender<'a>>,
    line: int,
) -> Seq<RenderCell> {
    let gutter = gutter_of(lines.len() as usize) as int;
    let head = cells_in(number_text(o, line, view.cursor.0 as int, gutter), number_hl_of(view, line)).push(
        sign_cell(view, lines, focus, line),
    );
    let styled = Seq::new(lines[line].len(), |i: int| styled_cell(view, lines, o, focus, line, i));
    let end = fitted_end(styled, gutter, view.cols as int);
    head + fitted(styled, gutter, view.cols as int) + fitted(trailing_cells(view, focus, line), end, view.cols as int)
}

/// The highlight past the end of `line`'s cells.
pub open spec fn line_fill<'a>(view: WindowView, o: Options, focus: Option<FocusRender<'a>>, line: int) -> u64 {
    let in_lines = match visual_of(focus) {
        Some((a, b)) => a.0 <= line <= b.0,
        None => false,
    };
    if kind_of(focus) == Some(Visual::Line) && in_lines {
        hl::VISUAL
    } else {
        rest_of(view, o, line)
    }
}

/// Screen row `r` of the window: a buffer line, or `~` past the end.
pub open spec fn window_row<'a>(
    view: WindowView,
    lines: Seq<Seq<char>>,
    o: Options,
    focus: Option<FocusRender<'a>>,
    r: int,
) -> (Seq<RenderCell>, u64) {
    let line = view.top_line + r;
    if line >= lines.len() {
        (seq![RenderCell { text: '~', hl: hl::NON_TEXT }], hl::DEFAULT)
    } else {
        (line_cells(view, lines, o, focus, line), line_fill(view, o, focus, line))
    }
}


fn spaces_vec(n: usize) -> (v: Vec<char>)
    ensures
        v@ == spaces(n as int),
{
    let mut v: Vec<char> = Vec::new();
    while v.len() < n
        invariant
            v@.len() <= n,
            v@ == spaces(v@.len() as int),
        decreases n - v@.len(),
    {
        v.push(' ');
        assert(v@ =~= spaces(v@.len() as int));
    }
    v
}

fn push_cells(out: &mut Vec<RenderCell>, text: &Vec<char>, h: u64)
    ensures
        final(out)@ == old(out)@ + cells_in(text@, h),
{
    let ghost start = out@;
    let mut i: usize = 0;
    assert(start + cells_in(text@.take(0), h) =~= start);
    while i < text.len()
        invariant
            i <= text@.len(),
            out@ == start + cells_in(text@.take(i as int), h),
        decreases text@.len() - i,
    {
        let ghost before = out@;
        let cell = RenderCell { text: text[i], hl: h };
        out.push(cell);
        proof {
            let a = cells_in(text@.take(i as int), h);
            let c = cell_of(text@[i as int], h);
            assert(cell == c);
            assert(cells_in(text@.take(i + 1), h) =~= a.push(c));
            assert((start + a).push(c) =~= start + a.push(c));
        }
        i = i + 1;
    }
    assert(text@.take(i as int) =~= text@);
}

/// Where the trailing whitespace of `chars` begins.
fn trailing_start(chars: &Vec<char>) -> (r: usize)
    ensures
        r == trim_end_ws(chars@).len(),
{
    let mut b = chars.len();
    assert(chars@.take(b as int) =~= chars@);
    while b > 0 && is_whitespace(chars[b - 1])
        invariant
            b <= chars@.len(),
            trim_end_ws(chars@) == trim_end_ws(chars@.take(b as int)),
        decreases b,
    {
        assert(chars@.take(b as int).drop_last() =~= chars@.take(b - 1));
        b = b - 1;
    }
    b
}

/// The number column's cells, drawn with `h`.
fn number_cells(options: &Options, line: usize, cursor_line: usize, gutter: usize, h: u64) -> (cells: Vec<RenderCell>)
    requires
        gutter >= 2,
        line < usize::MAX,
    ensures
        cells@ == cells_in(number_text(*options, line as int, cursor_line as int, gutter as int), h),
{
    let text: Vec<char> = match options.line_number(line, cursor_line) {
        Some(v) => {
            let digits = chars_of(decimal_text(v).as_str());
            let width = gutter - 2;
            let mut t: Vec<char> = if digits.len() < width { spaces_vec(width - digits.len()) } else { Vec::new() };
            let ghost pad = t@;
            let mut i: usize = 0;
            while i < digits.len()
                invariant
                    i <= digits@.len(),
                    t@ == pad + digits@.take(i as int),
                decreases digits@.len() - i,
            {
                t.push(digits[i]);
                i = i + 1;
                assert(t@ =~= pad + digits@.take(i as int));
            }
            assert(digits@.take(i as int) =~= digits@);
            t.push(' ');
            proof {
                if digits@.len() >= width {
                    assert(pad + digits@ =~= digits@);
                }
            }
            t
        },
        None => spaces_vec(gutter - 1),
    };
    let mut cells: Vec<RenderCell> = Vec::new();
    push_cells(&mut cells, &text, h);
    assert(cells@ =~= cells_in(text@, h));
    cells
}

/// Appends what of `cells` fits from column `col`, and gives the column
/// after it.
fn fit_into(out: &mut Vec<RenderCell>, cells: &Vec<RenderCell>, col: usize, cols: usize) -> (end: usize)
    requires
        cols < usize::MAX,
    ensures
        final(out)@ == old(out)@ + fitted(cells@, col as int, cols as int),
        end == fitted_end(cells@, col as int, cols as int),
{
    let ghost start = out@;
    let mut c = col;
    let mut i: usize = 0;
    assert(cells@.skip(0) =~= cells@);
    while i < cells.len() && c < cols
        invariant
            cols < usize::MAX,
            i <= cells@.len(),
            start + fitted(cells@, col as int, cols as int) == out@ + fitted(cells@.skip(i as int), c as int, cols as int),
            fitted_end(cells@, col as int, cols as int) == fitted_end(cells@.skip(i as int), c as int, cols as int),
        decreases cells@.len() - i,
    {
        let cell = cells[i];
        proof {
            let rest = cells@.skip(i as int);
            assert(rest[0] == cell);
            assert(rest.drop_first() =~= cells@.skip(i + 1));
        }
        out.push(cell);
        c = c + char_width(cell.text);
        i = i + 1;
        assert(out@ + fitted(cells@.skip(i as int), c as int, cols as int) =~= start + fitted(cells@, col as int, cols as int));
    }
    proof {
        assert(fitted(cells@.skip(i as int), c as int, cols as int) =~= Seq::<RenderCell>::empty());
        assert(out@ =~= start + fitted(cells@, col as int, cols as int));
    }
    c
}


/// The diagnostics the focused window draws.
fn focus_diagnostics<'a>(focus: &Option<FocusRender<'a>>) -> (ds: &'a [Diagnostic])
    ensures
        ds@ == diags_of(*focus),
{
    match focus {
        Some(f) => f.diagnostics,
        None => {
            let empty: &[Diagnostic] = &[];
            assert(empty@ =~= Seq::<Diagnostic>::empty());
            empty
        },
    }
}

/// Character `index` of buffer line `line` as drawn.
fn cell_at(
    view: &WindowView,
    buffer: &Buffer,
    options: &Options,
    focus: &Option<FocusRender<'_>>,
    line: usize,
    chars: &Vec<char>,
    text: &str,
    spans: &Vec<u64>,
    trail: usize,
    index: usize,
) -> (c: RenderCell)
    requires
        buffer@.wf(),
        forall|i: int| 0 <= i < buffer@.lines.len() ==> #[trigger] buffer@.lines[i].len() <= usize::MAX / 2,
        line < buffer@.lines.len(),
        chars@ == buffer@.lines[line as int],
        text@ == chars@,
        spans@ == markdown_styles(chars@),
        trail == trim_end_ws(chars@).len(),
        index < chars@.len(),
    ensures
        c == styled_cell(*view, buffer@.lines, *options, *focus, line as int, index as int),
{
    let rest = if options.cursorline && line == view.cursor.0 { hl::CURSOR_LINE } else { hl::DEFAULT };
    let base = if index < spans.len() { spans[index] } else { rest };
    let ch = chars[index];
    let (shown, listed) = if options.list && ch == '\t' {
        (options.listchar_tab, hl::NON_TEXT)
    } else if options.list && index >= trail {
        (options.listchar_trail, hl::NON_TEXT)
    } else {
        (ch, base)
    };
    let (visual, kind) = match focus {
        Some(f) => (f.visual_range, f.visual_kind),
        None => (None, None),
    };
    let h = if in_visual(visual, kind, line, index) {
        hl::VISUAL
    } else {
        let ds = focus_diagnostics(focus);
        match diagnostic_hl_at(ds, buffer, line, index) {
            Some(d) => d,
            None => {
                let search: Option<&str> = match focus {
                    Some(f) => if f.highlight_search { f.last_search } else { None },
                    None => None,
                };
                match search {
                    Some(p) => if matches_at(text, p, index) { hl::SEARCH } else { listed },
                    None => listed,
                }
            },
        }
    };
    let cell = RenderCell { text: shown, hl: h };
    assert(cell == cell_of(shown, h));
    cell
}


/// The sign cell of `line`.
fn sign_cell_at(view: &WindowView, buffer: &Buffer, focus: &Option<FocusRender<'_>>, line: usize) -> (c: RenderCell)
    ensures
        c == sign_cell(*view, buffer@.lines, *focus, line as int),
{
    let ds = focus_diagnostics(focus);
    match diagnostic_sign_at(ds, line) {
        Some((ch, h)) => {
            let c = RenderCell { text: ch, hl: h };
            assert(c == cell_of(ch, h));
            c
        },
        None => {
            let sign = match focus {
                Some(f) => match f.vcs {
                    Some(v) => v.sign_at(line, buffer.line_count()),
                    None => None,
                },
                None => None,
            };
            let (ch, h) = match sign {
                Some(SignKind::Add) => ('+', hl::GIT_ADD),
                Some(SignKind::Change) => ('~', hl::GIT_CHANGE),
                Some(SignKind::Delete) => ('-', hl::GIT_DELETE),
                None => (' ', if line == view.cursor.0 { hl::CURSOR_LINE_NR } else { hl::LINE_NR }),
            };
            let c = RenderCell { text: ch, hl: h };
            assert(c == cell_of(ch, h));
            c
        },
    }
}

/// The note drawn after the text of `line`, every cell of it.
fn trailing_at(view: &WindowView, focus: &Option<FocusRender<'_>>, line: usize) -> (cells: Vec<RenderCell>)
    ensures
        cells@ == trailing_cells(*view, *focus, line as int),
{
    let ds = focus_diagnostics(focus);
    let (note, h): (Option<Vec<char>>, u64) = match first_diagnostic_on_line(ds, line) {
        Some(k) => (Some(chars_of(ds[k].message.as_str())), diagnostic_hl(&ds[k])),
        None => {
            if line == view.cursor.0 {
                match focus {
                    Some(f) => match &f.cursor_blame {
                        Some(b) => (Some(chars_of(b.as_str())), hl::NON_TEXT),
                        None => (None, hl::NON_TEXT),
                    },
                    None => (None, hl::NON_TEXT),
                }
            } else {
                (None, hl::NON_TEXT)
            }
        },
    };
    let mut cells: Vec<RenderCell> = Vec::new();
    match note {
        Some(text) => {
            let pad = spaces_vec(2);
            push_cells(&mut cells, &pad, h);
            push_cells(&mut cells, &text, h);
            assert(cells@ =~= cells_in(spaces(2) + text@, h));
        },
        None => {
            assert(cells@ =~= Seq::<RenderCell>::empty());
        },
    }
    cells
}

/// The cells and fill of buffer line `line`.
fn render_line(
    view: &WindowView,
    buffer: &Buffer,
    options: &Options,
    focus: &Option<FocusRender<'_>>,
    line: usize,
    gutter: usize,
) -> (row: RenderRow)
    requires
        buffer@.wf(),
        forall|i: int| 0 <= i < buffer@.lines.len() ==> #[trigger] buffer@.lines[i].len() <= usize::MAX / 2,
        line < buffer@.lines.len(),
        gutter == gutter_of(buffer@.lines.len() as usize),
        view.cols < usize::MAX,
    ensures
        row.cells@ == line_cells(*view, buffer@.lines, *options, *focus, line as int),
        row.fill == line_fill(*view, *options, *focus, line as int),
{
    let number_hl = if line == view.cursor.0 { hl::CURSOR_LINE_NR } else { hl::LINE_NR };
    let count = buffer.line_count();
    proof {
        crate::text::lemma_decimal_len_usize(count);
    }
    let mut cells = number_cells(options, line, view.cursor.0, gutter, number_hl);
    cells.push(sign_cell_at(view, buffer, focus, line));
    let ghost head = cells@;
    let text = buffer.line_text(line);
    let chars = chars_of(text.as_str());
    let spans = markdown_spans(text.as_str());
    let trail = trailing_start(&chars);
    let ghost target = Seq::new(
        chars@.len(),
        |k: int| styled_cell(*view, buffer@.lines, *options, *focus, line as int, k),
    );
    let mut styled: Vec<RenderCell> = Vec::new();
    let mut i: usize = 0;
    while i < chars.len()
        invariant
            buffer@.wf(),
            forall|i: int| 0 <= i < buffer@.lines.len() ==> #[trigger] buffer@.lines[i].len() <= usize::MAX / 2,
            line < buffer@.lines.len(),
            chars@ == buffer@.lines[line as int],
            text@ == chars@,
            spans@ == markdown_styles(chars@),
            trail == trim_end_ws(chars@).len(),
            i <= chars@.len(),
            target.len() == chars@.len(),
            target == Seq::new(
                chars@.len(),
                |k: int| styled_cell(*view, buffer@.lines, *options, *focus, line as int, k),
            ),
            styled@ == target.take(i as int),
        decreases chars@.len() - i,
    {
        let c = cell_at(view, buffer, options, focus, line, &chars, text.as_str(), &spans, trail, i);
        styled.push(c);
        i = i + 1;
        assert(styled@ =~= target.take(i as int));
    }
    assert(styled@ =~= target);
    let end = fit_into(&mut cells, &styled, gutter, view.cols);
    let trailing = trailing_at(view, focus, line);
    fit_into(&mut cells, &trailing, end, view.cols);
    let rest = if options.cursorline && line == view.cursor.0 { hl::CURSOR_LINE } else { hl::DEFAULT };
    let (in_lines, is_line) = match focus {
        Some(f) => {
            let in_lines = match f.visual_range {
                Some((a, b)) => a.0 <= line && line <= b.0,
                None => false,
            };
            let is_line = match f.visual_kind {
                Some(Visual::Line) => true,
                _ => false,
            };
            (in_lines, is_line)
        },
        None => (false, false),
    };
    let fill = if is_line && in_lines { hl::VISUAL } else { rest };
    RenderRow { cells, fill }
}

/// The rows of a window onto `buffer`, each a list of cells and the
/// highlight past them. Only the focused window gets `focus`.
pub fn render_window_lines(
    view: &WindowView,
    buffer: &Buffer,
    options: &Options,
    focus: Option<FocusRender<'_>>,
) -> (rows: Vec<RenderRow>)
    requires
        buffer@.wf(),
        forall|i: int| 0 <= i < buffer@.lines.len() ==> #[trigger] buffer@.lines[i].len() <= usize::MAX / 2,
        view.top_line + view.rows <= usize::MAX,
        view.cols < usize::MAX,
    ensures
        rows@.len() == view.rows,
        forall|r: int|
            0 <= r < view.rows ==> (#[trigger] rows@[r]).cells@ == window_row(*view, buffer@.lines, *options, focus, r).0
                && rows@[r].fill == window_row(*view, buffer@.lines, *options, focus, r).1,
{
    let count = buffer.line_count();
    let gutter = gutter_width(count);
    let mut rows: Vec<RenderRow> = Vec::new();
    let mut r: usize = 0;
    while r < view.rows
        invariant
            buffer@.wf(),
            forall|i: int| 0 <= i < buffer@.lines.len() ==> #[trigger] buffer@.lines[i].len() <= usize::MAX / 2,
            view.top_line + view.rows <= usize::MAX,
            view.cols < usize::MAX,
            count == buffer@.lines.len(),
            gutter == gutter_of(count),
            r <= view.rows,
            rows@.len() == r,
            forall|k: int|
                0 <= k < r ==> (#[trigger] rows@[k]).cells@ == window_row(*view, buffer@.lines, *options, focus, k).0
                    && rows@[k].fill == window_row(*view, buffer@.lines, *options, focus, k).1,
        decreases view.rows - r,
    {
        let line = view.top_line + r;
        let row = if line >= count {
            let tilde = RenderCell { text: '~', hl: hl::NON_TEXT };
            let cells = vec![tilde];
            assert(cells@ =~= seq![cell_of('~', hl::NON_TEXT)]);
            RenderRow { cells, fill: hl::DEFAULT }
        } else {
            render_line(view, buffer, options, &focus, line, gutter)
        };
        rows.push(row);
        r = r + 1;
    }
    rows
}

} // verus!
