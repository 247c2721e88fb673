//! The `:` line.
//!
//! Only commands the owner's keymap reaches are here. An unknown command
//! reports `E492` rather than being ignored, because a silently swallowed
//! `:wq` looks exactly like a successful one until the file is gone.

use vstd::prelude::*;
use crate::editcore::buffer::{min_int, Buffer};
use crate::editcore::editor::{Editor, Message, Request, Scope};
use crate::git::{parse_usize, parse_usize_spec};
use crate::text::{
    chars_of, concat, decimal, decimal_text, find_in, find_seq, is_alphanumeric, lemma_find_seq,
    occurs_at, same_text, string_of, strip_suffixes, strip_suffixes_end, trim_range, trim_ws,
    unicode_alphanumeric,
};

verus! {

// ---------------------------------------------------------------------------
// Replacing text
// ---------------------------------------------------------------------------

/// `t` from `i` on with `p` replaced by `r`: every occurrence, left to right
/// and not overlapping, when `global`; else only the first.
pub open spec fn replaced(t: Seq<char>, p: Seq<char>, r: Seq<char>, i: int, global: bool) -> Seq<char>
    recommends
        p.len() > 0,
    decreases t.len() - i,
    when 0 <= i <= t.len() && p.len() > 0
{
    let k = find_seq(t, p, i);
    if k < 0 {
        t.skip(i)
    } else {
        proof {
            lemma_find_seq(t, p, i);
        }
        t.subrange(i, k) + r + if global {
            replaced(t, p, r, k + p.len(), true)
        } else {
            t.skip(k + p.len())
        }
    }
}

fn push_range(out: &mut Vec<char>, v: &[char], from: usize, to: usize)
    requires
        from <= to <= v@.len(),
    ensures
        final(out)@ == old(out)@ + v@.subrange(from as int, to as int),
{
    let ghost start = out@;
    let mut i = from;
    while i < to
        invariant
            from <= i <= to <= v@.len(),
            out@ == start + v@.subrange(from as int, i as int),
        decreases to - i,
    {
        out.push(v[i]);
        i = i + 1;
        assert(out@ =~= start + v@.subrange(from as int, i as int));
    }
}

/// `str::replace` (`global`) or `str::replacen(.., 1)` on characters.
pub fn replace_text(t: &[char], p: &[char], r: &[char], global: bool) -> (out: Vec<char>)
    requires
        p@.len() > 0,
    ensures
        out@ == replaced(t@, p@, r@, 0, global),
{
    let mut out: Vec<char> = Vec::new();
    let mut i: usize = 0;
    let n = t.len();
    loop
        invariant
            i <= t@.len(),
            n == t@.len(),
            p@.len() > 0,
            out@ + replaced(t@, p@, r@, i as int, global) == replaced(t@, p@, r@, 0, global),
        decreases t@.len() - i,
    {
        proof {
            lemma_find_seq(t@, p@, i as int);
        }
        match find_in(t, p, i) {
            None => {
                push_range(&mut out, t, i, t.len());
                assert(t@.subrange(i as int, t@.len() as int) =~= t@.skip(i as int));
                assert(out@ =~= replaced(t@, p@, r@, 0, global));
                return out;
            },
            Some(k) => {
                let ghost before = out@;
                push_range(&mut out, t, i, k);
                push_range(&mut out, r, 0, r.len());
                assert(r@.subrange(0, r@.len() as int) =~= r@);
                let next = k + p.len();
                if !global {
                    push_range(&mut out, t, next, t.len());
                    assert(t@.subrange(next as int, t@.len() as int) =~= t@.skip(next as int));
                    assert(out@ =~= before + replaced(t@, p@, r@, i as int, global));
                    return out;
                }
                assert(out@ + replaced(t@, p@, r@, next as int, global) =~= before + replaced(t@, p@, r@, i as int, global));
                i = next;
            },
        }
    }
}

// ---------------------------------------------------------------------------
// What the `:` line says
// ---------------------------------------------------------------------------

/// Whether `body` is `s` followed by a separator: a character that is not a
/// letter or digit.
pub open spec fn is_substitution(body: Seq<char>) -> bool {
    body.len() > 1 && body[0] == 's' && !unicode_alphanumeric(body[1])
}

/// The command name and its argument: split at the first space, the
/// argument trimmed.
pub open spec fn name_and_rest(body: Seq<char>) -> (Seq<char>, Seq<char>) {
    let at = find_seq(body, seq![' '], 0);
    if at < 0 {
        (body, Seq::empty())
    } else {
        (body.take(at), trim_ws(body.skip(at + 1)))
    }
}

/// The body of a `:` line: without a leading `%`.
pub open spec fn command_body(line: Seq<char>) -> Seq<char> {
    if line.len() > 0 && line[0] == '%' { line.drop_first() } else { line }
}

/// `~/` at the start of a path is the home directory, when it is known.
pub open spec fn expanded(path: Seq<char>, home: Option<Seq<char>>) -> Seq<char> {
    if path.len() >= 2 && path[0] == '~' && path[1] == '/' && home is Some {
        let rest = path.skip(2);
        let h = home.unwrap();
        if rest.len() > 0 && rest[0] == '/' {
            rest
        } else if h.len() > 0 && h.last() == '/' {
            h + rest
        } else {
            h + seq!['/'] + rest
        }
    } else {
        path
    }
}

pub fn expand(path: &str, home: &Option<String>) -> (s: String)
    ensures
        s@ == expanded(path@, match home {
            Some(h) => Some(h@),
            None => None,
        }),
{
    let chars = chars_of(path);
    if chars.len() >= 2 && chars[0] == '~' && chars[1] == '/' {
        if let Some(h) = home {
            let mut out: Vec<char> = Vec::new();
            if chars.len() > 2 && chars[2] == '/' {
                push_range(&mut out, chars.as_slice(), 2, chars.len());
                assert(out@ =~= chars@.skip(2));
                return string_of(out.as_slice());
            }
            let hc = chars_of(h.as_str());
            push_range(&mut out, hc.as_slice(), 0, hc.len());
            if !(hc.len() > 0 && hc[hc.len() - 1] == '/') {
                out.push('/');
            }
            push_range(&mut out, chars.as_slice(), 2, chars.len());
            assert(hc@.subrange(0, hc@.len() as int) =~= hc@);
            assert(chars@.subrange(2, chars@.len() as int) =~= chars@.skip(2));
            return string_of(out.as_slice());
        }
    }
    path.to_string()
}

/// `""` for one, `"s"` for more.
pub open spec fn plural(count: nat) -> Seq<char> {
    if count == 1 { Seq::empty() } else { seq!['s'] }
}

fn plural_text(count: usize) -> (s: &'static str)
    ensures
        s@ == plural(count as nat),
{
    proof {
        reveal_strlit("");
        reveal_strlit("s");
    }
    if count == 1 { "" } else { "s" }
}

fn set_message(editor: &mut Editor, text: String, error: bool)
    ensures
        final(editor).message == Some(Message { text, error }),
        final(editor).buffer == old(editor).buffer,
        final(editor).cursor == old(editor).cursor,
        final(editor).requests == old(editor).requests,
        final(editor).buffers == old(editor).buffers,
        final(editor).tabs == old(editor).tabs,
        final(editor).view_rows == old(editor).view_rows,
        final(editor).last_search == old(editor).last_search,
        *final(editor) == (Editor { message: final(editor).message, ..*old(editor) }),
{
    editor.message = Some(Message { text, error });
}

/// A `:s` argument's pieces: what follows its first character, split at
/// each occurrence of that character.
pub open spec fn sub_parts(arg: Seq<char>) -> Seq<Seq<char>> {
    crate::run::split_at_char(arg.drop_first(), arg[0])
}

/// Whether `line` holds `pattern`.
pub open spec fn holds(line: Seq<char>, pattern: Seq<char>) -> bool {
    find_seq(line, pattern, 0) >= 0
}

/// The lines with `pattern` replaced in those from `first` up to `end` that
/// hold it.
pub open spec fn substituted(lines: Seq<Seq<char>>, first: int, end: int, pattern: Seq<char>, rep: Seq<char>, global: bool) -> Seq<Seq<char>> {
    Seq::new(
        lines.len(),
        |i: int| if first <= i < end && holds(lines[i], pattern) { replaced(lines[i], pattern, rep, 0, global) } else { lines[i] },
    )
}

/// How many lines from `first` up to `end` hold `pattern`.
pub open spec fn hits(lines: Seq<Seq<char>>, first: int, end: int, pattern: Seq<char>) -> nat
    decreases end - first,
{
    if end <= first {
        0
    } else {
        hits(lines, first, end - 1, pattern) + if holds(lines[end - 1], pattern) { 1nat } else { 0nat }
    }
}

/// The last line from `first` up to `end` that holds `pattern`, or `none`.
pub open spec fn last_hit(lines: Seq<Seq<char>>, first: int, end: int, pattern: Seq<char>, none: int) -> int
    decreases end - first,
{
    if end <= first {
        none
    } else if holds(lines[end - 1], pattern) {
        end - 1
    } else {
        last_hit(lines, first, end - 1, pattern, none)
    }
}

/// Where no line holds the pattern, substituting changes nothing.
pub proof fn lemma_no_hits(lines: Seq<Seq<char>>, first: int, end: int, pattern: Seq<char>, rep: Seq<char>, global: bool)
    requires
        hits(lines, first, end, pattern) == 0,
    ensures
        substituted(lines, first, end, pattern, rep, global) =~= lines,
    decreases end - first,
{
    if end > first {
        lemma_no_hits(lines, first, end - 1, pattern, rep, global);
        assert(substituted(lines, first, end, pattern, rep, global) =~= substituted(lines, first, end - 1, pattern, rep, global));
    }
}

/// What `:s{arg}` does over the cursor line, or every line with `all`: the
/// pattern (never empty) is replaced, once or with `g` everywhere, in each
/// line that holds it, as one change; the cursor goes to the start of the
/// last line changed and the message counts the lines. Without a match the
/// buffer keeps its text and the message names the pattern.
#[verifier::opaque]
pub open spec fn sub_effect(e0: Editor, e1: Editor, arg: Seq<char>, all: bool) -> bool {
    if arg.len() == 0 {
        e1 == e0
    } else {
        let parts = sub_parts(arg);
        let pattern = parts[0];
        &&& e1.requests == e0.requests
        &&& if pattern.len() == 0 {
            &&& error_text(e1.message, "E35: No previous regular expression"@)
            &&& e1.buffer == e0.buffer
            &&& e1.cursor == e0.cursor
        } else {
            let rep = if parts.len() > 1 { parts[1] } else { Seq::empty() };
            let global = parts.len() > 2 && parts[2].contains('g');
            let lines = e0.buffer@.lines;
            let first: int = if all { 0 } else { e0.cursor.0 as int };
            let end: int = if all { lines.len() as int } else { e0.cursor.0 + 1 };
            let n = hits(lines, first, end, pattern);
            if n == 0 {
                &&& e1.buffer@ == (crate::editcore::buffer::BufferModel { pending: None, ..e0.buffer@ })
                &&& error_text(e1.message, "E486: Pattern not found: "@ + pattern)
                &&& e1.cursor == e0.cursor
            } else {
                &&& e1.buffer@ == crate::editcore::operator::one_change(
                    e0.buffer@,
                    e0.cursor,
                    substituted(lines, first, end, pattern, rep, global),
                )
                &&& e1.cursor == (last_hit(lines, first, end, pattern, e0.cursor.0 as int) as usize, 0usize)
                &&& e1.message matches Some(m) && !m.error && m.text@ == decimal(n) + " substitution"@ + plural(n)
                    + " on "@ + decimal(n) + " line"@ + plural(n)
            }
        }
    }
}

/// Whether `v` holds `c`.
fn has_char(v: &Vec<char>, c: char) -> (r: bool)
    ensures
        r == v@.contains(c),
{
    let mut i: usize = 0;
    while i < v.len()
        invariant
            i <= v@.len(),
            forall|j: int| 0 <= j < i ==> v@[j] != c,
        decreases v@.len() - i,
    {
        if v[i] == c {
            assert(v@[i as int] == c);
            return true;
        }
        i = i + 1;
    }
    false
}

/// `:s/pattern/replacement/[g]` over the current line, or every line with
/// `%`. The pattern is a literal string, not a regular expression.
#[verifier::rlimit(40)]
pub fn substitute(editor: &mut Editor, spec: &[char], all_lines: bool)
    requires
        old(editor).wf(),
    ensures
        final(editor).wf(),
        sub_effect(*old(editor), *final(editor), spec@, all_lines),
        *final(editor) == (Editor { buffer: final(editor).buffer, cursor: final(editor).cursor, message: final(editor).message, ..*old(editor) }),
{
    proof {
        reveal(sub_effect);
    }
    if spec.len() == 0 {
        return;
    }
    let sep = spec[0];
    let mut rest: Vec<char> = Vec::new();
    push_range(&mut rest, spec, 1, spec.len());
    let parts = crate::run::split_chars(rest.as_slice(), sep);
    proof {
        reveal(sub_effect);
        assert(rest@ =~= spec@.drop_first());
        crate::run::lemma_split_nonempty(rest@, sep);
        let views = parts@.map_values(|p: Vec<char>| p@);
        assert(views.len() == parts@.len());
        assert(views[0] == parts@[0]@);
        if parts@.len() > 1 {
            assert(views[1] == parts@[1]@);
        }
        if parts@.len() > 2 {
            assert(views[2] == parts@[2]@);
        }
    }
    if parts.len() == 0 || parts[0].len() == 0 {
        set_message(editor, "E35: No previous regular expression".to_string(), true);
        return;
    }
    let pattern = &parts[0];
    let empty: Vec<char> = Vec::new();
    let replacement = if parts.len() > 1 { &parts[1] } else { &empty };
    let global = parts.len() > 2 && has_char(&parts[2], 'g');
    let count = editor.buffer.line_count();
    let (first, end) = if all_lines { (0, count) } else { (editor.cursor.0, editor.cursor.0 + 1) };
    let mut changed: usize = 0;
    let mut last_line = editor.cursor.0;
    editor.buffer.begin_change(editor.cursor);
    let mut index = first;
    let ghost lines0 = old(editor).buffer@.lines;
    let ghost opened = editor.buffer@;
    let ghost pat = pattern@;
    let ghost rep = replacement@;
    assert(lines0 =~= substituted(lines0, first as int, first as int, pat, rep, global));
    while index < end
        invariant
            editor.buffer@.wf(),
            editor.buffers@.wf(),
            editor.tabs@.wf(),
            editor.view_rows >= 1,
            editor.cursor == old(editor).cursor,
            lines0 == old(editor).buffer@.lines,
            opened == old(editor).buffer@.after_begin(old(editor).cursor),
            editor.buffer@ == opened.with_lines(substituted(lines0, first as int, index as int, pat, rep, global)),
            old(editor).wf(),
            pat == pattern@,
            rep == replacement@,
            pat.len() > 0,
            first <= index <= end,
            end <= count,
            count == lines0.len(),
            changed == hits(lines0, first as int, index as int, pat),
            changed <= index - first,
            last_line as int == last_hit(lines0, first as int, index as int, pat, old(editor).cursor.0 as int),
            last_line < count,
            editor.requests == old(editor).requests,
            editor.message == old(editor).message,
            *editor == (Editor { buffer: editor.buffer, ..*old(editor) }),
        decreases end - index,
    {
        let text = editor.buffer.line(index);
        assert(text@ == lines0[index as int]);
        match find_in(text, pattern.as_slice(), 0) {
            None => {
                assert(substituted(lines0, first as int, index + 1, pat, rep, global) =~= substituted(
                    lines0,
                    first as int,
                    index as int,
                    pat,
                    rep,
                    global,
                ));
            },
            Some(_) => {
                let new_line = replace_text(text, pattern.as_slice(), replacement.as_slice(), global);
                editor.buffer.replace_line(index, new_line);
                assert(substituted(lines0, first as int, index + 1, pat, rep, global) =~= substituted(
                    lines0,
                    first as int,
                    index as int,
                    pat,
                    rep,
                    global,
                ).update(index as int, replaced(lines0[index as int], pat, rep, 0, global)));
                changed = changed + 1;
                last_line = index;
            },
        }
        index = index + 1;
    }
    if changed == 0 {
        proof {
            lemma_no_hits(lines0, first as int, end as int, pat, rep, global);
        }
        editor.buffer.abort_change();
        let p = string_of(pattern.as_slice());
        let text = concat("E486: Pattern not found: ", p.as_str());
        set_message(editor, text, true);
        return;
    }
    editor.buffer.commit_change();
    editor.cursor = (last_line, 0);
    let n = decimal_text(changed);
    let s = plural_text(changed);
    let text = concat(n.as_str(), " substitution");
    let text = concat(text.as_str(), s);
    let text = concat(text.as_str(), " on ");
    let text = concat(text.as_str(), n.as_str());
    let text = concat(text.as_str(), " line");
    let text = concat(text.as_str(), s);
    set_message(editor, text, false);
}


// ---------------------------------------------------------------------------
// Running a `:` line
// ---------------------------------------------------------------------------

pub open spec fn e37(m: Option<Message>) -> bool {
    m matches Some(x) && x.error && x.text@ == "E37: No write since last change (add ! to override)"@
}

pub open spec fn error_text(m: Option<Message>, text: Seq<char>) -> bool {
    m matches Some(x) && x.error && x.text@ == text
}

/// A write request for the buffer's text to `path`.
pub open spec fn asks_write(r: Request, path: Seq<char>, text: Seq<char>, explicit: bool, then_quit: bool) -> bool {
    r matches Request::Write { path: p, text: t, explicit: x, then_quit: q } && p@ == path && t@ == text && x
        == explicit && q == then_quit
}

/// What `:w` (and `:wq`) with argument `rest` does.
pub open spec fn write_effect(old: Editor, new: Editor, rest: Seq<char>, then_quit: bool) -> bool {
    let home = match old.home {
        Some(h) => Some(h@),
        None => None,
    };
    let target = if rest.len() == 0 { old.buffer@.path } else { Some(expanded(rest, home)) };
    match target {
        None => error_text(new.message, "E212: no file name"@) && new.requests == old.requests,
        Some(p) => new.requests@.len() == old.requests@.len() + 1 && new.requests@.take(old.requests@.len() as int)
            == old.requests@ && asks_write(
            new.requests@.last(),
            p,
            crate::editcore::buffer::rendered_text(old.buffer@.lines, old.buffer@.ending, old.buffer@.trailing_newline),
            rest.len() > 0,
            then_quit,
        ),
    }
}

/// What a named command does, `bang` when its name ended in `!`.
pub open spec fn named_effect(old: Editor, new: Editor, name: Seq<char>, rest: Seq<char>, bang: bool) -> bool {
    let home = match old.home {
        Some(h) => Some(h@),
        None => None,
    };
    if name == "w"@ || name == "write"@ {
        write_effect(old, new, rest, false)
    } else if name == "wq"@ || name == "x"@ || name == "xit"@ {
        write_effect(old, new, rest, true)
    } else if name == "q"@ || name == "quit"@ {
        if old.buffer@.modified && !bang {
            e37(new.message) && new.requests == old.requests
        } else {
            new.requests@ == old.requests@.push(Request::Quit)
        }
    } else if name == "qa"@ || name == "qall"@ || name == "quitall"@ {
        new.requests@ == old.requests@.push(Request::Quit)
    } else if name == "e"@ || name == "edit"@ {
        if rest.len() == 0 {
            match old.buffer@.path {
                Some(p) => new.requests@.len() == old.requests@.len() + 1 && new.requests@.take(
                    old.requests@.len() as int,
                ) == old.requests@ && (new.requests@.last() matches Request::Edit(q) && q@ == p),
                None => error_text(new.message, "E32: No file name"@) && new.requests == old.requests,
            }
        } else if old.buffer@.modified && !bang {
            e37(new.message) && new.requests == old.requests
        } else {
            new.requests@.len() == old.requests@.len() + 1 && new.requests@.take(old.requests@.len() as int)
                == old.requests@ && (new.requests@.last() matches Request::Edit(q) && q@ == expanded(rest, home))
        }
    } else if name == "noh"@ || name == "nohl"@ || name == "nohlsearch"@ {
        new.last_search is None && new.requests == old.requests && new.message == old.message
    } else if name == "Notes"@ || name == "notes"@ {
        new.requests@ == old.requests@.push(Request::OpenNavigation(Scope::Notes))
    } else if name == "Files"@ || name == "files"@ || name == "Nav"@ || name == "nav"@ {
        new.requests@ == old.requests@.push(Request::OpenNavigation(Scope::Files))
    } else if name == "Note"@ || name == "note"@ {
        if rest.len() == 0 {
            error_text(new.message, "E471: Argument required: :Note <title>"@) && new.requests == old.requests
        } else {
            new.requests@.len() == old.requests@.len() + 1 && new.requests@.take(old.requests@.len() as int)
                == old.requests@ && (new.requests@.last() matches Request::NewNote(t) && t@ == rest)
        }
    } else if exists|i: int| 0 <= i < old.plugin_commands@.len() && #[trigger] old.plugin_commands@[i]@ == name {
        new.requests@.len() == old.requests@.len() + 1 && new.requests@.take(old.requests@.len() as int)
            == old.requests@ && (new.requests@.last() matches Request::Plugin { name: n, argument: a } && n@
            == name && a@ == rest)
    } else {
        error_text(new.message, "E492: Not an editor command: "@ + name) && new.requests == old.requests
    }
}

fn push_request(editor: &mut Editor, r: Request)
    ensures
        final(editor).requests@ == old(editor).requests@.push(r),
        final(editor).buffer == old(editor).buffer,
        final(editor).cursor == old(editor).cursor,
        final(editor).message == old(editor).message,
        final(editor).buffers == old(editor).buffers,
        final(editor).tabs == old(editor).tabs,
        final(editor).view_rows == old(editor).view_rows,
        final(editor).last_search == old(editor).last_search,
        *final(editor) == (Editor { requests: final(editor).requests, ..*old(editor) }),
{
    editor.requests.push(r);
}

fn write(editor: &mut Editor, rest: &str, then_quit: bool)
    requires
        old(editor).wf(),
    ensures
        final(editor).wf(),
        write_effect(*old(editor), *final(editor), rest@, then_quit),
        final(editor).buffer == old(editor).buffer,
        final(editor).cursor == old(editor).cursor,
        *final(editor) == (Editor { message: final(editor).message, requests: final(editor).requests, ..*old(editor) }),
        final(editor).requests@.len() != old(editor).requests@.len() ==> final(editor).message == old(editor).message,
{
    let empty = chars_of(rest).len() == 0;
    let target = if empty {
        editor.buffer.write_target(None)
    } else {
        let path = expand(rest, &editor.home);
        editor.buffer.write_target(Some(path.as_str()))
    };
    match target {
        None => {
            set_message(editor, "E212: no file name".to_string(), true);
        },
        Some(path) => {
            let text = editor.buffer.text();
            push_request(editor, Request::Write { path, text, explicit: !empty, then_quit });
            assert(editor.requests@.take(old(editor).requests@.len() as int) =~= old(editor).requests@);
        },
    }
}

/// The host wrote the buffer to `path` (or failed to, with `result`'s
/// message): the buffer is clean and the write reported, then `:wq` quits.
pub fn wrote(editor: &mut Editor, path: String, explicit: bool, then_quit: bool, result: Result<(), String>)
    requires
        old(editor).wf(),
    ensures
        final(editor).wf(),
        match result {
            Ok(()) => {
                &&& final(editor).buffer@ == (crate::editcore::buffer::BufferModel {
                    modified: false,
                    path: if !explicit || old(editor).buffer@.path is None {
                        Some(path@)
                    } else {
                        old(editor).buffer@.path
                    },
                    ..old(editor).buffer@
                })
                &&& final(editor).message matches Some(m) && !m.error && m.text@ == seq!['"'] + path@ + "\" "@
                    + decimal(old(editor).buffer@.lines.len()) + "L written"@
                &&& final(editor).requests@ == if then_quit {
                    old(editor).requests@.push(Request::Quit)
                } else {
                    old(editor).requests@
                }
            },
            Err(e) => error_text(final(editor).message, "E212: "@ + e@) && final(editor).buffer
                == old(editor).buffer,
        },
{
    match result {
        Ok(()) => {
            let lines = editor.buffer.line_count();
            let shown = concat("\"", path.as_str());
            editor.buffer.mark_written(path, explicit);
            let shown = concat(shown.as_str(), "\" ");
            let n = decimal_text(lines);
            let shown = concat(shown.as_str(), n.as_str());
            let shown = concat(shown.as_str(), "L written");
            proof {
                reveal_strlit("\"");
            }
            set_message(editor, shown, false);
            if then_quit {
                push_request(editor, Request::Quit);
            }
        },
        Err(e) => {
            let text = concat("E212: ", e.as_str());
            set_message(editor, text, true);
        },
    }
}

/// `:nohlsearch` and its short names.
pub open spec fn noh_name(name: Seq<char>) -> bool {
    name == "noh"@ || name == "nohl"@ || name == "nohlsearch"@
}

/// What one `:` line does.
pub open spec fn execute_effect(e0: Editor, e1: Editor, line: Seq<char>) -> bool {
    ({
        let t = trim_ws(line);
        let body = command_body(t);
        let (name0, rest) = name_and_rest(body);
        let bang = name0.len() > 0 && name0.last() == '!';
        let name = strip_suffixes(name0, seq!['!']);
        let last = e0.buffer@.lines.len() - 1;
        if t.len() == 0 {
            e1 == e0
        } else if parse_usize_spec(t) is Some {
            let n = parse_usize_spec(t).unwrap();
            let target = if n > 0 { n - 1 } else { 0 };
            &&& e1.cursor == ((if target < last { target } else { last }) as usize, 0usize)
            &&& e1.buffer == e0.buffer
            &&& e1.requests == e0.requests
            &&& e1 == (Editor { cursor: e1.cursor, ..e0 })
        } else if t == seq!['$'] {
            &&& e1.cursor == (last as usize, 0usize)
            &&& e1.buffer == e0.buffer
            &&& e1 == (Editor { cursor: e1.cursor, ..e0 })
        } else if is_substitution(body) {
            &&& sub_effect(e0, e1, body.drop_first(), t[0] == '%')
            &&& e1 == (Editor { buffer: e1.buffer, cursor: e1.cursor, message: e1.message, ..e0 })
        } else {
            let noh = noh_name(name);
            &&& named_effect(e0, e1, name, rest, bang)
            &&& e1.buffer == e0.buffer
            &&& e1 == (Editor { message: e1.message, requests: e1.requests, last_search: e1.last_search, ..e0 })
            &&& e1.requests@.len() != e0.requests@.len() ==> e1.message == e0.message
            &&& !noh ==> e1.last_search == e0.last_search
        }
    })
}

/// Runs one `:` line.
#[verifier::rlimit(100)]
pub fn execute(editor: &mut Editor, line: &str)
    requires
        old(editor).wf(),
    ensures
        final(editor).wf(),
        execute_effect(*old(editor), *final(editor), line@),
{
    let chars = chars_of(line);
    let (a, b) = trim_range(chars.as_slice(), 0, chars.len());
    proof {
        assert(chars@.subrange(0, chars@.len() as int) =~= line@);
    }
    let ghost t = chars@.subrange(a as int, b as int);
    if a == b {
        return;
    }
    let count = editor.buffer.line_count();
    if let Some(number) = parse_usize(chars.as_slice(), a, b) {
        let last = count - 1;
        let target = if number > 0 { number - 1 } else { 0 };
        editor.cursor = (if target < last { target } else { last }, 0);
        return;
    }
    if b - a == 1 && chars[a] == '$' {
        proof {
            assert(t =~= seq!['$']);
        }
        editor.cursor = (count - 1, 0);
        return;
    }
    proof {
        if t == seq!['$'] {
            assert(t.len() == 1 && t[0] == chars@[a as int]);
        }
    }
    let range_all = chars[a] == '%';
    let start = if range_all { a + 1 } else { a };
    let mut body: Vec<char> = Vec::new();
    push_range(&mut body, chars.as_slice(), start, b);
    assert(body@ =~= command_body(t));
    if body.len() > 1 && body[0] == 's' && !is_alphanumeric(body[1]) {
        let mut spec: Vec<char> = Vec::new();
        push_range(&mut spec, body.as_slice(), 1, body.len());
        substitute(editor, spec.as_slice(), range_all);
        return;
    }
    let space = vec![' '];
    assert(space@ =~= seq![' ']);
    let bang_mark0 = vec!['!'];
    assert(bang_mark0@ =~= seq!['!']);
    proof {
        crate::text::lemma_find_seq(body@, space@, 0);
    }
    let (name_end, rest_from, rest_to) = match find_in(body.as_slice(), space.as_slice(), 0) {
        Some(at) => {
            let (ra, rb) = trim_range(body.as_slice(), at + 1, body.len());
            proof {
                assert(body@.subrange(at + 1, body@.len() as int) =~= body@.skip(at + 1));
            }
            (at, ra, rb)
        },
        None => (body.len(), body.len(), body.len()),
    };
    let bang = name_end > 0 && body[name_end - 1] == '!';
    let stripped = strip_suffixes_end(body.as_slice(), 0, name_end, bang_mark0.as_slice());
    let mut name_chars: Vec<char> = Vec::new();
    push_range(&mut name_chars, body.as_slice(), 0, stripped);
    let mut rest_chars: Vec<char> = Vec::new();
    push_range(&mut rest_chars, body.as_slice(), rest_from, rest_to);
    let name = string_of(name_chars.as_slice());
    let rest = string_of(rest_chars.as_slice());
    proof {
        let (n0, r0) = name_and_rest(command_body(t));
        assert(body@.subrange(0, name_end as int) =~= n0);
        assert(name@ == strip_suffixes(n0, seq!['!']));
        assert(rest@ == r0);
        assert(bang == (n0.len() > 0 && n0.last() == '!'));
    }
    let name = name.as_str();
    let rest = rest.as_str();
    run_named(editor, name, rest, rest_chars.len() == 0, bang);
}


/// Runs the named command `name` with argument `rest`, `bang` when its
/// name ended in `!`.
fn run_named(editor: &mut Editor, name: &str, rest: &str, rest_empty: bool, bang: bool)
    requires
        old(editor).wf(),
        rest_empty == (rest@.len() == 0),
    ensures
        final(editor).wf(),
        named_effect(*old(editor), *final(editor), name@, rest@, bang),
        final(editor).buffer == old(editor).buffer,
        *final(editor) == (Editor {
            message: final(editor).message,
            requests: final(editor).requests,
            last_search: final(editor).last_search,
            ..*old(editor)
        }),
        final(editor).requests@.len() != old(editor).requests@.len() ==> final(editor).message == old(editor).message,
        !noh_name(name@) ==> final(editor).last_search == old(editor).last_search,
{
    if same_text(name, "w") || same_text(name, "write") {
        write(editor, rest, false);
    } else if same_text(name, "wq") || same_text(name, "x") || same_text(name, "xit") {
        write(editor, rest, true);
    } else if same_text(name, "q") || same_text(name, "quit") {
        if editor.buffer.modified() && !bang {
            set_message(editor, "E37: No write since last change (add ! to override)".to_string(), true);
        } else {
            push_request(editor, Request::Quit);
        }
    } else if same_text(name, "qa") || same_text(name, "qall") || same_text(name, "quitall") {
        push_request(editor, Request::Quit);
    } else if same_text(name, "e") || same_text(name, "edit") {
        if rest_empty {
            match editor.buffer.path() {
                Some(p) => {
                    let p = p.to_string();
                    push_request(editor, Request::Edit(p));
                    assert(editor.requests@.take(old(editor).requests@.len() as int) =~= old(editor).requests@);
                },
                None => {
                    set_message(editor, "E32: No file name".to_string(), true);
                },
            }
        } else if editor.buffer.modified() && !bang {
            set_message(editor, "E37: No write since last change (add ! to override)".to_string(), true);
        } else {
            let path = expand(rest, &editor.home);
            push_request(editor, Request::Edit(path));
            assert(editor.requests@.take(old(editor).requests@.len() as int) =~= old(editor).requests@);
        }
    } else if same_text(name, "noh") || same_text(name, "nohl") || same_text(name, "nohlsearch") {
        editor.last_search = None;
    } else if same_text(name, "Notes") || same_text(name, "notes") {
        push_request(editor, Request::OpenNavigation(Scope::Notes));
    } else if same_text(name, "Files") || same_text(name, "files") || same_text(name, "Nav") || same_text(
        name,
        "nav",
    ) {
        push_request(editor, Request::OpenNavigation(Scope::Files));
    } else if same_text(name, "Note") || same_text(name, "note") {
        if rest_empty {
            set_message(editor, "E471: Argument required: :Note <title>".to_string(), true);
        } else {
            push_request(editor, Request::NewNote(rest.to_string()));
            assert(editor.requests@.take(old(editor).requests@.len() as int) =~= old(editor).requests@);
        }
    } else if editor.is_plugin_command(name) {
        push_request(editor, Request::Plugin { name: name.to_string(), argument: rest.to_string() });
        assert(editor.requests@.take(old(editor).requests@.len() as int) =~= old(editor).requests@);
    } else {
        let text = concat("E492: Not an editor command: ", name);
        set_message(editor, text, true);
    }
}

} // verus!
