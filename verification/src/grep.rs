//! Project search: what the search tool reports, read into hits.

use vstd::prelude::*;
use crate::json::{Json, JsonNumber, lookup, json_of_text, parse_json_text};
use crate::lsp::jsonrpc::trim_line_end;
use crate::lsp::registry::{joined, join_path};
use crate::text::{concat, decimal, decimal_text, chars_of, find_in, find_seq, occurs_at, same_text, spec_is_whitespace, is_whitespace, string_of, trim_end_ws, is_uppercase, unicode_uppercase, to_lowercase, lowercased, lemma_find_seq};
use crate::editcore::buffer::strip_last;
use vstd::utf8::encode_utf8;
use crate::editcore::key::copy_range;

verus! {

/// Queries shorter than this (in characters) are not searched.
pub const MIN_QUERY_CHARS: usize = 2;

/// A search stops once it has this many hits.
pub const MAX_HITS: usize = 10_000;

/// Which engine found the hits.
#[derive(Clone, Copy, Debug, PartialEq, Eq, Structural)]
pub enum Engine {
    Ripgrep,
    LiteralFallback,
}

impl Engine {
    /// The name the engine is shown by.
    pub fn label(&self) -> (s: &'static str)
        ensures
            s@ == match *self {
                Engine::Ripgrep => "rg"@,
                Engine::LiteralFallback => "literal fallback"@,
            },
    {
        match self {
            Engine::Ripgrep => "rg",
            Engine::LiteralFallback => "literal fallback",
        }
    }
}

/// One place a search found.
#[derive(Clone, Debug, PartialEq, Eq)]
pub struct Hit {
    pub path: String,
    /// 1-based, as `:e +{line}` takes it.
    pub line: usize,
    /// The 0-based character column of the match.
    pub column: usize,
    pub text: String,
}

/// What a search found, and by which engine.
#[derive(Clone, Debug, PartialEq, Eq)]
pub struct SearchResult {
    pub engine: Engine,
    pub hits: Vec<Hit>,
    pub truncated: bool,
}

/// The bytes a character takes in UTF-8.
pub open spec fn utf8_width(c: char) -> int {
    if (c as u32) < 0x80 {
        1
    } else if (c as u32) < 0x800 {
        2
    } else if (c as u32) < 0x10000 {
        3
    } else {
        4
    }
}

/// How many of the leading characters of `s` lie wholly within its first
/// `byte` bytes: the character column of a byte offset.
pub open spec fn chars_within_bytes(s: Seq<char>, byte: int) -> nat
    decreases s.len(),
{
    if s.len() == 0 || utf8_width(s[0]) > byte {
        0
    } else {
        1 + chars_within_bytes(s.drop_first(), byte - utf8_width(s[0]))
    }
}

/// The UTF-8 length of `s`.
pub open spec fn utf8_bytes(s: Seq<char>) -> int
    decreases s.len(),
{
    if s.len() == 0 {
        0
    } else {
        utf8_width(s[0]) + utf8_bytes(s.drop_first())
    }
}

/// A byte offset counts the characters wholly before it: the offset where
/// the first `k` characters end is column `k`, and in ASCII text every byte
/// is a column.
pub proof fn law_byte_offsets_count_characters(s: Seq<char>, k: int, b: int)
    requires
        0 <= k <= s.len(),
        0 <= b,
    ensures
        chars_within_bytes(s, utf8_bytes(s.take(k))) == k,
        (forall|i: int| 0 <= i < s.len() ==> (s[i] as u32) < 0x80) ==> chars_within_bytes(s, b) == if b < s.len() {
            b
        } else {
            s.len() as int
        },
    decreases s.len(),
{
    if s.len() > 0 {
        let w = utf8_width(s[0]);
        if k > 0 {
            assert(s.take(k).drop_first() =~= s.drop_first().take(k - 1));
            assert(s.take(k)[0] == s[0]);
            law_byte_offsets_count_characters(s.drop_first(), k - 1, 0);
        } else {
            assert(s.take(0) =~= Seq::<char>::empty());
        }
        if forall|i: int| 0 <= i < s.len() ==> (s[i] as u32) < 0x80 {
            assert((s[0] as u32) < 0x80);
            assert forall|i: int| 0 <= i < s.drop_first().len() implies (s.drop_first()[i] as u32) < 0x80 by {
                assert(s.drop_first()[i] == s[i + 1]);
            }
            if b >= 1 {
                law_byte_offsets_count_characters(s.drop_first(), 0, b - 1);
            }
        }
    }
}

fn width_of(c: char) -> (w: usize)
    ensures
        w == utf8_width(c),
{
    let u = c as u32;
    if u < 0x80 {
        1
    } else if u < 0x800 {
        2
    } else if u < 0x10000 {
        3
    } else {
        4
    }
}

/// The character column of byte offset `byte` in `chars`.
pub fn byte_to_char(chars: &[char], byte: usize) -> (k: usize)
    ensures
        k == chars_within_bytes(chars@, byte as int),
{
    let mut k: usize = 0;
    let mut left: usize = byte;
    assert(chars@.skip(0) =~= chars@);
    while k < chars.len() && width_of(chars[k]) <= left
        invariant
            k <= chars@.len(),
            chars_within_bytes(chars@, byte as int) == k + chars_within_bytes(chars@.skip(k as int), left as int),
        decreases chars@.len() - k,
    {
        assert(chars@.skip(k as int).drop_first() =~= chars@.skip(k + 1));
        left = left - width_of(chars[k]);
        k = k + 1;
    }
    proof {
        if k < chars@.len() {
            assert(chars@.skip(k as int)[0] == chars@[k as int]);
        }
    }
    k
}

/// `rel` joined onto `root` as `Path::join` does: an absolute `rel` stands
/// for itself.
pub open spec fn path_joined(root: Seq<char>, rel: Seq<char>) -> Seq<char> {
    if rel.len() > 0 && rel[0] == '/' {
        rel
    } else {
        joined(root, rel)
    }
}

/// The member `key` of `v` when `v` is an object.
pub open spec fn field(v: Json, key: Seq<char>) -> Option<Json> {
    match v {
        Json::Object(es) => lookup(es@, key),
        _ => None,
    }
}

/// A string member's text.
pub open spec fn text_field(v: Option<Json>, key: Seq<char>) -> Option<String> {
    match v {
        Some(o) => match field(o, key) {
            Some(Json::String(s)) => Some(s),
            _ => None,
        },
        None => None,
    }
}

/// A non-negative integer member.
pub open spec fn count_field(v: Option<Json>, key: Seq<char>) -> Option<u64> {
    match v {
        Some(o) => match field(o, key) {
            Some(Json::Number(JsonNumber::PosInt(n))) => Some(n),
            _ => None,
        },
        None => None,
    }
}

/// The first submatch of a match record.
pub open spec fn first_submatch(data: Option<Json>) -> Option<Json> {
    match data {
        Some(d) => match field(d, "submatches"@) {
            Some(Json::Array(a)) => if a@.len() > 0 { Some(a@[0]) } else { None },
            _ => None,
        },
        None => None,
    }
}

/// What a `match` record of the search tool's JSON output reports: the
/// path text, the line number, the line's text and the first submatch's
/// byte offset; `None` for any other record.
pub open spec fn rg_match(v: Json) -> Option<(String, u64, String, u64)> {
    let is_match = match field(v, "type"@) {
        Some(Json::String(t)) => t@ == "match"@,
        _ => false,
    };
    let data = field(v, "data"@);
    match (text_field(field_of(data, "path"@), "text"@), count_field(data, "line_number"@),
        text_field(field_of(data, "lines"@), "text"@), count_field(first_submatch(data), "start"@)) {
        (Some(p), Some(n), Some(t), Some(st)) => if is_match { Some((p, n, t, st)) } else { None },
        _ => None,
    }
}

pub open spec fn field_of(v: Option<Json>, key: Seq<char>) -> Option<Json> {
    match v {
        Some(o) => field(o, key),
        None => None,
    }
}

/// The member `key` of `v`, where `v` is an object that has one.
pub(crate) fn member<'a>(v: &'a Json, key: &str) -> (r: Option<&'a Json>)
    ensures
        match r {
            Some(j) => field(*v, key@) == Some(*j),
            None => field(*v, key@) is None,
        },
{
    match v {
        Json::Object(es) => {
            let mut i: usize = 0;
            assert(es@.skip(0) =~= es@);
            while i < es.len()
                invariant
                    i <= es@.len(),
                    field(*v, key@) == lookup(es@, key@),
                    lookup(es@, key@) == lookup(es@.skip(i as int), key@),
                decreases es@.len() - i,
            {
                assert(es@.skip(i as int)[0] == es@[i as int]);
                assert(es@.skip(i as int).drop_first() =~= es@.skip(i + 1));
                if same_text(es[i].0.as_str(), key) {
                    assert(lookup(es@.skip(i as int), key@) == Some(es@[i as int].1));
                    return Some(&es[i].1);
                }
                i = i + 1;
            }
            None
        },
        _ => None,
    }
}

fn text_member<'a>(v: Option<&'a Json>, key: &str) -> (r: Option<&'a String>)
    ensures
        match v {
            Some(o) => match r {
                Some(s) => text_field(Some(*o), key@) == Some(*s),
                None => text_field(Some(*o), key@) is None,
            },
            None => r is None,
        },
{
    match v {
        Some(o) => match member(o, key) {
            Some(Json::String(s)) => Some(s),
            _ => None,
        },
        None => None,
    }
}

fn count_member(v: Option<&Json>, key: &str) -> (r: Option<u64>)
    ensures
        r == count_field(match v { Some(o) => Some(*o), None => None }, key@),
{
    match v {
        Some(o) => match member(o, key) {
            Some(Json::Number(JsonNumber::PosInt(n))) => Some(*n),
            _ => None,
        },
        None => None,
    }
}

fn member_of<'a>(v: Option<&'a Json>, key: &str) -> (r: Option<&'a Json>)
    ensures
        match r {
            Some(j) => field_of(match v { Some(o) => Some(*o), None => None }, key@) == Some(*j),
            None => field_of(match v { Some(o) => Some(*o), None => None }, key@) is None,
        },
{
    match v {
        Some(o) => member(o, key),
        None => None,
    }
}

/// The hit a record of the search tool's JSON output reports, its path
/// joined onto `root` and its byte offset turned into a character column
/// of the line without its line break; `None` for any other record.
pub fn parse_match(root: &str, v: Json) -> (h: Option<Hit>)
    ensures
        match rg_match(v) {
            None => h is None,
            Some((p, n, t, st)) => h matches Some(hit) && {
                &&& hit.path@ == path_joined(root@, p@)
                &&& hit.line == n as usize
                &&& hit.text@ == t@
                &&& hit.column == chars_within_bytes(trim_line_end(t@), (st as usize) as int)
            },
        },
{
    proof {
        reveal_strlit("match");
    }
    let is_match = match member(&v, "type") {
        Some(Json::String(t)) => same_text(t.as_str(), "match"),
        _ => false,
    };
    let data = member(&v, "data");
    let path = text_member(member_of(data, "path"), "text");
    let line_number = count_member(data, "line_number");
    let lines = text_member(member_of(data, "lines"), "text");
    let sub = match member_of(data, "submatches") {
        Some(Json::Array(a)) => if a.len() > 0 { Some(&a[0]) } else { None },
        _ => None,
    };
    let start = count_member(sub, "start");
    if !is_match {
        return None;
    }
    match (path, line_number, lines, start) {
        (Some(p), Some(n), Some(t), Some(st)) => {
            let rel = chars_of(p.as_str());
            let root_chars = chars_of(root);
            let full = if rel.len() > 0 && rel[0] == '/' {
                rel
            } else {
                join_path(&root_chars, p.as_str())
            };
            let line = chars_of(t.as_str());
            let mut end = line.len();
            assert(line@.take(end as int) =~= line@);
            while end > 0 && (line[end - 1] == '\r' || line[end - 1] == '\n')
                invariant
                    end <= line@.len(),
                    trim_line_end(line@) == trim_line_end(line@.take(end as int)),
                decreases end,
            {
                assert(line@.take(end as int).drop_last() =~= line@.take(end - 1));
                end = end - 1;
            }
            assert(trim_line_end(line@.take(end as int)) == line@.take(end as int));
            let mut body = line;
            body.truncate(end);
            let column = byte_to_char(body.as_slice(), st as usize);
            Some(Hit { path: string_of(full.as_slice()), line: n as usize, column, text: t.clone() })
        },
        _ => None,
    }
}

/// The hit one line of the search tool's output reports: the line read as
/// JSON, then as `parse_match` reads the value.
pub fn parse_match_line(root: &str, line: &str) -> (h: Option<Hit>)
    ensures
        json_of_text(line@) is None ==> h is None,
        json_of_text(line@) matches Some(v) ==> match rg_match(v) {
            None => h is None,
            Some((p, n, t, st)) => h matches Some(hit) && {
                &&& hit.path@ == path_joined(root@, p@)
                &&& hit.line == n as usize
                &&& hit.text@ == t@
                &&& hit.column == chars_within_bytes(trim_line_end(t@), (st as usize) as int)
            },
        },
{
    match parse_json_text(line) {
        Some(v) => parse_match(root, v),
        None => None,
    }
}

/// The search tool's command line: JSON output with line numbers and
/// columns, smart case, hidden files but not `.git`, long lines cut at 300
/// columns, the query, and the current directory.
pub open spec fn rg_argv_of(rg: Seq<char>, query: Seq<char>) -> Seq<Seq<char>> {
    seq![rg, "--json"@, "--line-number"@, "--column"@, "--smart-case"@, "--hidden"@,
        "--glob=!.git"@, "--max-columns"@, "300"@, query, "."@]
}

pub fn rg_argv(rg: &str, query: &str) -> (argv: Vec<String>)
    ensures
        argv@.map_values(|s: String| s@) == rg_argv_of(rg@, query@),
{
    let argv = vec![
        rg.to_owned(),
        "--json".to_owned(),
        "--line-number".to_owned(),
        "--column".to_owned(),
        "--smart-case".to_owned(),
        "--hidden".to_owned(),
        "--glob=!.git".to_owned(),
        "--max-columns".to_owned(),
        "300".to_owned(),
        query.to_owned(),
        ".".to_owned(),
    ];
    assert(argv@.map_values(|s: String| s@) =~= rg_argv_of(rg@, query@));
    argv
}

/// A hit as values: path, line, column, text.
pub open spec fn hit_view(h: Hit) -> (Seq<char>, usize, usize, Seq<char>) {
    (h.path@, h.line, h.column, h.text@)
}

/// The hit one output line reports, as `parse_match_line` reads it.
pub open spec fn line_hit(root: Seq<char>, line: Seq<char>) -> Option<(Seq<char>, usize, usize, Seq<char>)> {
    match json_of_text(line) {
        Some(v) => match rg_match(v) {
            Some((p, n, t, st)) => Some((path_joined(root, p@), n as usize, chars_within_bytes(trim_line_end(t@), (st as usize) as int) as usize, t@)),
            None => None,
        },
        None => None,
    }
}

/// The hits the complete lines of `s` report, each line read without its
/// trailing whitespace; the text after the last line break is no line yet.
pub open spec fn hits_in(root: Seq<char>, s: Seq<char>) -> Seq<(Seq<char>, usize, usize, Seq<char>)>
    decreases s.len(),
{
    let k = find_seq(s, seq!['\n'], 0);
    if k < 0 || k >= s.len() {
        Seq::empty()
    } else {
        let here = match line_hit(root, trim_end_ws(s.take(k + 1))) {
            Some(h) => seq![h],
            None => Seq::empty(),
        };
        here + hits_in(root, s.skip(k + 1))
    }
}

/// What is left of `s` after its complete lines.
pub open spec fn unfinished(s: Seq<char>) -> Seq<char>
    decreases s.len(),
{
    let k = find_seq(s, seq!['\n'], 0);
    if k < 0 || k >= s.len() {
        s
    } else {
        unfinished(s.skip(k + 1))
    }
}

proof fn lemma_find_shift(s: Seq<char>, p: Seq<char>, i: int, j: int)
    requires
        0 <= i <= s.len(),
        0 <= j,
    ensures
        find_seq(s, p, i + j) == if find_seq(s.skip(i), p, j) == -1 { -1 } else { find_seq(s.skip(i), p, j) + i },
    decreases s.len() + 1 - (i + j),
{
    let t = s.skip(i);
    if !(i + j > s.len() || i + j + p.len() > s.len()) {
        if occurs_at(s, p, i + j) {
            assert(s.subrange(i + j, i + j + p.len()) =~= t.subrange(j, j + p.len()));
        } else {
            assert(s.subrange(i + j, i + j + p.len()) =~= t.subrange(j, j + p.len()));
            lemma_find_shift(s, p, i, j + 1);
        }
    }
}

fn trim_end_text(v: &[char], from: usize, to: usize) -> (r: String)
    requires
        from <= to <= v@.len(),
    ensures
        r@ == trim_end_ws(v@.subrange(from as int, to as int)),
{
    let mut b = to;
    while b > from && is_whitespace(v[b - 1])
        invariant
            from <= b <= to <= v@.len(),
            trim_end_ws(v@.subrange(from as int, to as int)) == trim_end_ws(v@.subrange(from as int, b as int)),
        decreases b,
    {
        assert(v@.subrange(from as int, b as int).drop_last() =~= v@.subrange(from as int, b - 1));
        b = b - 1;
    }
    assert(trim_end_ws(v@.subrange(from as int, b as int)) == v@.subrange(from as int, b as int));
    let seg = copy_range(v, from, b);
    string_of(seg.as_slice())
}

/// Takes every complete line out of `stdout`, leaving the unfinished rest,
/// and adds the hits the lines report to `hits`.
pub fn consume_stdout(root: &str, stdout: &mut String, hits: &mut Vec<Hit>)
    ensures
        final(stdout)@ == unfinished(old(stdout)@),
        final(hits)@.map_values(|h: Hit| hit_view(h)) == old(hits)@.map_values(|h: Hit| hit_view(h)) + hits_in(root@, old(stdout)@),
{
    let v = chars_of(stdout.as_str());
    let ghost all = v@;
    let ghost start = hits@.map_values(|h: Hit| hit_view(h));
    let nl = vec!['\n'];
    assert(nl@ =~= seq!['\n']);
    let mut pos: usize = 0;
    assert(all.skip(0) =~= all);
    loop
        invariant
            pos <= v@.len(),
            v@ == all,
            nl@ == seq!['\n'],
            unfinished(all) == unfinished(all.skip(pos as int)),
            start + hits_in(root@, all) == hits@.map_values(|h: Hit| hit_view(h)) + hits_in(root@, all.skip(pos as int)),
        ensures
            pos <= v@.len(),
            v@ == all,
            unfinished(all) == unfinished(all.skip(pos as int)),
            start + hits_in(root@, all) == hits@.map_values(|h: Hit| hit_view(h)) + hits_in(root@, all.skip(pos as int)),
            find_seq(all.skip(pos as int), seq!['\n'], 0) == -1,
        decreases v@.len() - pos,
    {
        let ghost rest = all.skip(pos as int);
        proof {
            lemma_find_shift(all, seq!['\n'], pos as int, 0);
            crate::text::lemma_find_seq(rest, seq!['\n'], 0);
            assert(all.skip(pos as int) == rest);
        }
        match find_in(v.as_slice(), nl.as_slice(), pos) {
            Some(k) => {
                proof {
                    crate::text::lemma_find_seq(all, seq!['\n'], pos as int);
                }
                assert(occurs_at(all, seq!['\n'], k as int));
                let n = v.len();
                assert(k < n);
                let ghost kk = k - pos;
                assert(find_seq(rest, seq!['\n'], 0) == kk);
                let line = trim_end_text(v.as_slice(), pos, k + 1);
                assert(rest.take(kk + 1) =~= all.subrange(pos as int, k + 1));
                assert(rest.skip(kk + 1) =~= all.skip(k + 1));
                let ghost before = hits@.map_values(|h: Hit| hit_view(h));
                match parse_match_line(root, line.as_str()) {
                    Some(h) => {
                        hits.push(h);
                        assert(hits@.map_values(|h: Hit| hit_view(h)) =~= before.push(hit_view(h)));
                    },
                    None => {},
                }
                assert(hits_in(root@, rest) == (match line_hit(root@, line@) {
                    Some(h) => seq![h],
                    None => Seq::empty(),
                }) + hits_in(root@, all.skip(k + 1)));
                pos = k + 1;
            },
            None => {
                assert(find_seq(rest, seq!['\n'], 0) == -1);
                break;
            },
        }
    }
    let tail = copy_range(v.as_slice(), pos, v.len());
    assert(tail@ =~= all.skip(pos as int));
    *stdout = string_of(tail.as_slice());
    assert(hits_in(root@, all.skip(pos as int)) =~= Seq::empty());
    assert(hits@.map_values(|h: Hit| hit_view(h)) + Seq::empty() =~= hits@.map_values(|h: Hit| hit_view(h)));
}

/// Whether a query searches case-sensitively: when it has an uppercase
/// character.
pub open spec fn case_sensitive(query: Seq<char>) -> bool {
    exists|i: int| 0 <= i < query.len() && unicode_uppercase(#[trigger] query[i])
}

/// Smart case reads the whole query: an uppercase character at any place
/// in it makes the search case sensitive, a query without one is searched
/// ignoring case, and text added before or after a case-sensitive query
/// keeps it case sensitive.
pub proof fn law_smart_case_reads_the_whole_query(q: Seq<char>, before: Seq<char>, after: Seq<char>, i: int)
    ensures
        0 <= i < q.len() && unicode_uppercase(q[i]) ==> case_sensitive(q),
        (forall|j: int| 0 <= j < q.len() ==> !unicode_uppercase(#[trigger] q[j])) ==> !case_sensitive(q),
        case_sensitive(q) ==> case_sensitive(before + q + after),
{
    if case_sensitive(q) {
        let k = choose|k: int| 0 <= k < q.len() && unicode_uppercase(#[trigger] q[k]);
        let w = before + q + after;
        assert(w[before.len() + k] == q[k]);
    }
}

/// What the literal search looks for: the query itself when it is case
/// sensitive, else the query in lowercase; and whether it is.
pub fn literal_needle(query: &str) -> (r: (String, bool))
    ensures
        r.1 == case_sensitive(query@),
        r.0@ == if r.1 { query@ } else { lowercased(query@) },
{
    let v = chars_of(query);
    let mut i: usize = 0;
    let mut sensitive = false;
    while i < v.len()
        invariant
            i <= v@.len(),
            v@ == query@,
            sensitive == exists|j: int| 0 <= j < i && unicode_uppercase(#[trigger] query@[j]),
        decreases v@.len() - i,
    {
        if is_uppercase(v[i]) {
            sensitive = true;
        }
        i = i + 1;
    }
    if sensitive {
        (query.to_owned(), true)
    } else {
        (to_lowercase(query), false)
    }
}

/// The lines of a text as `str::lines` gives them: split at each `\n`, a
/// `\r` right before it dropped too, the last line break optional.
pub open spec fn text_lines(s: Seq<char>) -> Seq<Seq<char>>
    decreases s.len(),
{
    if s.len() == 0 {
        Seq::empty()
    } else {
        let k = find_seq(s, seq!['\n'], 0);
        if k < 0 || k >= s.len() {
            seq![s]
        } else {
            seq![strip_last(s.take(k), '\r')] + text_lines(s.skip(k + 1))
        }
    }
}

/// The hits of a literal search in the lines of one file, the first of
/// them numbered `number`, with `count` hits found before: each line where
/// the needle occurs (in the line, or in its lowercase when the search
/// ignores case) is a hit at the needle's first place, its byte offset in
/// the searched text turned into a column of the line; the scan stops
/// right after the hit that makes more than `MAX_HITS`.
pub open spec fn literal_hits(
    path: Seq<char>,
    lines: Seq<Seq<char>>,
    needle: Seq<char>,
    sensitive: bool,
    number: nat,
    count: nat,
) -> Seq<(Seq<char>, usize, usize, Seq<char>)>
    decreases lines.len(),
{
    if lines.len() == 0 {
        Seq::empty()
    } else {
        let l = lines[0];
        let hay = if sensitive { l } else { lowercased(l) };
        let c = find_seq(hay, needle, 0);
        if c < 0 {
            literal_hits(path, lines.drop_first(), needle, sensitive, number + 1, count)
        } else {
            let byte = encode_utf8(hay.take(c)).len();
            let h = (path, (number + 1) as usize, chars_within_bytes(l, byte as int) as usize, l);
            if count + 1 > MAX_HITS {
                seq![h]
            } else {
                seq![h] + literal_hits(path, lines.drop_first(), needle, sensitive, number + 1, count + 1)
            }
        }
    }
}

/// The hit a line makes, if the needle is in it, as `literal_hits` says.
fn line_match(path: &str, line: &Vec<char>, needle: &Vec<char>, sensitive: bool, number: usize) -> (r: Option<Hit>)
    requires
        number < usize::MAX,
    ensures
        ({
            let hay = if sensitive { line@ } else { lowercased(line@) };
            let c = find_seq(hay, needle@, 0);
            match r {
                Some(h) => c >= 0 && hit_view(h) == (path@, (number + 1) as usize,
                    chars_within_bytes(line@, encode_utf8(hay.take(c)).len() as int) as usize, line@),
                None => c < 0,
            }
        }),
{
    let text = string_of(line.as_slice());
    let hay = if sensitive { chars_of(text.as_str()) } else { chars_of(to_lowercase(text.as_str()).as_str()) };
    match find_in(hay.as_slice(), needle.as_slice(), 0) {
        Some(c) => {
            proof {
                lemma_find_seq(hay@, needle@, 0);
            }
            let head = string_of(copy_range(hay.as_slice(), 0, c).as_slice());
            let byte = head.as_str().as_bytes().len();
            let column = byte_to_char(line.as_slice(), byte);
            Some(Hit { path: path.to_owned(), line: number + 1, column, text })
        },
        None => None,
    }
}

/// Adds the literal search's hits in one file's text to `hits`, as
/// `literal_hits` says, numbering the lines from 1.
pub fn scan_literal_text(path: &str, text: &str, needle: &str, sensitive: bool, hits: &mut Vec<Hit>)
    ensures
        final(hits)@.map_values(|h: Hit| hit_view(h)) == old(hits)@.map_values(|h: Hit| hit_view(h))
            + literal_hits(path@, text_lines(text@), needle@, sensitive, 0, old(hits)@.len()),
{
    let v = chars_of(text);
    let nd = chars_of(needle);
    let nl = vec!['\n'];
    assert(nl@ =~= seq!['\n']);
    let ghost all = v@;
    let ghost goal = old(hits)@.map_values(|h: Hit| hit_view(h))
        + literal_hits(path@, text_lines(text@), needle@, sensitive, 0, old(hits)@.len());
    let mut pos: usize = 0;
    let mut number: usize = 0;
    assert(all.skip(0) =~= all);
    while pos < v.len()
        invariant
            pos <= v@.len(),
            number <= pos,
            v@ == all,
            all == text@,
            nd@ == needle@,
            nl@ == seq!['\n'],
            goal == old(hits)@.map_values(|h: Hit| hit_view(h))
                + literal_hits(path@, text_lines(text@), needle@, sensitive, 0, old(hits)@.len()),
            goal == hits@.map_values(|h: Hit| hit_view(h))
                + literal_hits(path@, text_lines(all.skip(pos as int)), needle@, sensitive, number as nat, hits@.len()),
        decreases v@.len() - pos,
    {
        let ghost rest = all.skip(pos as int);
        let n = v.len();
        proof {
            lemma_find_shift(all, seq!['\n'], pos as int, 0);
            lemma_find_seq(rest, seq!['\n'], 0);
            lemma_find_seq(all, seq!['\n'], pos as int);
        }
        let (line, next) = match find_in(v.as_slice(), nl.as_slice(), pos) {
            Some(k) => {
                assert(occurs_at(all, seq!['\n'], k as int));
                let end = if k > pos && v[k - 1] == '\r' { k - 1 } else { k };
                let line = copy_range(v.as_slice(), pos, end);
                assert(rest.take(k - pos) =~= all.subrange(pos as int, k as int));
                assert(line@ == strip_last(rest.take(k - pos), '\r'));
                assert(rest.skip(k - pos + 1) =~= all.skip(k + 1));
                assert(text_lines(rest)[0] == line@);
                assert(text_lines(rest).drop_first() =~= text_lines(all.skip(k + 1)));
                (line, k + 1)
            },
            None => {
                let line = copy_range(v.as_slice(), pos, n);
                assert(line@ =~= rest);
                assert(text_lines(rest) =~= seq![rest]);
                assert(all.skip(n as int) =~= Seq::<char>::empty());
                assert(text_lines(rest).drop_first() =~= text_lines(all.skip(n as int)));
                (line, n)
            },
        };
        let ghost lines = text_lines(rest);
        assert(lines.len() > 0 && lines[0] == line@);
        assert(lines.drop_first() == text_lines(all.skip(next as int)));
        let before = hits.len();
        let ghost seen = hits@.map_values(|h: Hit| hit_view(h));
        match line_match(path, &line, &nd, sensitive, number) {
            Some(h) => {
                hits.push(h);
                assert(hits@.map_values(|h: Hit| hit_view(h)) =~= seen.push(hit_view(h)));
                if hits.len() > MAX_HITS {
                    assert(hits@.map_values(|h: Hit| hit_view(h)) =~= goal);
                    return;
                }
            },
            None => {},
        }
        pos = next;
        number = number + 1;
    }
    assert(all.skip(pos as int) =~= Seq::<char>::empty());
    assert(hits@.map_values(|h: Hit| hit_view(h)) =~= goal);
}

/// A literal search's result from the hits it collected: truncated when
/// more than `MAX_HITS` were found, and then cut to that many.
pub fn finish_literal(hits: Vec<Hit>) -> (r: SearchResult)
    ensures
        r.engine == Engine::LiteralFallback,
        r.truncated == (hits@.len() > MAX_HITS),
        r.hits@ == if hits@.len() > MAX_HITS { hits@.take(MAX_HITS as int) } else { hits@ },
{
    let mut hits = hits;
    let truncated = hits.len() > MAX_HITS;
    hits.truncate(MAX_HITS);
    SearchResult { engine: Engine::LiteralFallback, hits, truncated }
}

/// The result of a search for a query too short to search for: no hits.
pub fn short_query(query: &str) -> (r: Option<SearchResult>)
    ensures
        r matches Some(res) ==> res.hits@.len() == 0 && !res.truncated && res.engine == Engine::Ripgrep,
        r is Some <==> query@.len() < MIN_QUERY_CHARS,
{
    let n = chars_of(query).len();
    if n < MIN_QUERY_CHARS {
        Some(SearchResult { engine: Engine::Ripgrep, hits: Vec::new(), truncated: false })
    } else {
        None
    }
}


/// What `Path::strip_prefix` gives for `path` below `root`: the rest of the
/// path after `root`'s whole components, or `None` where `root` is not such a
/// prefix.
pub uninterp spec fn path_below(path: Seq<char>, root: Seq<char>) -> Option<Seq<char>>;

/// Wraps `std::path::Path::strip_prefix` on two UTF-8 paths. The rest is a
/// part of `path` and so is read back as the same text; which part it is
/// (whole components, separators and `.` components) is only named.
#[verifier::external_body]
fn strip_root(path: &str, root: &str) -> (r: Option<String>)
    ensures
        match r {
            Some(rest) => path_below(path@, root@) == Some(rest@),
            None => path_below(path@, root@) is None,
        },
{
    match std::path::Path::new(path).strip_prefix(root) {
        Ok(rest) => Some(rest.to_string_lossy().into_owned()),
        Err(_) => None,
    }
}

/// A hit as the picker lists it: `path:line:column: text`, the column
/// counted from 1 and the text without trailing whitespace.
pub open spec fn hit_line(shown: Seq<char>, line: usize, column: usize, text: Seq<char>) -> Seq<char> {
    shown + ":"@ + decimal(line as nat) + ":"@ + decimal((column + 1) as nat) + ": "@ + trim_end_ws(text)
}

/// The path a hit is shown by: the part below `root`, or the whole path
/// where it does not lie below `root`.
pub open spec fn shown_path(path: Seq<char>, root: Seq<char>) -> Seq<char> {
    match path_below(path, root) {
        Some(rest) => rest,
        None => path,
    }
}

impl Hit {
    /// The hit as a line of the picker, shown by the path `shown`.
    pub fn display_as(&self, shown: &str) -> (s: String)
        requires
            self.column < usize::MAX,
        ensures
            s@ == hit_line(shown@, self.line, self.column, self.text@),
    {
        let text = chars_of(self.text.as_str());
        let trimmed = trim_end_text(text.as_slice(), 0, text.len());
        proof {
            assert(text@.subrange(0, text@.len() as int) =~= text@);
            reveal_strlit(":");
            reveal_strlit(": ");
        }
        let line = decimal_text(self.line);
        let column = decimal_text(self.column + 1);
        let a = concat(shown, ":");
        let b = concat(a.as_str(), line.as_str());
        let c = concat(b.as_str(), ":");
        let d = concat(c.as_str(), column.as_str());
        let e = concat(d.as_str(), ": ");
        concat(e.as_str(), trimmed.as_str())
    }

    /// The hit as a line of the picker, its path shown below `root`.
    pub fn display(&self, root: &str) -> (s: String)
        requires
            self.column < usize::MAX,
        ensures
            s@ == hit_line(shown_path(self.path@, root@), self.line, self.column, self.text@),
    {
        match strip_root(self.path.as_str(), root) {
            Some(rest) => self.display_as(rest.as_str()),
            None => self.display_as(self.path.as_str()),
        }
    }
}

} // verus!
