//! Protocol positions and ranges, and file URIs.
//!
//! The protocol counts columns in UTF-16 code units; the buffer counts
//! characters. A URI carries the path's UTF-8 bytes, the unreserved ones as
//! they are and the rest as `%XX`.

use vstd::prelude::*;
use vstd::string::StrSliceExecFns;
use vstd::utf8::{decode_utf8, encode_utf8, valid_utf8};
use crate::editcore::buffer::Buffer;
use crate::textpos::{char_to_utf16, chars_within, units, utf16_to_char};

verus! {

#[derive(Clone, Copy, Debug, Default, PartialEq, Eq, Structural)]
pub struct Position {
    pub line: usize,
    pub character: usize,
}

impl Position {
    /// The position of character `char_idx` of line `line`.
    pub fn from_buffer_chars(buffer: &Buffer, line: usize, char_idx: usize) -> (p: Position)
        requires
            line < buffer@.lines.len() ==> buffer@.lines[line as int].len() <= usize::MAX / 2,
        ensures
            p.line == line,
            p.character == units(
                if line < buffer@.lines.len() { buffer@.lines[line as int] } else { Seq::empty() },
                char_idx as int,
            ),
    {
        Position { line, character: char_to_utf16(buffer.line(line), char_idx) }
    }

    /// The buffer line and character this position names: the line clamped
    /// to the buffer, the character the whole characters the code units cover.
    pub fn to_buffer_chars(self, buffer: &Buffer) -> (r: (usize, usize))
        requires
            buffer@.wf(),
            forall|i: int| 0 <= i < buffer@.lines.len() ==> #[trigger] buffer@.lines[i].len() <= usize::MAX / 2,
        ensures
            r.0 == if self.line < buffer@.lines.len() { self.line as int } else { buffer@.lines.len() - 1 },
            r.1 == chars_within(buffer@.lines[r.0 as int], self.character as int, 0),
    {
        let count = buffer.line_count();
        let line = if self.line < count - 1 { self.line } else { count - 1 };
        let character = utf16_to_char(buffer.line(line), self.character);
        (line, character)
    }
}

#[derive(Clone, Copy, Debug, Default, PartialEq, Eq, Structural)]
pub struct Range {
    pub start: Position,
    pub end: Position,
}

/// A problem a language server reported: where, how bad (1 error, 2
/// warning, 3 information, 4 hint), from what, and what it says.
#[derive(Clone, Debug, PartialEq, Eq)]
pub struct Diagnostic {
    pub range: Range,
    pub severity: Option<u8>,
    pub source: Option<String>,
    pub message: String,
}

/// How bad a diagnostic is; one without a severity counts as a hint.
pub open spec fn rank_of(d: Diagnostic) -> u8 {
    match d.severity {
        Some(s) => s,
        None => 4,
    }
}

impl Diagnostic {
    pub fn severity_rank(&self) -> (r: u8)
        ensures
            r == rank_of(*self),
    {
        match self.severity {
            Some(s) => s,
            None => 4,
        }
    }

    pub fn line(&self) -> (r: usize)
        ensures
            r == self.range.start.line,
    {
        self.range.start.line
    }
}

/// `a` comes before `b`, line first.
pub open spec fn before(a: (usize, usize), b: (usize, usize)) -> bool {
    a.0 < b.0 || (a.0 == b.0 && a.1 < b.1)
}

/// Whether buffer position `(line, col)` lies in `range` over `lines`: the
/// range's lines clamped to the buffer and its code units counted as whole
/// characters, from the start on and short of the end.
pub open spec fn covers(range: Range, lines: Seq<Seq<char>>, line: usize, col: usize) -> bool {
    let count = lines.len();
    let sl = if range.start.line < count { range.start.line as int } else { count - 1 };
    let el = if range.end.line < count { range.end.line as int } else { count - 1 };
    let s = (sl as usize, chars_within(lines[sl], range.start.character as int, 0) as usize);
    let e = (el as usize, chars_within(lines[el], range.end.character as int, 0) as usize);
    !before((line, col), s) && before((line, col), e)
}

impl Range {
    pub fn from_buffer_chars(buffer: &Buffer, start: (usize, usize), end: (usize, usize)) -> (r: Range)
        requires
            start.0 < buffer@.lines.len() ==> buffer@.lines[start.0 as int].len() <= usize::MAX / 2,
            end.0 < buffer@.lines.len() ==> buffer@.lines[end.0 as int].len() <= usize::MAX / 2,
        ensures
            r.start.line == start.0,
            r.end.line == end.0,
            r.start.character == units(
                if start.0 < buffer@.lines.len() { buffer@.lines[start.0 as int] } else { Seq::empty() },
                start.1 as int,
            ),
            r.end.character == units(
                if end.0 < buffer@.lines.len() { buffer@.lines[end.0 as int] } else { Seq::empty() },
                end.1 as int,
            ),
    {
        Range {
            start: Position::from_buffer_chars(buffer, start.0, start.1),
            end: Position::from_buffer_chars(buffer, end.0, end.1),
        }
    }

    /// Whether buffer position `(line, col)` is in the range: from the start
    /// on, up to but not including the end.
    pub fn contains_buffer_position(&self, buffer: &Buffer, line: usize, col: usize) -> (r: bool)
        requires
            buffer@.wf(),
            forall|i: int| 0 <= i < buffer@.lines.len() ==> #[trigger] buffer@.lines[i].len() <= usize::MAX / 2,
        ensures
            r == covers(*self, buffer@.lines, line, col),
    {
        let start = self.start.to_buffer_chars(buffer);
        let end = self.end.to_buffer_chars(buffer);
        let after_start = line > start.0 || (line == start.0 && col >= start.1);
        let before_end = line < end.0 || (line == end.0 && col < end.1);
        after_start && before_end
    }
}

#[derive(Clone, Debug, Default, PartialEq, Eq)]
pub struct TextEdit {
    pub range: Range,
    pub new_text: String,
}

#[derive(Clone, Debug, PartialEq, Eq)]
pub struct Location {
    pub uri: String,
    pub range: Range,
}

// ---------------------------------------------------------------------------
// File URIs
// ---------------------------------------------------------------------------

/// Bytes a URI path carries as they are.
pub open spec fn unreserved(b: u8) -> bool {
    (0x41 <= b <= 0x5A) || (0x61 <= b <= 0x7A) || (0x30 <= b <= 0x39) || b == 0x2F || b == 0x2E
        || b == 0x2D || b == 0x5F || b == 0x7E
}

/// An upper-case hexadecimal digit, as a byte.
pub open spec fn hex_byte(v: u8) -> u8 {
    if v < 10 { (0x30 + v) as u8 } else { (0x41 + v - 10) as u8 }
}

/// A byte as it stands in a URI: itself when unreserved, else `%` and two
/// upper-case hex digits.
pub open spec fn escape(x: u8) -> Seq<u8> {
    if unreserved(x) {
        seq![x]
    } else {
        seq![0x25u8, hex_byte(x / 16), hex_byte(x % 16)]
    }
}

pub open spec fn percent_encoded(b: Seq<u8>) -> Seq<u8>
    decreases b.len(),
{
    if b.len() == 0 {
        Seq::empty()
    } else {
        escape(b[0]) + percent_encoded(b.drop_first())
    }
}

pub open spec fn ascii_chars(b: Seq<u8>) -> Seq<char> {
    b.map_values(|x: u8| x as char)
}

pub open spec fn hex_value(b: u8) -> Option<u8> {
    if 0x30 <= b <= 0x39 {
        Some((b - 0x30) as u8)
    } else if 0x41 <= b <= 0x46 {
        Some((b - 0x41 + 10) as u8)
    } else if 0x61 <= b <= 0x66 {
        Some((b - 0x61 + 10) as u8)
    } else {
        None
    }
}

/// What `u8::from_str_radix(_, 16)` makes of two bytes: an optional `+`,
/// then hexadecimal digits.
pub open spec fn radix16(b1: u8, b2: u8) -> Option<u8> {
    if b1 == 0x2B {
        hex_value(b2)
    } else {
        match (hex_value(b1), hex_value(b2)) {
            (Some(h), Some(l)) => Some((h * 16 + l) as u8),
            _ => None,
        }
    }
}

/// `%XX` back to the byte it stands for; anything else as it is.
pub open spec fn percent_decoded(b: Seq<u8>) -> Seq<u8>
    decreases b.len(),
{
    if b.len() == 0 {
        Seq::empty()
    } else if b[0] == 0x25 && b.len() >= 3 && radix16(b[1], b[2]) is Some {
        seq![radix16(b[1], b[2])->0] + percent_decoded(b.skip(3))
    } else {
        seq![b[0]] + percent_decoded(b.drop_first())
    }
}

pub open spec fn continuation(b: u8) -> bool {
    0x80 <= b <= 0xBF
}

/// Every `%` the decoding reads that has two bytes after it has a character
/// boundary after them, so that the two can be read as text.
pub open spec fn decodable(b: Seq<u8>) -> bool
    decreases b.len(),
{
    if b.len() == 0 {
        true
    } else if b[0] == 0x25 && b.len() >= 3 {
        (b.len() == 3 || !continuation(b[3])) && if radix16(b[1], b[2]) is Some {
            decodable(b.skip(3))
        } else {
            decodable(b.drop_first())
        }
    } else {
        decodable(b.drop_first())
    }
}

/// What `String::from_utf8_lossy` makes of some bytes.
pub uninterp spec fn lossy_text(bytes: Seq<u8>) -> Seq<char>;

/// Wraps `String::from_utf8_lossy`. The text depends on the bytes alone and is
/// named; for valid UTF-8 it is the text the bytes encode, as the function's
/// documentation says. What replaces invalid sequences is left unsaid.
#[verifier::external_body]
pub(crate) fn from_utf8_lossy(bytes: &[u8]) -> (s: String)
    ensures
        s@ == lossy_text(bytes@),
        valid_utf8(bytes@) ==> s@ == decode_utf8(bytes@),
{
    String::from_utf8_lossy(bytes).to_string()
}

fn hex_exec(v: u8) -> (b: u8)
    requires
        v < 16,
    ensures
        b == hex_byte(v),
{
    if v < 10 { 0x30 + v } else { 0x41 + v - 10 }
}

fn unreserved_exec(b: u8) -> (r: bool)
    ensures
        r == unreserved(b),
{
    (0x41 <= b && b <= 0x5A) || (0x61 <= b && b <= 0x7A) || (0x30 <= b && b <= 0x39) || b == 0x2F
        || b == 0x2E || b == 0x2D || b == 0x5F || b == 0x7E
}

fn hex_value_exec(b: u8) -> (r: Option<u8>)
    ensures
        r == hex_value(b),
{
    if 0x30 <= b && b <= 0x39 {
        Some(b - 0x30)
    } else if 0x41 <= b && b <= 0x46 {
        Some(b - 0x41 + 10)
    } else if 0x61 <= b && b <= 0x66 {
        Some(b - 0x61 + 10)
    } else {
        None
    }
}

fn radix16_exec(b1: u8, b2: u8) -> (r: Option<u8>)
    ensures
        r == radix16(b1, b2),
{
    if b1 == 0x2B {
        hex_value_exec(b2)
    } else {
        match (hex_value_exec(b1), hex_value_exec(b2)) {
            (Some(h), Some(l)) => Some(h * 16 + l),
            _ => None,
        }
    }
}

/// The `file://` URI of `path`, an absolute path as the file system spells
/// it.
pub fn path_to_uri(path: &str) -> (uri: String)
    ensures
        uri@ == "file://"@ + ascii_chars(percent_encoded(encode_utf8(path@))),
{
    let bytes = path.as_bytes();
    let mut out: Vec<char> = crate::text::chars_of("file://");
    let ghost prefix = out@;
    let ghost all = percent_encoded(bytes@);
    let mut i: usize = 0;
    assert(bytes@.skip(0) =~= bytes@);
    assert(out@ =~= prefix + ascii_chars(Seq::<u8>::empty()));
    let ghost done: Seq<u8> = Seq::empty();
    while i < bytes.len()
        invariant
            i <= bytes@.len(),
            bytes@ == encode_utf8(path@),
            prefix == "file://"@,
            all == percent_encoded(bytes@),
            out@ == prefix + ascii_chars(done),
            done + percent_encoded(bytes@.skip(i as int)) == all,
        decreases bytes@.len() - i,
    {
        let b = bytes[i];
        proof {
            assert(bytes@.skip(i as int)[0] == b);
            assert(bytes@.skip(i as int).drop_first() =~= bytes@.skip(i + 1));
        }
        let ghost before = done;
        if unreserved_exec(b) {
            out.push(b as char);
        } else {
            out.push('%');
            out.push(hex_exec(b / 16) as char);
            out.push(hex_exec(b % 16) as char);
        }
        proof {
            done = before + escape(b);
            assert(out@ =~= prefix + ascii_chars(done));
            assert(done + percent_encoded(bytes@.skip(i + 1)) =~= before + percent_encoded(bytes@.skip(i as int)));
        }
        i = i + 1;
    }
    proof {
        assert(bytes@.skip(i as int) =~= Seq::<u8>::empty());
        assert(done =~= all);
    }
    crate::text::string_of(out.as_slice())
}

/// `uri`'s path when it is a `file://` URI: the escapes decoded, the bytes
/// read as UTF-8.
pub fn uri_to_path(uri: &str) -> (path: Option<String>)
    requires
        uri@.len() >= 7 && uri@.take(7) == "file://"@ ==> decodable(encode_utf8(uri@.skip(7))),
    ensures
        match path {
            Some(p) => uri@.len() >= 7 && uri@.take(7) == "file://"@
                && p@ == lossy_text(percent_decoded(encode_utf8(uri@.skip(7))))
                && (valid_utf8(percent_decoded(encode_utf8(uri@.skip(7))))
                    ==> p@ == decode_utf8(percent_decoded(encode_utf8(uri@.skip(7))))),
            None => !(uri@.len() >= 7 && uri@.take(7) == "file://"@),
        },
{
    let chars = crate::text::chars_of(uri);
    let scheme = crate::text::chars_of("file://");
    proof {
        reveal_strlit("file://");
    }
    if chars.len() < 7 {
        return None;
    }
    let head = crate::editcore::key::copy_range(chars.as_slice(), 0, 7);
    if !crate::editcore::key::same_chars(head.as_slice(), scheme.as_slice()) {
        return None;
    }
    let rest = uri.substring_char(7, chars.len());
    let bytes = rest.as_bytes();
    let ghost all = percent_decoded(bytes@);
    let mut out: Vec<u8> = Vec::new();
    let mut i: usize = 0;
    assert(bytes@.skip(0) =~= bytes@);
    while i < bytes.len()
        invariant
            i <= bytes@.len(),
            all == percent_decoded(bytes@),
            out@ + percent_decoded(bytes@.skip(i as int)) == all,
        decreases bytes@.len() - i,
    {
        let ghost before = out@;
        let ghost tail = bytes@.skip(i as int);
        let n = bytes.len();
        if bytes[i] == 0x25 && n - i >= 3 {
            match radix16_exec(bytes[i + 1], bytes[i + 2]) {
                Some(v) => {
                    out.push(v);
                    proof {
                        assert(tail[1] == bytes@[i + 1] && tail[2] == bytes@[i + 2]);
                        assert(tail.skip(3) =~= bytes@.skip(i + 3));
                        assert(out@ + percent_decoded(bytes@.skip(i + 3)) =~= before + percent_decoded(tail));
                    }
                    i = i + 3;
                },
                None => {
                    out.push(bytes[i]);
                    proof {
                        assert(tail[1] == bytes@[i + 1] && tail[2] == bytes@[i + 2]);
                        assert(tail.drop_first() =~= bytes@.skip(i + 1));
                        assert(out@ + percent_decoded(bytes@.skip(i + 1)) =~= before + percent_decoded(tail));
                    }
                    i = i + 1;
                },
            }
        } else {
            out.push(bytes[i]);
            proof {
                assert(tail.drop_first() =~= bytes@.skip(i + 1));
                assert(out@ + percent_decoded(bytes@.skip(i + 1)) =~= before + percent_decoded(tail));
            }
            i = i + 1;
        }
    }
    proof {
        assert(bytes@.skip(i as int) =~= Seq::<u8>::empty());
        assert(out@ =~= all);
        assert(rest@ =~= uri@.skip(7));
        assert(head@ =~= uri@.take(7));
    }
    Some(from_utf8_lossy(out.as_slice()))
}

proof fn lemma_escape_ascii(x: u8)
    ensures
        forall|i: int| 0 <= i < escape(x).len() ==> #[trigger] escape(x)[i] < 0x80,
        escape(x).len() >= 1,
        escape(x)[0] == 0x25 <==> !unreserved(x),
        !unreserved(x) ==> escape(x).len() == 3 && radix16(escape(x)[1], escape(x)[2]) == Some(x),
        unreserved(x) ==> escape(x).len() == 1,
{
    if !unreserved(x) {
        let h = (x / 16) as u8;
        let l = (x % 16) as u8;
        assert(hex_value(hex_byte(h)) == Some(h));
        assert(hex_value(hex_byte(l)) == Some(l));
        assert(hex_byte(h) != 0x2B);
        assert(h * 16 + l == x);
    }
}

proof fn lemma_encoded_ascii(b: Seq<u8>)
    ensures
        forall|i: int| 0 <= i < percent_encoded(b).len() ==> #[trigger] percent_encoded(b)[i] < 0x80,
        percent_decoded(percent_encoded(b)) == b,
        decodable(percent_encoded(b)),
    decreases b.len(),
{
    if b.len() > 0 {
        let e = escape(b[0]);
        let rest = percent_encoded(b.drop_first());
        let all = percent_encoded(b);
        lemma_escape_ascii(b[0]);
        lemma_encoded_ascii(b.drop_first());
        assert(all == e + rest);
        assert forall|i: int| 0 <= i < all.len() implies #[trigger] all[i] < 0x80 by {
            if i < e.len() {
                assert(all[i] == e[i]);
            } else {
                assert(all[i] == rest[i - e.len()]);
            }
        }
        if unreserved(b[0]) {
            assert(all.drop_first() =~= rest);
        } else {
            assert(all.skip(3) =~= rest);
            assert(all[1] == e[1] && all[2] == e[2]);
            if all.len() > 3 {
                assert(all[3] == rest[0]);
            }
        }
        assert(b =~= seq![b[0]] + b.drop_first());
    }
}

/// A path comes back from its URI: the URI is one `uri_to_path` reads, and
/// decoding its escapes gives back the path's UTF-8 bytes, which read as the
/// path again.
pub proof fn law_a_path_survives_its_uri(path: Seq<char>)
    ensures
        ({
            let uri = "file://"@ + ascii_chars(percent_encoded(encode_utf8(path)));
            &&& uri.len() >= 7
            &&& uri.take(7) == "file://"@
            &&& decodable(encode_utf8(uri.skip(7)))
            &&& percent_decoded(encode_utf8(uri.skip(7))) == encode_utf8(path)
            &&& valid_utf8(encode_utf8(path))
            &&& decode_utf8(encode_utf8(path)) == path
        }),
{
    reveal_strlit("file://");
    let e = percent_encoded(encode_utf8(path));
    let uri = "file://"@ + ascii_chars(e);
    lemma_encoded_ascii(encode_utf8(path));
    assert(uri.skip(7) =~= ascii_chars(e));
    assert(uri.take(7) =~= "file://"@);
    let chars = ascii_chars(e);
    assert(vstd::utf8::is_ascii_chars(chars)) by {
        assert forall|i: int| 0 <= i < chars.len() implies '\0' <= #[trigger] chars[i] <= '\u{7f}' by {
            assert(e[i] < 0x80);
        }
    }
    vstd::utf8::is_ascii_chars_encode_utf8(chars);
    assert(encode_utf8(chars) =~= e);
    vstd::utf8::encode_utf8_valid_utf8(path);
    vstd::utf8::encode_utf8_decode_utf8(path);
}

} // verus!
