//! What a task's output is made of: text runs with a role each, decoded from
//! the bytes a child process wrote. Starting and reading the process is the
//! host's; only the owner's key or `:` line may start one.

use vstd::prelude::*;
use crate::editcore::key::{all_digits, digits_value, is_digit, lemma_digits_monotone};
use crate::lsp::types::{from_utf8_lossy, lossy_text};
use crate::text::{chars_of, string_of};

verus! {

/// Who asked for a task: a key the owner pressed, or a `:` line the owner
/// typed.
#[derive(Clone, Copy, Debug, PartialEq, Eq, Structural)]
pub enum Origin {
    OwnerKey,
    OwnerExCommand,
}

impl Origin {
    pub fn as_str(self) -> (s: &'static str)
        ensures
            s@ == match self {
                Origin::OwnerKey => "key"@,
                Origin::OwnerExCommand => "ex"@,
            },
    {
        match self {
            Origin::OwnerKey => "key",
            Origin::OwnerExCommand => "ex",
        }
    }
}

#[derive(Clone, Copy, Debug, PartialEq, Eq, Structural)]
pub enum Stream {
    Stdout,
    Stderr,
}

#[derive(Clone, Copy, Debug, PartialEq, Eq, Structural)]
pub enum AnsiColor {
    Black,
    Red,
    Green,
    Yellow,
    Blue,
    Magenta,
    Cyan,
    White,
    BrightBlack,
    BrightRed,
    BrightGreen,
    BrightYellow,
    BrightBlue,
    BrightMagenta,
    BrightCyan,
    BrightWhite,
}

#[derive(Clone, Copy, Debug, PartialEq, Eq, Structural)]
pub struct Role {
    pub stream: Stream,
    pub color: Option<AnsiColor>,
    pub bold: bool,
}

#[derive(Clone, Debug, PartialEq, Eq)]
pub struct Segment {
    pub text: String,
    pub role: Role,
}

pub open spec fn segment_model(s: Segment) -> (Seq<char>, Role) {
    (s.text@, s.role)
}

// ---------------------------------------------------------------------------
// Select Graphic Rendition
// ---------------------------------------------------------------------------

/// The colour an SGR code sets, if it sets one.
pub open spec fn code_color(code: u16) -> Option<AnsiColor> {
    if code == 30 { Some(AnsiColor::Black) }
    else if code == 31 { Some(AnsiColor::Red) }
    else if code == 32 { Some(AnsiColor::Green) }
    else if code == 33 { Some(AnsiColor::Yellow) }
    else if code == 34 { Some(AnsiColor::Blue) }
    else if code == 35 { Some(AnsiColor::Magenta) }
    else if code == 36 { Some(AnsiColor::Cyan) }
    else if code == 37 { Some(AnsiColor::White) }
    else if code == 90 { Some(AnsiColor::BrightBlack) }
    else if code == 91 { Some(AnsiColor::BrightRed) }
    else if code == 92 { Some(AnsiColor::BrightGreen) }
    else if code == 93 { Some(AnsiColor::BrightYellow) }
    else if code == 94 { Some(AnsiColor::BrightBlue) }
    else if code == 95 { Some(AnsiColor::BrightMagenta) }
    else if code == 96 { Some(AnsiColor::BrightCyan) }
    else if code == 97 { Some(AnsiColor::BrightWhite) }
    else { None }
}

/// What one code does to the role: 0 resets, 1 and 22 turn bold on and off,
/// 39 drops the colour, the sixteen colour codes set one; the rest are
/// ignored.
pub open spec fn apply_code(role: Role, code: u16) -> Role {
    if code == 0 {
        Role { color: None, bold: false, ..role }
    } else if code == 1 {
        Role { bold: true, ..role }
    } else if code == 22 {
        Role { bold: false, ..role }
    } else if code == 39 {
        Role { color: None, ..role }
    } else if code_color(code) is Some {
        Role { color: code_color(code), ..role }
    } else {
        role
    }
}

/// `s` split at each `sep`.
pub open spec fn split_at_char(s: Seq<char>, sep: char) -> Seq<Seq<char>>
    decreases s.len(),
{
    if s.len() == 0 {
        seq![Seq::<char>::empty()]
    } else {
        let rest = split_at_char(s.drop_last(), sep);
        if s.last() == sep {
            rest.push(Seq::<char>::empty())
        } else {
            rest.update(rest.len() - 1, rest.last().push(s.last()))
        }
    }
}

/// What `str::parse::<u16>` accepts.
pub open spec fn parse_u16_spec(s: Seq<char>) -> Option<u16> {
    let d = if s.len() > 0 && s[0] == '+' { s.drop_first() } else { s };
    if d.len() > 0 && all_digits(d) && digits_value(d) <= 0xFFFF {
        Some(digits_value(d) as u16)
    } else {
        None
    }
}

/// The codes of an SGR body: an empty body is a reset; parts that are not
/// numbers are skipped.
pub open spec fn sgr_codes(body: Seq<char>) -> Seq<u16> {
    if body.len() == 0 {
        seq![0u16]
    } else {
        numbers_in(split_at_char(body, ';'))
    }
}

pub open spec fn numbers_in(parts: Seq<Seq<char>>) -> Seq<u16>
    decreases parts.len(),
{
    if parts.len() == 0 {
        Seq::empty()
    } else {
        numbers_in(parts.drop_last()) + match parse_u16_spec(parts.last()) {
            Some(n) => seq![n],
            None => Seq::empty(),
        }
    }
}

pub open spec fn apply_codes(role: Role, codes: Seq<u16>) -> Role
    decreases codes.len(),
{
    if codes.len() == 0 {
        role
    } else {
        apply_code(apply_codes(role, codes.drop_last()), codes.last())
    }
}

// ---------------------------------------------------------------------------
// The decoder
// ---------------------------------------------------------------------------

pub enum DecodeState {
    Ground,
    Esc,
    Csi(Seq<char>),
    Osc,
    OscEsc,
}

pub struct DecoderModel {
    pub role: Role,
    pub state: DecodeState,
    /// Text of the current role not yet made a segment.
    pub text: Seq<char>,
    pub segments: Seq<(Seq<char>, Role)>,
}

impl DecoderModel {
    /// The pending text made a segment, when there is any.
    pub open spec fn flushed(self) -> DecoderModel {
        if self.text.len() == 0 {
            self
        } else {
            DecoderModel { text: Seq::empty(), segments: self.segments.push((self.text, self.role)), ..self }
        }
    }

    /// One character: text in the ground state; an escape starts a sequence;
    /// a CSI sequence ends at a final byte and applies its body when that is
    /// `m`; an OSC sequence ends at BEL or an escape and the character after.
    pub open spec fn step(self, ch: char) -> DecoderModel {
        match self.state {
            DecodeState::Ground => if ch == '\x1b' {
                DecoderModel { state: DecodeState::Esc, ..self.flushed() }
            } else {
                DecoderModel { text: self.text.push(ch), ..self }
            },
            DecodeState::Esc => if ch == '[' {
                DecoderModel { state: DecodeState::Csi(Seq::empty()), ..self }
            } else if ch == ']' {
                DecoderModel { state: DecodeState::Osc, ..self }
            } else {
                DecoderModel { state: DecodeState::Ground, ..self }
            },
            DecodeState::Csi(body) => if '@' <= ch && ch <= '~' {
                DecoderModel {
                    state: DecodeState::Ground,
                    role: if ch == 'm' { apply_codes(self.role, sgr_codes(body)) } else { self.role },
                    ..self
                }
            } else {
                DecoderModel { state: DecodeState::Csi(body.push(ch)), ..self }
            },
            DecodeState::Osc => if ch == '\x07' {
                DecoderModel { state: DecodeState::Ground, ..self }
            } else if ch == '\x1b' {
                DecoderModel { state: DecodeState::OscEsc, ..self }
            } else {
                self
            },
            DecodeState::OscEsc => DecoderModel { state: DecodeState::Ground, ..self },
        }
    }

    pub open spec fn steps(self, chars: Seq<char>) -> DecoderModel
        decreases chars.len(),
    {
        if chars.len() == 0 {
            self
        } else {
            self.steps(chars.drop_last()).step(chars.last())
        }
    }
}

enum State {
    Ground,
    Esc,
    Csi(Vec<char>),
    Osc,
    OscEsc,
}

/// Turns a stream's bytes into segments: text with the colour and weight SGR
/// escapes gave it, every other escape sequence dropped.
pub struct AnsiDecoder {
    role: Role,
    state: State,
    text: Vec<char>,
    segments: Vec<Segment>,
}

impl View for AnsiDecoder {
    type V = DecoderModel;

    closed spec fn view(&self) -> DecoderModel {
        DecoderModel {
            role: self.role,
            state: match self.state {
                State::Ground => DecodeState::Ground,
                State::Esc => DecodeState::Esc,
                State::Csi(body) => DecodeState::Csi(body@),
                State::Osc => DecodeState::Osc,
                State::OscEsc => DecodeState::OscEsc,
            },
            text: self.text@,
            segments: self.segments@.map_values(|s: Segment| segment_model(s)),
        }
    }
}

/// Splitting always gives at least one piece.
pub proof fn lemma_split_nonempty(s: Seq<char>, sep: char)
    ensures
        split_at_char(s, sep).len() >= 1,
    decreases s.len(),
{
    if s.len() > 0 {
        lemma_split_nonempty(s.drop_last(), sep);
    }
}

pub(crate) fn split_chars(v: &[char], sep: char) -> (r: Vec<Vec<char>>)
    ensures
        r@.map_values(|p: Vec<char>| p@) == split_at_char(v@, sep),
{
    let mut done: Vec<Vec<char>> = Vec::new();
    let mut current: Vec<char> = Vec::new();
    let mut k: usize = 0;
    proof {
        assert(v@.take(0) =~= Seq::<char>::empty());
        assert(done@.map_values(|p: Vec<char>| p@).push(current@) =~= split_at_char(v@.take(0), sep));
    }
    while k < v.len()
        invariant
            k <= v@.len(),
            done@.map_values(|p: Vec<char>| p@).push(current@) == split_at_char(v@.take(k as int), sep),
        decreases v@.len() - k,
    {
        let c = v[k];
        let ghost before = done@.map_values(|p: Vec<char>| p@).push(current@);
        proof {
            assert(v@.take(k + 1).drop_last() =~= v@.take(k as int));
            assert(v@.take(k + 1).last() == c);
        }
        if c == sep {
            let mut piece: Vec<char> = Vec::new();
            std::mem::swap(&mut piece, &mut current);
            done.push(piece);
            assert(done@.map_values(|p: Vec<char>| p@).push(current@) =~= before.push(Seq::<char>::empty()));
        } else {
            current.push(c);
            assert(done@.map_values(|p: Vec<char>| p@).push(current@) =~= before.update(
                before.len() - 1,
                before.last().push(c),
            ));
        }
        k = k + 1;
    }
    done.push(current);
    proof {
        assert(v@.take(k as int) =~= v@);
        assert(done@.map_values(|p: Vec<char>| p@) =~= split_at_char(v@, sep));
    }
    done
}

fn parse_u16(v: &[char]) -> (r: Option<u16>)
    ensures
        r == parse_u16_spec(v@),
{
    let start: usize = if v.len() > 0 && v[0] == '+' { 1 } else { 0 };
    let ghost d = v@.skip(start as int);
    assert(d =~= if v@.len() > 0 && v@[0] == '+' { v@.drop_first() } else { v@ });
    if start >= v.len() {
        assert(d.len() == 0);
        return None;
    }
    let mut value: u32 = 0;
    let mut i = start;
    while i < v.len()
        invariant
            start <= i <= v@.len(),
            start < v@.len(),
            d == v@.skip(start as int),
            d == (if v@.len() > 0 && v@[0] == '+' { v@.drop_first() } else { v@ }),
            value == digits_value(d.take(i - start)),
            value <= 0xFFFF,
            all_digits(d.take(i - start)),
        decreases v@.len() - i,
    {
        let c = v[i];
        if c < '0' || c > '9' {
            assert(d[i - start] == c);
            assert(!is_digit(d[i - start]));
            assert(!all_digits(d));
            return None;
        }
        let digit = c as u32 - '0' as u32;
        proof {
            let t = d.take(i - start + 1);
            assert(t.drop_last() =~= d.take(i - start));
            assert(t.last() == c);
            assert(all_digits(t)) by {
                assert forall|j: int| 0 <= j < t.len() implies #[trigger] is_digit(t[j]) by {
                    if j < t.len() - 1 {
                        assert(t[j] == d.take(i - start)[j]);
                    }
                }
            }
        }
        value = value * 10 + digit;
        i = i + 1;
        if value > 0xFFFF {
            proof {
                if all_digits(d) {
                    lemma_digits_monotone(d, (i - start) as int);
                }
                assert(parse_u16_spec(v@) is None);
            }
            return None;
        }
    }
    assert(d.take(i - start) =~= d);
    Some(value as u16)
}

fn code_color_exec(code: u16) -> (c: Option<AnsiColor>)
    ensures
        c == code_color(code),
{
    match code {
        30 => Some(AnsiColor::Black),
        31 => Some(AnsiColor::Red),
        32 => Some(AnsiColor::Green),
        33 => Some(AnsiColor::Yellow),
        34 => Some(AnsiColor::Blue),
        35 => Some(AnsiColor::Magenta),
        36 => Some(AnsiColor::Cyan),
        37 => Some(AnsiColor::White),
        90 => Some(AnsiColor::BrightBlack),
        91 => Some(AnsiColor::BrightRed),
        92 => Some(AnsiColor::BrightGreen),
        93 => Some(AnsiColor::BrightYellow),
        94 => Some(AnsiColor::BrightBlue),
        95 => Some(AnsiColor::BrightMagenta),
        96 => Some(AnsiColor::BrightCyan),
        97 => Some(AnsiColor::BrightWhite),
        _ => None,
    }
}

fn apply_code_exec(role: Role, code: u16) -> (r: Role)
    ensures
        r == apply_code(role, code),
{
    if code == 0 {
        Role { color: None, bold: false, ..role }
    } else if code == 1 {
        Role { bold: true, ..role }
    } else if code == 22 {
        Role { bold: false, ..role }
    } else if code == 39 {
        Role { color: None, ..role }
    } else {
        match code_color_exec(code) {
            Some(c) => Role { color: Some(c), ..role },
            None => role,
        }
    }
}

/// The role after an SGR sequence with body `body`.
fn apply_sgr(role: Role, body: &Vec<char>) -> (r: Role)
    ensures
        r == apply_codes(role, sgr_codes(body@)),
{
    if body.len() == 0 {
        proof {
            assert(sgr_codes(body@) == seq![0u16]);
            assert(seq![0u16].drop_last() =~= Seq::<u16>::empty());
            assert(apply_codes(role, seq![0u16]) == apply_code(apply_codes(role, Seq::<u16>::empty()), 0u16));
        }
        return apply_code_exec(role, 0);
    }
    let parts = split_chars(body.as_slice(), ';');
    let ghost ps = parts@.map_values(|p: Vec<char>| p@);
    let mut role = role;
    let ghost start = role;
    let ghost codes: Seq<u16> = Seq::empty();
    let mut k: usize = 0;
    while k < parts.len()
        invariant
            k <= parts@.len(),
            ps == parts@.map_values(|p: Vec<char>| p@),
            ps == split_at_char(body@, ';'),
            codes == numbers_in(ps.take(k as int)),
            role == apply_codes(start, codes),
        decreases parts@.len() - k,
    {
        let n = parse_u16(parts[k].as_slice());
        proof {
            assert(ps.take(k + 1).drop_last() =~= ps.take(k as int));
            assert(ps.take(k + 1).last() == parts@[k as int]@);
        }
        match n {
            Some(code) => {
                role = apply_code_exec(role, code);
                proof {
                    let next = codes.push(code);
                    assert(next.drop_last() =~= codes);
                    assert(next =~= codes + seq![code]);
                    codes = next;
                }
            },
            None => {
                proof {
                    assert(codes =~= codes + Seq::<u16>::empty());
                }
            },
        }
        k = k + 1;
    }
    proof {
        assert(ps.take(k as int) =~= ps);
    }
    role
}

impl AnsiDecoder {
    pub fn new(stream: Stream) -> (d: AnsiDecoder)
        ensures
            d@ == (DecoderModel {
                role: Role { stream, color: None, bold: false },
                state: DecodeState::Ground,
                text: Seq::empty(),
                segments: Seq::empty(),
            }),
    {
        let d = AnsiDecoder {
            role: Role { stream, color: None, bold: false },
            state: State::Ground,
            text: Vec::new(),
            segments: Vec::new(),
        };
        assert(d@.segments =~= Seq::<(Seq<char>, Role)>::empty());
        d
    }

    fn flush_text(&mut self)
        ensures
            final(self)@ == old(self)@.flushed(),
    {
        if self.text.len() == 0 {
            return;
        }
        let mut text: Vec<char> = Vec::new();
        std::mem::swap(&mut text, &mut self.text);
        let ghost before = self.segments@.map_values(|s: Segment| segment_model(s));
        let seg = Segment { text: string_of(text.as_slice()), role: self.role };
        self.segments.push(seg);
        assert(self.segments@.map_values(|s: Segment| segment_model(s)) =~= before.push((text@, self.role)));
        assert(self@.text =~= Seq::<char>::empty());
    }

    fn step(&mut self, ch: char)
        ensures
            final(self)@ == old(self)@.step(ch),
    {
        let mut state = State::Ground;
        std::mem::swap(&mut state, &mut self.state);
        match state {
            State::Ground => {
                if ch == '\x1b' {
                    self.flush_text();
                    self.state = State::Esc;
                } else {
                    self.text.push(ch);
                }
            },
            State::Esc => {
                if ch == '[' {
                    self.state = State::Csi(Vec::new());
                } else if ch == ']' {
                    self.state = State::Osc;
                }
            },
            State::Csi(mut body) => {
                if '@' <= ch && ch <= '~' {
                    if ch == 'm' {
                        self.role = apply_sgr(self.role, &body);
                    }
                } else {
                    body.push(ch);
                    self.state = State::Csi(body);
                }
            },
            State::Osc => {
                if ch == '\x1b' {
                    self.state = State::OscEsc;
                } else if ch != '\x07' {
                    self.state = State::Osc;
                }
            },
            State::OscEsc => {},
        }
    }

    /// Decodes the next bytes (invalid UTF-8 replaced) and hands back the
    /// segments they finished.
    pub fn push(&mut self, bytes: &[u8]) -> (out: Vec<Segment>)
        ensures
            ({
                let all = old(self)@.steps(lossy_text(bytes@));
                &&& out@.map_values(|s: Segment| segment_model(s)) == all.segments
                &&& final(self)@ == (DecoderModel { segments: Seq::empty(), ..all })
            }),
    {
        let text = from_utf8_lossy(bytes);
        let chars = chars_of(text.as_str());
        let ghost start = self@;
        let mut i: usize = 0;
        assert(chars@.take(0) =~= Seq::<char>::empty());
        while i < chars.len()
            invariant
                i <= chars@.len(),
                chars@ == lossy_text(bytes@),
                self@ == start.steps(chars@.take(i as int)),
            decreases chars@.len() - i,
        {
            self.step(chars[i]);
            proof {
                assert(chars@.take(i + 1).drop_last() =~= chars@.take(i as int));
            }
            i = i + 1;
        }
        assert(chars@.take(i as int) =~= chars@);
        let mut out: Vec<Segment> = Vec::new();
        std::mem::swap(&mut out, &mut self.segments);
        assert(self@.segments =~= Seq::<(Seq<char>, Role)>::empty());
        out
    }

    /// The text still pending, as a last segment.
    pub fn finish(&mut self) -> (out: Vec<Segment>)
        ensures
            out@.map_values(|s: Segment| segment_model(s)) == old(self)@.flushed().segments,
            final(self)@ == (DecoderModel { segments: Seq::empty(), ..old(self)@.flushed() }),
    {
        self.flush_text();
        let mut out: Vec<Segment> = Vec::new();
        std::mem::swap(&mut out, &mut self.segments);
        assert(self@.segments =~= Seq::<(Seq<char>, Role)>::empty());
        out
    }
}

} // verus!
