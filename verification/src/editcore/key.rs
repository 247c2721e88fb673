//! Neovim's key notation.
//!
//! `nvim_input` takes a string, not a key event: `"ihello<Esc>"` is five
//! keystrokes and one of them is named. An unterminated or unrecognised `<` is
//! a literal less-than sign.

use vstd::prelude::*;
use crate::text::{
    ascii_lower, ascii_upper, chars_of, is_control, spec_ascii_lower, spec_ascii_upper,
    spec_is_control,
};

verus! {

#[derive(Clone, Copy, PartialEq, Eq, Debug, Structural)]
pub enum Named {
    Esc,
    Enter,
    Tab,
    Backspace,
    Delete,
    Up,
    Down,
    Left,
    Right,
    Home,
    End,
    PageUp,
    PageDown,
    Insert,
    F(u8),
}

#[derive(Clone, Copy, PartialEq, Eq, Debug, Structural)]
pub enum Code {
    Char(char),
    Named(Named),
}

#[derive(Clone, Copy, PartialEq, Eq, Debug, Structural)]
pub struct Key {
    pub code: Code,
    pub ctrl: bool,
    pub alt: bool,
}

pub open spec fn plain(ch: char) -> Key {
    Key { code: Code::Char(ch), ctrl: false, alt: false }
}

impl Key {
    pub fn char(ch: char) -> (k: Key)
        ensures
            k == plain(ch),
    {
        Key { code: Code::Char(ch), ctrl: false, alt: false }
    }

    pub fn ctrl(ch: char) -> (k: Key)
        ensures
            k == (Key { code: Code::Char(ch), ctrl: true, alt: false }),
    {
        Key { code: Code::Char(ch), ctrl: true, alt: false }
    }

    pub fn named(named: Named) -> (k: Key)
        ensures
            k == (Key { code: Code::Named(named), ctrl: false, alt: false }),
    {
        Key { code: Code::Named(named), ctrl: false, alt: false }
    }

    /// The text this key inserts: a plain character that is not a control
    /// character. Named keys and anything with a modifier insert nothing.
    pub open spec fn spec_as_text(self) -> Option<char> {
        match self.code {
            Code::Char(ch) => if !self.ctrl && !self.alt && !spec_is_control(ch) {
                Some(ch)
            } else {
                None
            },
            Code::Named(_) => None,
        }
    }

    pub fn as_text(self) -> (r: Option<char>)
        ensures
            r == self.spec_as_text(),
    {
        match self.code {
            Code::Char(ch) => if !self.ctrl && !self.alt && !is_control(ch) {
                Some(ch)
            } else {
                None
            },
            Code::Named(_) => None,
        }
    }
}

// ---------------------------------------------------------------------------
// Specification of the notation
// ---------------------------------------------------------------------------

pub open spec fn lower(s: Seq<char>) -> Seq<char> {
    s.map_values(|c: char| spec_ascii_lower(c))
}

pub open spec fn upper(s: Seq<char>) -> Seq<char> {
    s.map_values(|c: char| spec_ascii_upper(c))
}

/// The index of the first `c` in `s`, or -1.
pub open spec fn find_char(s: Seq<char>, c: char) -> int
    decreases s.len(),
{
    if s.len() == 0 {
        -1
    } else if s[0] == c {
        0
    } else {
        let r = find_char(s.drop_first(), c);
        if r < 0 {
            -1
        } else {
            r + 1
        }
    }
}

pub open spec fn is_digit(c: char) -> bool {
    '0' <= c && c <= '9'
}

pub open spec fn all_digits(s: Seq<char>) -> bool {
    forall|i: int| 0 <= i < s.len() ==> #[trigger] is_digit(s[i])
}

pub open spec fn digits_value(s: Seq<char>) -> nat
    decreases s.len(),
{
    if s.len() == 0 {
        0
    } else {
        digits_value(s.drop_last()) * 10 + ((s.last() as int - '0' as int) as nat)
    }
}

/// What `str::parse::<u8>` accepts: an optional `+`, then one or more ASCII
/// digits whose value fits in a byte.
pub open spec fn parse_u8_spec(s: Seq<char>) -> Option<u8> {
    let d = if s.len() > 0 && s[0] == '+' {
        s.drop_first()
    } else {
        s
    };
    if d.len() > 0 && all_digits(d) && digits_value(d) <= 255 {
        Some(digits_value(d) as u8)
    } else {
        None
    }
}

/// A key name, case-insensitively.
pub open spec fn named_spec(name: Seq<char>) -> Option<Named> {
    let l = lower(name);
    let number = parse_u8_spec(l.drop_first());
    if l.len() >= 1 && l[0] == 'f' && number is Some && 1 <= number->0 <= 12 {
        Some(Named::F(number->0))
    } else if l == "esc"@ {
        Some(Named::Esc)
    } else if l == "cr"@ || l == "enter"@ || l == "return"@ {
        Some(Named::Enter)
    } else if l == "tab"@ {
        Some(Named::Tab)
    } else if l == "bs"@ {
        Some(Named::Backspace)
    } else if l == "del"@ {
        Some(Named::Delete)
    } else if l == "up"@ {
        Some(Named::Up)
    } else if l == "down"@ {
        Some(Named::Down)
    } else if l == "left"@ {
        Some(Named::Left)
    } else if l == "right"@ {
        Some(Named::Right)
    } else if l == "home"@ {
        Some(Named::Home)
    } else if l == "end"@ {
        Some(Named::End)
    } else if l == "pageup"@ {
        Some(Named::PageUp)
    } else if l == "pagedown"@ {
        Some(Named::PageDown)
    } else if l == "insert"@ {
        Some(Named::Insert)
    } else {
        None
    }
}

/// Each key name stands for its own key: two names give the same key only
/// when they are the same name up to letter case, two spellings of Enter
/// (`CR`, `Enter`, `Return`), or two spellings of one function key number.
pub proof fn law_key_names_are_distinct(a: Seq<char>, b: Seq<char>)
    requires
        named_spec(a) is Some,
        named_spec(a) == named_spec(b),
    ensures
        lower(a) == lower(b) || named_spec(a) == Some(Named::Enter) || named_spec(a) matches Some(Named::F(_)),
        named_spec(a) == Some(Named::Enter) ==> (lower(a) == "cr"@ || lower(a) == "enter"@ || lower(a) == "return"@),
        (named_spec(a) matches Some(Named::F(_))) ==> lower(a).len() >= 1 && lower(a)[0] == 'f',
{
}

/// The names of the keys, in any letter case: `Esc`, `CR`/`Enter`/`Return`,
/// `Tab`, `BS` (Backspace), `Del` (Delete), the arrows, `Home`, `End`,
/// `PageUp`, `PageDown`, `Insert`.
pub proof fn law_key_names(s: Seq<char>)
    ensures
        lower(s) == "esc"@ ==> named_spec(s) == Some(Named::Esc),
        lower(s) == "cr"@ || lower(s) == "enter"@ || lower(s) == "return"@ ==> named_spec(s) == Some(Named::Enter),
        lower(s) == "tab"@ ==> named_spec(s) == Some(Named::Tab),
        lower(s) == "bs"@ ==> named_spec(s) == Some(Named::Backspace),
        lower(s) == "del"@ ==> named_spec(s) == Some(Named::Delete),
        lower(s) == "up"@ ==> named_spec(s) == Some(Named::Up),
        lower(s) == "down"@ ==> named_spec(s) == Some(Named::Down),
        lower(s) == "left"@ ==> named_spec(s) == Some(Named::Left),
        lower(s) == "right"@ ==> named_spec(s) == Some(Named::Right),
        lower(s) == "home"@ ==> named_spec(s) == Some(Named::Home),
        lower(s) == "end"@ ==> named_spec(s) == Some(Named::End),
        lower(s) == "pageup"@ ==> named_spec(s) == Some(Named::PageUp),
        lower(s) == "pagedown"@ ==> named_spec(s) == Some(Named::PageDown),
        lower(s) == "insert"@ ==> named_spec(s) == Some(Named::Insert),
{
    let l = lower(s);
    reveal_strlit("esc");
    reveal_strlit("cr");
    reveal_strlit("enter");
    reveal_strlit("return");
    reveal_strlit("tab");
    reveal_strlit("bs");
    reveal_strlit("del");
    reveal_strlit("up");
    reveal_strlit("down");
    reveal_strlit("left");
    reveal_strlit("right");
    reveal_strlit("home");
    reveal_strlit("end");
    reveal_strlit("pageup");
    reveal_strlit("pagedown");
    reveal_strlit("insert");
    if l.len() >= 1 && l[0] == 'f' {
        assert(l != "esc"@ && l != "cr"@ && l != "enter"@ && l != "return"@ && l != "tab"@ && l != "bs"@);
        assert(l != "del"@ && l != "up"@ && l != "down"@ && l != "left"@ && l != "right"@ && l != "home"@);
        assert(l != "end"@ && l != "pageup"@ && l != "pagedown"@ && l != "insert"@);
    }
}

pub proof fn lemma_find_char_bound(s: Seq<char>, c: char)
    ensures
        -1 <= find_char(s, c) < s.len(),
        find_char(s, c) >= 0 ==> s[find_char(s, c)] == c,
        find_char(s, c) >= 0 ==> forall|j: int| 0 <= j < find_char(s, c) ==> s[j] != c,
        find_char(s, c) < 0 ==> forall|j: int| 0 <= j < s.len() ==> s[j] != c,
    decreases s.len(),
{
    if s.len() > 0 && s[0] != c {
        lemma_find_char_bound(s.drop_first(), c);
        assert forall|j: int| 0 < j < s.len() implies s[j] == s.drop_first()[j - 1] by {}
    }
}

/// The modifier prefixes `C-`, `M-`/`A-` and `S-` (any case) in front of a
/// key: the flags they set, and what follows them.
pub open spec fn modifiers(body: Seq<char>, ctrl: bool, alt: bool, shift: bool) -> (
    bool,
    bool,
    bool,
    Seq<char>,
)
    decreases body.len(),
{
    let i = find_char(body, '-');
    if i < 0 || i >= body.len() {
        (ctrl, alt, shift, body)
    } else {
        let p = upper(body.take(i));
        if p == "C"@ {
            modifiers(body.skip(i + 1), true, alt, shift)
        } else if p == "M"@ || p == "A"@ {
            modifiers(body.skip(i + 1), ctrl, true, shift)
        } else if p == "S"@ {
            modifiers(body.skip(i + 1), ctrl, alt, true)
        } else {
            (ctrl, alt, shift, body)
        }
    }
}

/// What one `<...>` body stands for.
pub open spec fn bracketed_spec(body: Seq<char>) -> Option<Key> {
    let l = lower(body);
    if l == "lt"@ {
        Some(plain('<'))
    } else if l == "gt"@ {
        Some(plain('>'))
    } else if l == "bslash"@ {
        Some(plain('\\'))
    } else if l == "bar"@ {
        Some(plain('|'))
    } else if l == "space"@ {
        Some(plain(' '))
    } else if l == "nul"@ {
        Some(plain('\0'))
    } else {
        let (ctrl, alt, shift, rest) = modifiers(body, false, false, false);
        match named_spec(rest) {
            Some(n) => Some(Key { code: Code::Named(n), ctrl, alt }),
            None => if lower(rest) == "space"@ {
                Some(Key { code: Code::Char(' '), ctrl, alt })
            } else if rest.len() == 1 {
                let ch = if shift {
                    spec_ascii_upper(rest[0])
                } else if ctrl {
                    spec_ascii_lower(rest[0])
                } else {
                    rest[0]
                };
                Some(Key { code: Code::Char(ch), ctrl, alt })
            } else {
                None
            },
        }
    }
}

/// The keys a `nvim_input` string stands for.
pub open spec fn parse_spec(s: Seq<char>) -> Seq<Key>
    decreases s.len(),
{
    if s.len() == 0 {
        Seq::empty()
    } else {
        let close = find_char(s.drop_first(), '>');
        if s[0] == '<' && 0 <= close < s.len() - 1 && bracketed_spec(s.subrange(1, close + 1)) is Some {
            seq![bracketed_spec(s.subrange(1, close + 1))->0] + parse_spec(s.skip(close + 2))
        } else {
            seq![plain(s[0])] + parse_spec(s.drop_first())
        }
    }
}

proof fn lemma_key_name_is_no_special(n: Seq<char>)
    requires
        named_spec(n) is Some,
    ensures
        lower(n) != "lt"@ && lower(n) != "gt"@ && lower(n) != "bslash"@ && lower(n) != "bar"@ && lower(n)
            != "space"@ && lower(n) != "nul"@,
{
    reveal_strlit("lt");
    reveal_strlit("gt");
    reveal_strlit("bslash");
    reveal_strlit("bar");
    reveal_strlit("space");
    reveal_strlit("nul");
    reveal_strlit("esc");
    reveal_strlit("cr");
    reveal_strlit("enter");
    reveal_strlit("return");
    reveal_strlit("tab");
    reveal_strlit("bs");
    reveal_strlit("del");
    reveal_strlit("up");
    reveal_strlit("down");
    reveal_strlit("left");
    reveal_strlit("right");
    reveal_strlit("home");
    reveal_strlit("end");
    reveal_strlit("pageup");
    reveal_strlit("pagedown");
    reveal_strlit("insert");
}

proof fn lemma_bracketed_input(n: Seq<char>)
    requires
        forall|i: int| 0 <= i < n.len() ==> n[i] != '>',
    ensures
        ({
            let s = seq!['<'] + n + seq!['>'];
            bracketed_spec(n) is Some ==> parse_spec(s) == seq![bracketed_spec(n)->0]
        }),
{
    let s = seq!['<'] + n + seq!['>'];
    let t = s.drop_first();
    assert(t =~= n + seq!['>']);
    lemma_find_char_bound(t, '>');
    assert(t[n.len() as int] == '>');
    if find_char(t, '>') < n.len() {
        assert(t[find_char(t, '>')] == n[find_char(t, '>')]);
    }
    assert(find_char(t, '>') == n.len());
    assert(s.subrange(1, n.len() as int + 1) =~= n);
    assert(s.skip(n.len() as int + 2) =~= Seq::<char>::empty());
    assert(parse_spec(Seq::<char>::empty()) =~= Seq::<Key>::empty());
}

/// A key name in angle brackets is that key, unmodified: `<Del>` is the
/// Delete key, `<BS>` Backspace, `<Esc>` Escape, in any letter case.
pub proof fn law_a_bracketed_name_is_its_key(n: Seq<char>)
    requires
        named_spec(n) is Some,
        forall|i: int| 0 <= i < n.len() ==> n[i] != '>' && n[i] != '-',
    ensures
        parse_spec(seq!['<'] + n + seq!['>']) == seq![Key { code: Code::Named(named_spec(n)->0), ctrl: false, alt: false }],
{
    lemma_key_name_is_no_special(n);
    lemma_find_char_bound(n, '-');
    lemma_bracketed_input(n);
}

/// `<C-` name `>` is that key with Control held.
pub proof fn law_a_control_name_is_its_key_with_control(c: char, n: Seq<char>)
    requires
        c == 'c' || c == 'C',
        named_spec(n) is Some,
        forall|i: int| 0 <= i < n.len() ==> n[i] != '>' && n[i] != '-',
    ensures
        parse_spec(seq!['<', c, '-'] + n + seq!['>']) == seq![Key { code: Code::Named(named_spec(n)->0), ctrl: true, alt: false }],
{
    let body = seq![c, '-'] + n;
    assert(seq!['<', c, '-'] + n + seq!['>'] =~= seq!['<'] + body + seq!['>']);
    assert forall|i: int| 0 <= i < body.len() implies body[i] != '>' by {
        if i >= 2 {
            assert(body[i] == n[i - 2]);
        }
    }
    lemma_find_char_bound(body, '-');
    assert(body[1] == '-');
    assert(find_char(body, '-') == 1) by {
        assert(body[0] != '-');
        assert(body.drop_first()[0] == '-');
    }
    reveal_strlit("C");
    assert(upper(body.take(1)) =~= "C"@);
    assert(body.skip(2) =~= n);
    lemma_find_char_bound(n, '-');
    assert(modifiers(n, true, false, false) == (true, false, false, n));
    assert(modifiers(body, false, false, false) == (true, false, false, n));
    // The whole body is no special name: it holds a `-`.
    reveal_strlit("lt");
    reveal_strlit("gt");
    reveal_strlit("bslash");
    reveal_strlit("bar");
    reveal_strlit("space");
    reveal_strlit("nul");
    assert(lower(body)[1] == '-');
    lemma_bracketed_input(body);
}

/// `<M-` or `<A-` name `>` is that key with Alt (Meta) held.
pub proof fn law_an_alt_name_is_its_key_with_alt(c: char, n: Seq<char>)
    requires
        c == 'm' || c == 'M' || c == 'a' || c == 'A',
        named_spec(n) is Some,
        forall|i: int| 0 <= i < n.len() ==> n[i] != '>' && n[i] != '-',
    ensures
        parse_spec(seq!['<', c, '-'] + n + seq!['>']) == seq![Key { code: Code::Named(named_spec(n)->0), ctrl: false, alt: true }],
{
    let body = seq![c, '-'] + n;
    assert(seq!['<', c, '-'] + n + seq!['>'] =~= seq!['<'] + body + seq!['>']);
    assert forall|i: int| 0 <= i < body.len() implies body[i] != '>' by {
        if i >= 2 {
            assert(body[i] == n[i - 2]);
        }
    }
    lemma_find_char_bound(body, '-');
    assert(body[1] == '-');
    assert(find_char(body, '-') == 1) by {
        assert(body[0] != '-');
        assert(body.drop_first()[0] == '-');
    }
    reveal_strlit("C");
    reveal_strlit("M");
    reveal_strlit("A");
    if c == 'm' || c == 'M' {
        assert(upper(body.take(1)) =~= "M"@);
    } else {
        assert(upper(body.take(1)) =~= "A"@);
    }
    assert("C"@[0] == 'C' && "M"@[0] == 'M' && "A"@[0] == 'A');
    assert(upper(body.take(1)) != "C"@) by {
        assert(upper(body.take(1))[0] != 'C');
    }
    assert(body.skip(2) =~= n);
    lemma_find_char_bound(n, '-');
    assert(modifiers(n, false, true, false) == (false, true, false, n));
    assert(modifiers(body, false, false, false) == (false, true, false, n));
    reveal_strlit("lt");
    reveal_strlit("gt");
    reveal_strlit("bslash");
    reveal_strlit("bar");
    reveal_strlit("space");
    reveal_strlit("nul");
    assert(lower(body)[1] == '-');
    lemma_bracketed_input(body);
}

/// Text without a `<` is one plain key per character.
pub proof fn law_plain_text_is_one_key_per_char(s: Seq<char>)
    requires
        forall|i: int| 0 <= i < s.len() ==> s[i] != '<',
    ensures
        parse_spec(s) == s.map_values(|c: char| plain(c)),
    decreases s.len(),
{
    if s.len() > 0 {
        law_plain_text_is_one_key_per_char(s.drop_first());
        assert(parse_spec(s) =~= s.map_values(|c: char| plain(c)));
    }
}

// ---------------------------------------------------------------------------
// Executable parsing
// ---------------------------------------------------------------------------

pub(crate) fn lower_vec(v: &[char]) -> (r: Vec<char>)
    ensures
        r@ == lower(v@),
{
    let mut r: Vec<char> = Vec::new();
    let mut i: usize = 0;
    while i < v.len()
        invariant
            i <= v@.len(),
            r@ == lower(v@.take(i as int)),
        decreases v@.len() - i,
    {
        r.push(ascii_lower(v[i]));
        i = i + 1;
        assert(r@ =~= lower(v@.take(i as int)));
    }
    assert(v@.take(v@.len() as int) =~= v@);
    r
}

fn upper_vec(v: &[char]) -> (r: Vec<char>)
    ensures
        r@ == upper(v@),
{
    let mut r: Vec<char> = Vec::new();
    let mut i: usize = 0;
    while i < v.len()
        invariant
            i <= v@.len(),
            r@ == upper(v@.take(i as int)),
        decreases v@.len() - i,
    {
        r.push(ascii_upper(v[i]));
        i = i + 1;
        assert(r@ =~= upper(v@.take(i as int)));
    }
    assert(v@.take(v@.len() as int) =~= v@);
    r
}

/// Whether `v` holds exactly the characters of `w`.
pub fn same_chars(v: &[char], w: &[char]) -> (r: bool)
    ensures
        r == (v@ == w@),
{
    if v.len() != w.len() {
        return false;
    }
    let mut i: usize = 0;
    while i < v.len()
        invariant
            v@.len() == w@.len(),
            i <= v@.len(),
            forall|j: int| 0 <= j < i ==> v@[j] == w@[j],
        decreases v@.len() - i,
    {
        if v[i] != w[i] {
            return false;
        }
        i = i + 1;
    }
    assert(v@ =~= w@);
    true
}

fn is_word(v: &Vec<char>, w: &str) -> (r: bool)
    ensures
        r == (v@ == w@),
{
    let w = chars_of(w);
    same_chars(v.as_slice(), w.as_slice())
}

pub proof fn lemma_digits_monotone(s: Seq<char>, k: int)
    requires
        0 <= k <= s.len(),
        all_digits(s),
    ensures
        digits_value(s.take(k)) <= digits_value(s),
    decreases s.len(),
{
    if k < s.len() {
        assert(s.drop_last().take(k) =~= s.take(k));
        assert(all_digits(s.drop_last())) by {
            assert forall|i: int| 0 <= i < s.drop_last().len() implies #[trigger] is_digit(
                s.drop_last()[i],
            ) by {
                assert(is_digit(s[i]));
            }
        }
        lemma_digits_monotone(s.drop_last(), k);
    } else {
        assert(s.take(k) =~= s);
    }
}

/// `str::parse::<u8>` on `v[start..]`.
fn parse_u8_from(v: &[char], start: usize) -> (r: Option<u8>)
    requires
        start <= v@.len(),
    ensures
        r == parse_u8_spec(v@.skip(start as int)),
{
    let ghost s = v@.skip(start as int);
    let mut i = start;
    if i < v.len() && v[i] == '+' {
        i = i + 1;
    }
    let ghost d = v@.skip(i as int);
    assert(d =~= if s.len() > 0 && s[0] == '+' {
        s.drop_first()
    } else {
        s
    });
    if i >= v.len() {
        return None;
    }
    let first = i;
    let mut value: u32 = 0;
    while i < v.len()
        invariant
            first <= i <= v@.len(),
            first < v@.len(),
            d == v@.skip(first as int),
            s == v@.skip(start as int),
            d == (if s.len() > 0 && s[0] == '+' {
                s.drop_first()
            } else {
                s
            }),
            value == digits_value(d.take(i - first)),
            value <= 255,
            all_digits(d.take(i - first)),
        decreases v@.len() - i,
    {
        let c = v[i];
        if c < '0' || c > '9' {
            assert(!is_digit(d[i - first]));
            assert(!all_digits(d));
            return None;
        }
        let digit = (c as u32) - ('0' as u32);
        proof {
            let t = d.take(i - first + 1);
            assert(t.drop_last() =~= d.take(i - first));
            assert(t.last() == c);
            assert(digits_value(t) == digits_value(d.take(i - first)) * 10 + digit);
            assert(all_digits(t)) by {
                assert forall|j: int| 0 <= j < t.len() implies #[trigger] is_digit(t[j]) by {
                    if j < t.len() - 1 {
                        assert(t[j] == d.take(i - first)[j]);
                    }
                }
            }
        }
        value = value * 10 + digit;
        i = i + 1;
        if value > 255 {
            proof {
                if all_digits(d) {
                    lemma_digits_monotone(d, (i - first) as int);
                }
                assert(parse_u8_spec(s) is None);
            }
            return None;
        }
    }
    proof {
        assert(d.take(i - first) =~= d);
    }
    Some(value as u8)
}

fn named_from(name: &[char]) -> (r: Option<Named>)
    ensures
        r == named_spec(name@),
{
    let l = lower_vec(name);
    if l.len() >= 1 && l[0] == 'f' {
        let n = parse_u8_from(l.as_slice(), 1);
        assert(l@.skip(1) =~= l@.drop_first());
        if let Some(n) = n {
            if 1 <= n && n <= 12 {
                return Some(Named::F(n));
            }
        }
    }
    if is_word(&l, "esc") {
        Some(Named::Esc)
    } else if is_word(&l, "cr") || is_word(&l, "enter")
        || is_word(&l, "return") {
        Some(Named::Enter)
    } else if is_word(&l, "tab") {
        Some(Named::Tab)
    } else if is_word(&l, "bs") {
        Some(Named::Backspace)
    } else if is_word(&l, "del") {
        Some(Named::Delete)
    } else if is_word(&l, "up") {
        Some(Named::Up)
    } else if is_word(&l, "down") {
        Some(Named::Down)
    } else if is_word(&l, "left") {
        Some(Named::Left)
    } else if is_word(&l, "right") {
        Some(Named::Right)
    } else if is_word(&l, "home") {
        Some(Named::Home)
    } else if is_word(&l, "end") {
        Some(Named::End)
    } else if is_word(&l, "pageup") {
        Some(Named::PageUp)
    } else if is_word(&l, "pagedown") {
        Some(Named::PageDown)
    } else if is_word(&l, "insert") {
        Some(Named::Insert)
    } else {
        None
    }
}

fn find_from(v: &[char], start: usize, c: char) -> (r: Option<usize>)
    requires
        start <= v@.len(),
    ensures
        match r {
            Some(i) => start <= i < v@.len() && find_char(v@.skip(start as int), c) == i - start,
            None => find_char(v@.skip(start as int), c) < 0,
        },
{
    let mut i = start;
    while i < v.len()
        invariant
            start <= i <= v@.len(),
            forall|j: int| start <= j < i ==> v@[j] != c,
        decreases v@.len() - i,
    {
        if v[i] == c {
            proof {
                lemma_find_char_bound(v@.skip(start as int), c);
                let f = find_char(v@.skip(start as int), c);
                if f < 0 {
                    assert(v@.skip(start as int)[i - start] == c);
                } else if f < i - start {
                    assert(v@[start + f] == c);
                } else if f > i - start {
                    assert(v@.skip(start as int)[i - start] == c);
                }
            }
            return Some(i);
        }
        i = i + 1;
    }
    proof {
        lemma_find_char_bound(v@.skip(start as int), c);
        let f = find_char(v@.skip(start as int), c);
        if f >= 0 {
            assert(v@[start + f] == c);
        }
    }
    None
}

pub(crate) fn copy_range(v: &[char], from: usize, to: usize) -> (r: Vec<char>)
    requires
        from <= to <= v@.len(),
    ensures
        r@ == v@.subrange(from as int, to as int),
{
    let mut r: Vec<char> = Vec::new();
    let mut i = from;
    while i < to
        invariant
            from <= i <= to <= v@.len(),
            r@ == v@.subrange(from as int, i as int),
        decreases to - i,
    {
        r.push(v[i]);
        i = i + 1;
        assert(r@ =~= v@.subrange(from as int, i as int));
    }
    r
}

fn modifiers_exec(body: &[char]) -> (r: (bool, bool, bool, Vec<char>))
    ensures
        ({
            let (c, a, s, rest) = modifiers(body@, false, false, false);
            r.0 == c && r.1 == a && r.2 == s && r.3@ == rest
        }),
{
    let mut ctrl = false;
    let mut alt = false;
    let mut shift = false;
    let mut start: usize = 0;
    let n = body.len();
    assert(body@.skip(0) =~= body@);
    loop
        invariant
            n == body@.len(),
            start <= body@.len(),
            modifiers(body@, false, false, false) == modifiers(
                body@.skip(start as int),
                ctrl,
                alt,
                shift,
            ),
        decreases body@.len() - start,
    {
        let ghost rest = body@.skip(start as int);
        let found = find_from(body, start, '-');
        match found {
            None => {
                assert(body@.subrange(start as int, n as int) =~= rest);
                return (ctrl, alt, shift, copy_range(body, start, body.len()));
            },
            Some(dash) => {
                let prefix = upper_vec(copy_range(body, start, dash).as_slice());
                proof {
                    assert(body@.subrange(start as int, dash as int) =~= rest.take(dash - start));
                    assert(body@.skip(dash + 1) =~= rest.skip(dash - start + 1));
                }
                if is_word(&prefix, "C") {
                    ctrl = true;
                } else if is_word(&prefix, "M") || is_word(&prefix, "A") {
                    alt = true;
                } else if is_word(&prefix, "S") {
                    shift = true;
                } else {
                    proof {
                        let i = find_char(rest, '-');
                        assert(i == dash - start);
                        assert(upper(rest.take(i)) == prefix@);
                        assert(modifiers(rest, ctrl, alt, shift) == (ctrl, alt, shift, rest));
                        assert(body@.subrange(start as int, n as int) =~= rest);
                    }
                    return (ctrl, alt, shift, copy_range(body, start, body.len()));
                }
                start = dash + 1;
            },
        }
    }
}

/// One `<...>` body.
fn parse_bracketed(body: &[char]) -> (r: Option<Key>)
    ensures
        r == bracketed_spec(body@),
{
    let l = lower_vec(body);
    if is_word(&l, "lt") {
        return Some(Key::char('<'));
    } else if is_word(&l, "gt") {
        return Some(Key::char('>'));
    } else if is_word(&l, "bslash") {
        return Some(Key::char('\\'));
    } else if is_word(&l, "bar") {
        return Some(Key::char('|'));
    } else if is_word(&l, "space") {
        return Some(Key::char(' '));
    } else if is_word(&l, "nul") {
        return Some(Key::char('\0'));
    }
    let (ctrl, alt, shift, rest) = modifiers_exec(body);
    match named_from(rest.as_slice()) {
        Some(named) => Some(Key { code: Code::Named(named), ctrl, alt }),
        None => {
            let lr = lower_vec(rest.as_slice());
            if is_word(&lr, "space") {
                Some(Key { code: Code::Char(' '), ctrl, alt })
            } else if rest.len() == 1 {
                let ch = rest[0];
                let ch = if shift {
                    ascii_upper(ch)
                } else if ctrl {
                    ascii_lower(ch)
                } else {
                    ch
                };
                Some(Key { code: Code::Char(ch), ctrl, alt })
            } else {
                None
            }
        },
    }
}

/// Parses a `nvim_input` string into keys.
pub fn parse(input: &str) -> (keys: Vec<Key>)
    ensures
        keys@ == parse_spec(input@),
{
    let chars = chars_of(input);
    let mut keys: Vec<Key> = Vec::new();
    let mut index: usize = 0;
    assert(chars@.skip(0) =~= chars@);
    while index < chars.len()
        invariant
            index <= chars@.len(),
            chars@ == input@,
            keys@ + parse_spec(chars@.skip(index as int)) == parse_spec(input@),
        decreases chars@.len() - index,
    {
        let ghost s = chars@.skip(index as int);
        assert(s.drop_first() =~= chars@.skip(index + 1));
        if chars[index] == '<' {
            let close = find_from(chars.as_slice(), index + 1, '>');
            assert(chars@.skip(index + 1) =~= s.drop_first());
            if let Some(close) = close {
                let body = copy_range(chars.as_slice(), index + 1, close);
                assert(body@ =~= s.subrange(1, (close - index) as int));
                if let Some(key) = parse_bracketed(body.as_slice()) {
                    let ghost before = keys@;
                    keys.push(key);
                    proof {
                        assert(s.skip(close - index + 1) =~= chars@.skip(close + 1));
                        assert(keys@ + parse_spec(chars@.skip(close + 1)) =~= before + parse_spec(s));
                    }
                    index = close + 1;
                    continue;
                }
            }
        }
        let ghost before = keys@;
        keys.push(Key::char(chars[index]));
        proof {
            assert(keys@ + parse_spec(chars@.skip(index + 1)) =~= before + parse_spec(s));
        }
        index = index + 1;
    }
    assert(keys@ + parse_spec(chars@.skip(chars@.len() as int)) =~= keys@);
    keys
}

} // verus!
