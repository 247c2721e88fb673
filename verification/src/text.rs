//! Character classification and the conversions between `str`, `String` and
//! character vectors that the rest of the library is written against.

use vstd::prelude::*;
use vstd::std_specs::iter::IteratorSpec;

verus! {

/// Collects the characters of `s`, in order.
pub fn chars_of(s: &str) -> (v: Vec<char>)
    ensures
        v@ == s@,
{
    broadcast use vstd::string::axiom_spec_iter, vstd::string::next_postcondition;
    let mut it = s.chars();
    let mut v: Vec<char> = Vec::new();
    loop
        invariant
            v@ + it.remaining() == s@,
            it.decrease() is Some,
        ensures
            v@ == s@,
        decreases it.decrease()->0,
    {
        match it.next() {
            Some(c) => {
                v.push(c);
            },
            None => {
                break;
            },
        }
    }
    v
}

/// Builds a `String` from a slice of characters.
///
/// Wraps `FromIterator<&char> for String`: the string holds exactly the given
/// characters, in order.
#[verifier::external_body]
pub fn string_of(v: &[char]) -> (s: String)
    ensures
        s@ == v@,
{
    String::from_iter(v)
}

/// Unicode `White_Space`, which is what `char::is_whitespace` tests.
pub open spec fn spec_is_whitespace(c: char) -> bool {
    let u = c as u32;
    (0x09 <= u && u <= 0x0D) || u == 0x20 || u == 0x85 || u == 0xA0 || u == 0x1680
        || (0x2000 <= u && u <= 0x200A) || u == 0x2028 || u == 0x2029 || u == 0x202F
        || u == 0x205F || u == 0x3000
}

pub fn is_whitespace(c: char) -> (r: bool)
    ensures
        r == spec_is_whitespace(c),
{
    let u = c as u32;
    (0x09 <= u && u <= 0x0D) || u == 0x20 || u == 0x85 || u == 0xA0 || u == 0x1680 || (0x2000
        <= u && u <= 0x200A) || u == 0x2028 || u == 0x2029 || u == 0x202F || u == 0x205F || u
        == 0x3000
}

/// The general category `Cc`, which is what `char::is_control` tests.
pub open spec fn spec_is_control(c: char) -> bool {
    let u = c as u32;
    u <= 0x1F || (0x7F <= u && u <= 0x9F)
}

pub fn is_control(c: char) -> (r: bool)
    ensures
        r == spec_is_control(c),
{
    let u = c as u32;
    u <= 0x1F || (0x7F <= u && u <= 0x9F)
}

pub open spec fn spec_ascii_lower(c: char) -> char {
    if 'A' <= c && c <= 'Z' {
        ((c as u32) + 32) as char
    } else {
        c
    }
}

pub open spec fn spec_ascii_upper(c: char) -> char {
    if 'a' <= c && c <= 'z' {
        ((c as u32) - 32) as char
    } else {
        c
    }
}

pub fn ascii_lower(c: char) -> (r: char)
    ensures
        r == spec_ascii_lower(c),
{
    if 'A' <= c && c <= 'Z' {
        let u = (c as u32) + 32;
        char_from_ascii(u)
    } else {
        c
    }
}

pub fn ascii_upper(c: char) -> (r: char)
    ensures
        r == spec_ascii_upper(c),
{
    if 'a' <= c && c <= 'z' {
        let u = (c as u32) - 32;
        char_from_ascii(u)
    } else {
        c
    }
}

fn char_from_ascii(u: u32) -> (r: char)
    requires
        u < 128,
    ensures
        r == u as char,
{
    let b = u as u8;
    b as char
}

/// What `char::is_alphanumeric` answers: Unicode `Alphabetic` or `Numeric`.
pub uninterp spec fn unicode_alphanumeric(c: char) -> bool;

/// What `char::is_uppercase` answers: Unicode `Uppercase`.
pub uninterp spec fn unicode_uppercase(c: char) -> bool;

/// Wraps `char::is_alphanumeric`. The answer depends on the character alone
/// and is named rather than restated; ASCII letters and digits are among the
/// characters it accepts, and ASCII punctuation and whitespace are not.
#[verifier::external_body]
pub fn is_alphanumeric(c: char) -> (r: bool)
    ensures
        r == unicode_alphanumeric(c),
        ('a' <= c <= 'z' || 'A' <= c <= 'Z' || '0' <= c <= '9') ==> r,
        ((c as u32) < 128 && !('a' <= c <= 'z' || 'A' <= c <= 'Z' || '0' <= c <= '9')) ==> !r,
{
    c.is_alphanumeric()
}

/// Wraps `char::is_uppercase`. The answer depends on the character alone and
/// is named; among ASCII characters exactly `A` to `Z` are uppercase.
#[verifier::external_body]
pub fn is_uppercase(c: char) -> (r: bool)
    ensures
        r == unicode_uppercase(c),
        (c as u32) < 128 ==> (r <==> 'A' <= c <= 'Z'),
{
    c.is_uppercase()
}

// ---------------------------------------------------------------------------
// Searching and trimming character sequences
// ---------------------------------------------------------------------------

/// `pat` stands in `s` at `i`.
pub open spec fn occurs_at(s: Seq<char>, pat: Seq<char>, i: int) -> bool {
    0 <= i && i + pat.len() <= s.len() && s.subrange(i, i + pat.len()) == pat
}

/// The first place at or after `i` where `pat` stands in `s`, or -1.
pub open spec fn find_seq(s: Seq<char>, pat: Seq<char>, i: int) -> int
    decreases s.len() + 1 - i,
{
    if i < 0 || i > s.len() || i + pat.len() > s.len() {
        -1
    } else if occurs_at(s, pat, i) {
        i
    } else {
        find_seq(s, pat, i + 1)
    }
}

pub proof fn lemma_find_seq(s: Seq<char>, pat: Seq<char>, i: int)
    ensures
        find_seq(s, pat, i) == -1 || (i <= find_seq(s, pat, i) && occurs_at(s, pat, find_seq(s, pat, i))),
    decreases s.len() + 1 - i,
{
    if !(i < 0 || i > s.len() || i + pat.len() > s.len()) && !occurs_at(s, pat, i) {
        lemma_find_seq(s, pat, i + 1);
    }
}

/// The last place at or before `i` where `pat` stands in `s`, or -1.
pub open spec fn find_last(s: Seq<char>, pat: Seq<char>, i: int) -> int
    decreases i + 1,
{
    if i < 0 {
        -1
    } else if occurs_at(s, pat, i) {
        i
    } else {
        find_last(s, pat, i - 1)
    }
}

/// `s` without every trailing repetition of `suffix`.
pub open spec fn strip_suffixes(s: Seq<char>, suffix: Seq<char>) -> Seq<char>
    decreases s.len(),
{
    if suffix.len() > 0 && occurs_at(s, suffix, s.len() - suffix.len()) {
        strip_suffixes(s.take(s.len() - suffix.len()), suffix)
    } else {
        s
    }
}

pub open spec fn trim_end_ws(s: Seq<char>) -> Seq<char>
    decreases s.len(),
{
    if s.len() > 0 && spec_is_whitespace(s.last()) {
        trim_end_ws(s.drop_last())
    } else {
        s
    }
}

pub open spec fn trim_start_ws(s: Seq<char>) -> Seq<char>
    decreases s.len(),
{
    if s.len() > 0 && spec_is_whitespace(s[0]) {
        trim_start_ws(s.drop_first())
    } else {
        s
    }
}

/// What `str::trim` leaves: no whitespace at either end.
pub open spec fn trim_ws(s: Seq<char>) -> Seq<char> {
    trim_start_ws(trim_end_ws(s))
}

pub fn occurs(v: &[char], pat: &[char], i: usize) -> (r: bool)
    ensures
        r == occurs_at(v@, pat@, i as int),
{
    let n = v.len();
    if i > n || pat.len() > n - i {
        return false;
    }
    let mut k: usize = 0;
    while k < pat.len()
        invariant
            n == v@.len(),
            i + pat@.len() <= n,
            k <= pat@.len(),
            forall|q: int| 0 <= q < k ==> v@[i + q] == pat@[q],
        decreases pat@.len() - k,
    {
        if v[i + k] != pat[k] {
            assert(v@.subrange(i as int, i + pat@.len())[k as int] == v@[i + k]);
            return false;
        }
        k = k + 1;
    }
    assert(v@.subrange(i as int, i + pat@.len()) =~= pat@);
    true
}

/// Where `pat` first stands in `v` at or after `from`.
pub fn find_in(v: &[char], pat: &[char], from: usize) -> (r: Option<usize>)
    ensures
        match r {
            Some(k) => k == find_seq(v@, pat@, from as int),
            None => find_seq(v@, pat@, from as int) == -1,
        },
{
    if pat.len() == 0 {
        if from <= v.len() {
            assert(occurs_at(v@, pat@, from as int)) by {
                assert(v@.subrange(from as int, from as int) =~= pat@);
            }
            return Some(from);
        }
        return None;
    }
    let n = v.len();
    let mut i = from;
    while i <= n && pat.len() <= n - i
        invariant
            n == v@.len(),
            pat@.len() > 0,
            from <= i,
            find_seq(v@, pat@, from as int) == find_seq(v@, pat@, i as int),
        decreases v@.len() + 1 - i,
    {
        if occurs(v, pat, i) {
            return Some(i);
        }
        i = i + 1;
    }
    None
}

/// Where `pat` last stands in `v`.
pub fn find_last_in(v: &[char], pat: &[char]) -> (r: Option<usize>)
    ensures
        match r {
            Some(k) => k == find_last(v@, pat@, v@.len() - pat@.len()) && occurs_at(v@, pat@, k as int),
            None => find_last(v@, pat@, v@.len() - pat@.len()) == -1,
        },
{
    if pat.len() > v.len() {
        return None;
    }
    if pat.len() == 0 {
        assert(occurs_at(v@, pat@, v@.len() as int)) by {
            assert(v@.subrange(v@.len() as int, v@.len() as int) =~= pat@);
        }
        return Some(v.len());
    }
    let mut i = v.len() - pat.len() + 1;
    while i > 0
        invariant
            i <= v@.len() - pat@.len() + 1,
            find_last(v@, pat@, v@.len() - pat@.len()) == find_last(v@, pat@, i - 1),
        decreases i,
    {
        if occurs(v, pat, i - 1) {
            return Some(i - 1);
        }
        i = i - 1;
    }
    None
}

/// The end of `v[from..to]` once every trailing `suffix` is gone.
pub fn strip_suffixes_end(v: &[char], from: usize, to: usize, suffix: &[char]) -> (e: usize)
    requires
        from <= to <= v@.len(),
    ensures
        from <= e <= to,
        v@.subrange(from as int, e as int) == strip_suffixes(v@.subrange(from as int, to as int), suffix@),
{
    let mut e = to;
    while suffix.len() > 0 && e - from >= suffix.len() && occurs(v, suffix, e - suffix.len())
        invariant
            from <= e <= to <= v@.len(),
            strip_suffixes(v@.subrange(from as int, to as int), suffix@)
                == strip_suffixes(v@.subrange(from as int, e as int), suffix@),
        decreases e,
    {
        proof {
            let s = v@.subrange(from as int, e as int);
            assert(s.subrange(s.len() - suffix@.len(), s.len() as int) =~= v@.subrange(
                e - suffix@.len(),
                e as int,
            ));
            assert(s.take(s.len() - suffix@.len()) =~= v@.subrange(from as int, e - suffix@.len()));
        }
        e = e - suffix.len();
    }
    proof {
        let s = v@.subrange(from as int, e as int);
        if suffix@.len() > 0 && s.len() >= suffix@.len() {
            assert(s.subrange(s.len() - suffix@.len(), s.len() as int) =~= v@.subrange(
                e - suffix@.len(),
                e as int,
            ));
        }
    }
    e
}

/// The bounds of `v[from..to]` without whitespace at either end.
pub fn trim_range(v: &[char], from: usize, to: usize) -> (r: (usize, usize))
    requires
        from <= to <= v@.len(),
    ensures
        from <= r.0 <= r.1 <= to,
        v@.subrange(r.0 as int, r.1 as int) == trim_ws(v@.subrange(from as int, to as int)),
{
    let mut b = to;
    while b > from && is_whitespace(v[b - 1])
        invariant
            from <= b <= to <= v@.len(),
            trim_end_ws(v@.subrange(from as int, to as int)) == trim_end_ws(v@.subrange(from as int, b as int)),
        decreases b,
    {
        proof {
            assert(v@.subrange(from as int, b as int).drop_last() =~= v@.subrange(from as int, b - 1));
        }
        b = b - 1;
    }
    proof {
        assert(trim_end_ws(v@.subrange(from as int, b as int)) == v@.subrange(from as int, b as int));
    }
    let mut a = from;
    while a < b && is_whitespace(v[a])
        invariant
            from <= a <= b <= to <= v@.len(),
            trim_start_ws(v@.subrange(from as int, b as int)) == trim_start_ws(v@.subrange(a as int, b as int)),
        decreases b - a,
    {
        proof {
            assert(v@.subrange(a as int, b as int).drop_first() =~= v@.subrange(a + 1, b as int));
        }
        a = a + 1;
    }
    (a, b)
}

/// The UTF-8 length of `v`, when it is at most `cap`.
pub fn utf8_len_upto(v: &[char], cap: usize) -> (r: Option<usize>)
    ensures
        match r {
            Some(n) => n == vstd::utf8::encode_utf8(v@).len() && n <= cap,
            None => vstd::utf8::encode_utf8(v@).len() > cap,
        },
{
    let mut i = v.len();
    let mut total: usize = 0;
    assert(v@.skip(v@.len() as int) =~= Seq::<char>::empty());
    while i > 0
        invariant
            i <= v@.len(),
            total == vstd::utf8::encode_utf8(v@.skip(i as int)).len(),
            total <= cap,
        decreases i,
    {
        let c = v[i - 1];
        let u = c as u32;
        let width: usize = if u <= 0x7F { 1 } else if u <= 0x7FF { 2 } else if u <= 0xFFFF { 3 } else { 4 };
        proof {
            vstd::utf8::char_is_scalar(c);
            assert(v@.skip(i - 1).drop_first() =~= v@.skip(i as int));
            assert(v@.skip(i - 1)[0] == c);
            assert(vstd::utf8::encode_scalar(u).len() == width);
        }
        if width > cap - total {
            proof {
                lemma_encode_len_monotone(v@, i - 1);
            }
            return None;
        }
        total = total + width;
        i = i - 1;
    }
    assert(v@.skip(0) =~= v@);
    Some(total)
}

proof fn lemma_encode_len_monotone(s: Seq<char>, i: int)
    requires
        0 <= i <= s.len(),
    ensures
        vstd::utf8::encode_utf8(s.skip(i)).len() <= vstd::utf8::encode_utf8(s).len(),
    decreases i,
{
    if i > 0 {
        lemma_encode_len_monotone(s, i - 1);
        let t = s.skip(i - 1);
        assert(t.drop_first() =~= s.skip(i));
        assert(vstd::utf8::encode_utf8(t) == vstd::utf8::encode_scalar(t[0] as u32) + vstd::utf8::encode_utf8(t.drop_first()));
    } else {
        assert(s.skip(0) =~= s);
    }
}


/// Whether `a` and `b` are the same text.
pub fn same_text(a: &str, b: &str) -> (r: bool)
    ensures
        r == (a@ == b@),
{
    let v = chars_of(a);
    let w = chars_of(b);
    crate::editcore::key::same_chars(v.as_slice(), w.as_slice())
}


/// `a` followed by `b`.
pub fn concat(a: &str, b: &str) -> (s: String)
    ensures
        s@ == a@ + b@,
{
    let mut v = chars_of(a);
    let w = chars_of(b);
    let mut i: usize = 0;
    let ghost start = v@;
    while i < w.len()
        invariant
            i <= w@.len(),
            v@ == start + w@.take(i as int),
        decreases w@.len() - i,
    {
        v.push(w[i]);
        i = i + 1;
        assert(v@ =~= start + w@.take(i as int));
    }
    assert(w@.take(w@.len() as int) =~= w@);
    string_of(v.as_slice())
}

/// The decimal digit for `d < 10`.
pub open spec fn digit_char(d: nat) -> char {
    if d == 0 { '0' } else if d == 1 { '1' } else if d == 2 { '2' } else if d == 3 { '3' }
    else if d == 4 { '4' } else if d == 5 { '5' } else if d == 6 { '6' } else if d == 7 { '7' }
    else if d == 8 { '8' } else { '9' }
}

/// `n` written in decimal, without leading zeros.
pub open spec fn decimal(n: nat) -> Seq<char>
    decreases n,
{
    if n < 10 {
        seq![digit_char(n)]
    } else {
        decimal(n / 10).push(digit_char(n % 10))
    }
}

fn digit_exec(d: usize) -> (c: char)
    requires
        d < 10,
    ensures
        c == digit_char(d as nat),
{
    if d == 0 { '0' } else if d == 1 { '1' } else if d == 2 { '2' } else if d == 3 { '3' }
    else if d == 4 { '4' } else if d == 5 { '5' } else if d == 6 { '6' } else if d == 7 { '7' }
    else if d == 8 { '8' } else { '9' }
}

fn decimal_chars(n: usize) -> (v: Vec<char>)
    ensures
        v@ == decimal(n as nat),
    decreases n,
{
    if n < 10 {
        vec![digit_exec(n)]
    } else {
        let mut v = decimal_chars(n / 10);
        v.push(digit_exec(n % 10));
        v
    }
}

/// `n` in decimal, as `format!("{n}")` writes it.
pub fn decimal_text(n: usize) -> (s: String)
    ensures
        s@ == decimal(n as nat),
{
    let v = decimal_chars(n);
    string_of(v.as_slice())
}


/// What `char::is_lowercase` answers: Unicode `Lowercase`.
pub uninterp spec fn unicode_lowercase(c: char) -> bool;

/// Wraps `char::is_lowercase`; named, with the ASCII answer stated.
#[verifier::external_body]
pub fn is_lowercase(c: char) -> (r: bool)
    ensures
        r == unicode_lowercase(c),
        (c as u32) < 128 ==> (r <==> 'a' <= c <= 'z'),
{
    c.is_lowercase()
}

/// The first character of `char::to_uppercase` of a character.
pub uninterp spec fn uppercase_first(c: char) -> Option<char>;

/// The first character of `char::to_lowercase` of a character.
pub uninterp spec fn lowercase_first(c: char) -> Option<char>;

/// Wraps `char::to_uppercase` and takes its first character; for an ASCII
/// letter that is the capital.
#[verifier::external_body]
pub fn to_uppercase_first(c: char) -> (r: Option<char>)
    ensures
        r == uppercase_first(c),
        'a' <= c <= 'z' ==> r == Some(spec_ascii_upper(c)),
{
    c.to_uppercase().next()
}

/// Wraps `char::to_lowercase` and takes its first character; for an ASCII
/// capital that is the small letter.
#[verifier::external_body]
pub fn to_lowercase_first(c: char) -> (r: Option<char>)
    ensures
        r == lowercase_first(c),
        'A' <= c <= 'Z' ==> r == Some(spec_ascii_lower(c)),
{
    c.to_lowercase().next()
}

/// What `str::to_lowercase` makes of a text.
pub uninterp spec fn lowercased(s: Seq<char>) -> Seq<char>;

/// Wraps `str::to_lowercase`. The result is named: it can be longer than the
/// text, so positions in it are positions in the lowered text.
#[verifier::external_body]
pub fn to_lowercase(s: &str) -> (r: String)
    ensures
        r@ == lowercased(s@),
{
    s.to_lowercase()
}


/// A number written in decimal has at least one digit and at most as many
/// as its value has places.
pub proof fn lemma_decimal_len(n: nat)
    ensures
        decimal(n).len() >= 1,
        decimal(n).len() <= n + 1,
    decreases n,
{
    if n >= 10 {
        lemma_decimal_len(n / 10);
    }
}


pub open spec fn ten_to(k: nat) -> nat
    decreases k,
{
    if k == 0 { 1 } else { 10 * ten_to((k - 1) as nat) }
}

proof fn lemma_decimal_len_under(n: nat, k: nat)
    requires
        k >= 1,
        n < ten_to(k),
    ensures
        decimal(n).len() <= k,
    decreases k,
{
    if n >= 10 {
        assert(k >= 2) by {
            if k == 1 {
                assert(ten_to(1) == 10 * ten_to(0));
            }
        }
        let t = ten_to((k - 1) as nat);
        assert(ten_to(k) == 10 * t);
        assert(n / 10 < t) by (nonlinear_arith)
            requires
                n < 10 * t,
        ;
        lemma_decimal_len_under(n / 10, (k - 1) as nat);
    }
}

/// A `usize` has at most twenty decimal digits.
pub proof fn lemma_decimal_len_usize(n: usize)
    ensures
        1 <= decimal(n as nat).len() <= 20,
{
    lemma_decimal_len(n as nat);
    reveal_with_fuel(ten_to, 21);
    assert(ten_to(20) == 100000000000000000000nat);
    lemma_decimal_len_under(n as nat, 20);
}

} // verus!
