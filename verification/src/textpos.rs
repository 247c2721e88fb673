//! Positions in a line of text: characters, UTF-16 code units, UTF-8 bytes.

use vstd::prelude::*;

verus! {

/// How many UTF-16 code units `c` takes.
pub open spec fn utf16_len(c: char) -> int {
    if (c as u32) >= 0x10000 { 2 } else { 1 }
}

/// The UTF-16 length of the first `n` characters of `s`.
pub open spec fn units(s: Seq<char>, n: int) -> int
    decreases n,
{
    if n <= 0 || s.len() == 0 {
        0
    } else if n > s.len() {
        units(s, s.len() as int)
    } else {
        units(s, n - 1) + utf16_len(s[n - 1])
    }
}

/// How many whole characters of `s` fit in `u` UTF-16 code units, counting
/// from `k`.
pub open spec fn chars_within(s: Seq<char>, u: int, k: int) -> int
    decreases s.len() - k,
{
    if k < 0 || k >= s.len() || units(s, k + 1) > u {
        k
    } else {
        chars_within(s, u, k + 1)
    }
}

proof fn lemma_units_bound(s: Seq<char>, n: int)
    requires
        0 <= n <= s.len(),
    ensures
        n <= units(s, n) <= 2 * n,
    decreases n,
{
    if n > 0 {
        lemma_units_bound(s, n - 1);
    }
}

fn utf16_len_exec(c: char) -> (n: usize)
    ensures
        n == utf16_len(c),
{
    if (c as u32) >= 0x10000 { 2 } else { 1 }
}

/// The UTF-16 offset of character `index` of `line`; an index past the end
/// counts the whole line.
pub fn char_to_utf16(line: &[char], index: usize) -> (u: usize)
    requires
        line@.len() <= usize::MAX / 2,
    ensures
        u == units(line@, index as int),
{
    let end = if index < line.len() { index } else { line.len() };
    let mut total: usize = 0;
    let mut i: usize = 0;
    while i < end
        invariant
            end <= line@.len() <= usize::MAX / 2,
            i <= end,
            total == units(line@, i as int),
            total <= 2 * i,
        decreases end - i,
    {
        total = total + utf16_len_exec(line[i]);
        i = i + 1;
    }
    proof {
        if index as int > line@.len() && line@.len() > 0 {
            assert(units(line@, index as int) == units(line@, line@.len() as int));
        }
    }
    total
}

/// The character index that `units` UTF-16 code units reach in `line`: a
/// character counts once all of it is covered.
pub fn utf16_to_char(line: &[char], target: usize) -> (index: usize)
    requires
        line@.len() <= usize::MAX / 2,
    ensures
        index == chars_within(line@, target as int, 0),
        index <= line@.len(),
{
    let mut total: usize = 0;
    let mut k: usize = 0;
    while k < line.len() && total + utf16_len_exec(line[k]) <= target
        invariant
            line@.len() <= usize::MAX / 2,
            k <= line@.len(),
            total == units(line@, k as int),
            total <= 2 * k,
            chars_within(line@, target as int, 0) == chars_within(line@, target as int, k as int),
        decreases line@.len() - k,
    {
        total = total + utf16_len_exec(line[k]);
        k = k + 1;
    }
    k
}

} // verus!
