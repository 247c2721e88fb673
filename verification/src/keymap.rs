//! The owner's mappings, as a keymap the editor consults.
//!
//! Matching is Vim's: keep the keys typed so far, and while they are the
//! start of some longer left-hand side, wait. `s` and `ss` both mapped means
//! `s` alone cannot act until the next key says which was meant. Where Vim
//! breaks the tie with `timeoutlen`, this waits for the next key.

use vstd::prelude::*;
use crate::editcore::key::{lower, lower_vec, parse, parse_spec, Key};
use crate::luaconf::{command_of, Mapping};
use crate::text::{chars_of, find_in, find_seq, lemma_find_seq, occurs_at, string_of};

verus! {

#[derive(Clone, Debug, PartialEq)]
pub enum Rhs {
    /// Keys to replay, e.g. `Y -> y$`.
    Keys(Vec<Key>),
    /// An Ex command or a `<cmd>…<CR>`.
    Command(String),
    /// Mapped to nothing on purpose (`<NOP>`).
    Nothing,
}

pub enum RhsModel {
    Keys(Seq<Key>),
    Command(Seq<char>),
    Nothing,
}

pub open spec fn rhs_model(r: Rhs) -> RhsModel {
    match r {
        Rhs::Keys(k) => RhsModel::Keys(k@),
        Rhs::Command(c) => RhsModel::Command(c@),
        Rhs::Nothing => RhsModel::Nothing,
    }
}

#[derive(Clone, Debug, PartialEq)]
pub enum Match<'a> {
    /// The keys so far are the whole of a left-hand side.
    Exact(&'a Rhs),
    /// They are the start of a longer one, so nothing may happen yet.
    Prefix,
    /// No mapping can begin with these keys.
    NoMatch,
}

/// `<Leader>` (in any case) replaced by the configured leader.
pub open spec fn expand(s: Seq<char>, leader: Seq<char>) -> Seq<char>
    decreases s.len(),
{
    let at = find_seq(lower(s), "<leader>"@, 0);
    if at < 0 {
        s
    } else {
        proof {
            lemma_find_seq(lower(s), "<leader>"@, 0);
            reveal_strlit("<leader>");
        }
        s.take(at) + leader + expand(s.skip(at + 8), leader)
    }
}

/// What a right-hand side does: nothing for `<NOP>`, a command when it
/// runs one, else the keys it replays.
pub open spec fn rhs_of(rhs: Seq<char>) -> RhsModel {
    if lower(rhs) == "<nop>"@ {
        RhsModel::Nothing
    } else {
        match command_of(rhs) {
            Some(c) => RhsModel::Command(c),
            None => RhsModel::Keys(parse_spec(rhs)),
        }
    }
}

/// Neovim's `x` is visual, and `v` covers visual too.
pub open spec fn mode_of(c: char) -> char {
    if c == 'x' { 'v' } else { c }
}

/// A mapping as the keymap reads it.
pub struct Binding {
    pub modes: Seq<char>,
    pub lhs: Seq<Key>,
    pub rhs: RhsModel,
}

pub open spec fn binding_of(m: Mapping, leader: Seq<char>) -> Binding {
    Binding { modes: m.mode@, lhs: parse_spec(expand(m.lhs@, leader)), rhs: rhs_of(m.rhs@) }
}

pub open spec fn bindings(ms: Seq<Mapping>, leader: Seq<char>) -> Seq<Binding> {
    ms.map_values(|m: Mapping| binding_of(m, leader))
}

/// One of the first `j` mode letters of `modes` lands on mode `c`.
pub open spec fn covers(modes: Seq<char>, j: int, c: char) -> bool {
    exists|q: int| 0 <= q < j && q < modes.len() && mode_of(#[trigger] modes[q]) == c
}

pub open spec fn binds(b: Binding, j: int, c: char, keys: Seq<Key>) -> bool {
    b.lhs.len() > 0 && b.lhs == keys && covers(b.modes, j, c)
}

/// The last of `bs[..n]` that binds `keys` in mode `c`, or -1: a later
/// mapping of the same keys wins.
pub open spec fn last_binding(bs: Seq<Binding>, n: int, c: char, keys: Seq<Key>) -> int
    decreases n,
{
    if n <= 0 {
        -1
    } else if binds(bs[n - 1], bs[n - 1].modes.len() as int, c, keys) {
        n - 1
    } else {
        last_binding(bs, n - 1, c, keys)
    }
}

/// The same, with the first `j` mode letters of `bs[n]` also read.
pub open spec fn binding_at(bs: Seq<Binding>, n: int, j: int, c: char, keys: Seq<Key>) -> int {
    if 0 <= n < bs.len() && binds(bs[n], j, c, keys) {
        n
    } else {
        last_binding(bs, n, c, keys)
    }
}

/// The keymap's entries are one per mode and left-hand side that something
/// binds, with the right-hand side of the last mapping that does.
pub open spec fn describes(es: Seq<(char, Seq<Key>, RhsModel)>, bs: Seq<Binding>, n: int, j: int) -> bool {
    &&& forall|a: int, b: int| 0 <= a < b < es.len() ==> !((#[trigger] es[a]).0 == (#[trigger] es[b]).0 && es[a].1 == es[b].1)
    &&& forall|a: int| 0 <= a < es.len() ==> binding_at(bs, n, j, (#[trigger] es[a]).0, es[a].1) >= 0
        && es[a].2 == bs[binding_at(bs, n, j, es[a].0, es[a].1)].rhs
    &&& forall|c: char, keys: Seq<Key>| #[trigger] binding_at(bs, n, j, c, keys) >= 0
        ==> exists|a: int| 0 <= a < es.len() && (#[trigger] es[a]).0 == c && es[a].1 == keys
}

/// `long` is longer than `keys` and starts with them.
pub open spec fn extends(long: Seq<Key>, keys: Seq<Key>) -> bool {
    long.len() > keys.len() && long.take(keys.len() as int) == keys
}

pub struct Keymap {
    entries: Vec<(char, Vec<Key>, Rhs)>,
    /// Commands that were mapped but cannot be carried out here, kept so the
    /// editor can say so instead of appearing to do nothing.
    pub unsupported: Vec<String>,
}

pub open spec fn entry_model(e: (char, Vec<Key>, Rhs)) -> (char, Seq<Key>, RhsModel) {
    (e.0, e.1@, rhs_model(e.2))
}

impl View for Keymap {
    type V = Seq<(char, Seq<Key>, RhsModel)>;

    closed spec fn view(&self) -> Seq<(char, Seq<Key>, RhsModel)> {
        self.entries@.map_values(|e: (char, Vec<Key>, Rhs)| entry_model(e))
    }
}

fn same_keys(a: &[Key], b: &[Key]) -> (r: bool)
    ensures
        r == (a@ == b@),
{
    if a.len() != b.len() {
        return false;
    }
    let mut i: usize = 0;
    while i < a.len()
        invariant
            a@.len() == b@.len(),
            i <= a@.len(),
            forall|q: int| 0 <= q < i ==> a@[q] == b@[q],
        decreases a@.len() - i,
    {
        if a[i] != b[i] {
            return false;
        }
        i = i + 1;
    }
    assert(a@ =~= b@);
    true
}

fn extends_exec(long: &[Key], keys: &[Key]) -> (r: bool)
    ensures
        r == extends(long@, keys@),
{
    if long.len() <= keys.len() {
        return false;
    }
    let mut i: usize = 0;
    while i < keys.len()
        invariant
            long@.len() > keys@.len(),
            i <= keys@.len(),
            forall|q: int| 0 <= q < i ==> long@[q] == keys@[q],
        decreases keys@.len() - i,
    {
        if long[i] != keys[i] {
            assert(long@.take(keys@.len() as int)[i as int] == long@[i as int]);
            return false;
        }
        i = i + 1;
    }
    assert(long@.take(keys@.len() as int) =~= keys@);
    true
}

/// `<Leader>q` is `<Space>q` once the config has said what the leader is.
fn expand_leader(lhs: &str, leader: &str) -> (r: String)
    ensures
        r@ == expand(lhs@, leader@),
{
    let chars = chars_of(lhs);
    let lead = chars_of(leader);
    let pat = chars_of("<leader>");
    proof {
        reveal_strlit("<leader>");
        assert(pat@.len() == 8);
    }
    let mut out: Vec<char> = Vec::new();
    let mut start: usize = 0;
    let ghost whole = expand(lhs@, leader@);
    let mut done = false;
    assert(chars@.skip(0) =~= chars@);
    while !done
        invariant
            start <= chars@.len(),
            chars@ == lhs@,
            lead@ == leader@,
            pat@ == "<leader>"@,
            pat@.len() == 8,
            whole == expand(lhs@, leader@),
            done ==> whole == out@,
            !done ==> whole == out@ + expand(chars@.skip(start as int), leader@),
        decreases (if done { 0int } else { chars@.len() - start + 1 }),
    {
        let rest = crate::editcore::key::copy_range(chars.as_slice(), start, chars.len());
        let lowered = lower_vec(rest.as_slice());
        let found = find_in(lowered.as_slice(), pat.as_slice(), 0);
        proof {
            assert(rest@ =~= chars@.skip(start as int));
            lemma_find_seq(lowered@, pat@, 0);
        }
        let ghost before = out@;
        match found {
            None => {
                let mut k: usize = 0;
                while k < rest.len()
                    invariant
                        k <= rest@.len(),
                        out@ == before + rest@.take(k as int),
                    decreases rest@.len() - k,
                {
                    out.push(rest[k]);
                    k = k + 1;
                    assert(out@ =~= before + rest@.take(k as int));
                }
                assert(rest@.take(k as int) =~= rest@);
                done = true;
            },
            Some(at) => {
                assert(at + 8 <= rest@.len());
                let mut k: usize = 0;
                while k < at
                    invariant
                        at <= rest@.len(),
                        k <= at,
                        out@ == before + rest@.take(k as int),
                    decreases at - k,
                {
                    out.push(rest[k]);
                    k = k + 1;
                    assert(out@ =~= before + rest@.take(k as int));
                }
                let ghost mid = out@;
                let mut q: usize = 0;
                while q < lead.len()
                    invariant
                        q <= lead@.len(),
                        out@ == mid + lead@.take(q as int),
                    decreases lead@.len() - q,
                {
                    out.push(lead[q]);
                    q = q + 1;
                    assert(out@ =~= mid + lead@.take(q as int));
                }
                proof {
                    assert(lead@.take(q as int) =~= lead@);
                    assert(rest@.skip(at + 8) =~= chars@.skip(start + at + 8));
                    assert(out@ + expand(chars@.skip(start + at + 8), leader@) =~= before + (rest@.take(
                        at as int,
                    ) + leader@ + expand(rest@.skip(at + 8), leader@)));
                }
                start = start + at + 8;
            },
        }
    }
    string_of(out.as_slice())
}

fn right_hand_side(mapping: &Mapping) -> (r: Rhs)
    ensures
        rhs_model(r) == rhs_of(mapping.rhs@),
{
    let chars = chars_of(mapping.rhs.as_str());
    let lowered = lower_vec(chars.as_slice());
    let nop = chars_of("<nop>");
    if crate::editcore::key::same_chars(lowered.as_slice(), nop.as_slice()) {
        return Rhs::Nothing;
    }
    match mapping.command() {
        Some(command) => Rhs::Command(command.to_owned()),
        None => Rhs::Keys(parse(mapping.rhs.as_str())),
    }
}

impl Keymap {
    /// The commands kept as mapped but not carried out here.
    pub closed spec fn unsupported_commands(self) -> Seq<String> {
        self.unsupported@
    }

    /// The keymap a configuration's mappings make, under its leader.
    pub fn from_config(config: &crate::luaconf::NvimConfig) -> (k: Keymap)
        ensures
            describes(k@, bindings(config.mappings@, crate::luaconf::leader_of(config.globals@)), config.mappings@.len() as int, 0),
            k.unsupported_commands().len() == 0,
    {
        let leader = config.leader();
        Keymap::from_mappings(&config.mappings, leader.as_str())
    }

    /// The keymap the mappings make, with `<Leader>` read as `leader`.
    pub fn from_mappings(mappings: &Vec<Mapping>, leader: &str) -> (k: Keymap)
        ensures
            describes(k@, bindings(mappings@, leader@), mappings@.len() as int, 0),
            k.unsupported_commands().len() == 0,
    {
        let ghost bs = bindings(mappings@, leader@);
        let mut entries: Vec<(char, Vec<Key>, Rhs)> = Vec::new();
        let mut n: usize = 0;
        while n < mappings.len()
            invariant
                n <= mappings@.len(),
                bs == bindings(mappings@, leader@),
                bs.len() == mappings@.len(),
                describes(entries@.map_values(|e: (char, Vec<Key>, Rhs)| entry_model(e)), bs, n as int, 0),
            decreases mappings@.len() - n,
        {
            let mapping = &mappings[n];
            let expanded = expand_leader(mapping.lhs.as_str(), leader);
            let lhs = parse(expanded.as_str());
            let rhs = right_hand_side(mapping);
            let modes = chars_of(mapping.mode.as_str());
            assert(bs[n as int] == binding_of(mappings@[n as int], leader@));
            if lhs.len() > 0 {
                let mut j: usize = 0;
                while j < modes.len()
                    invariant
                        n < mappings@.len(),
                        bs.len() == mappings@.len(),
                        j <= modes@.len(),
                        modes@ == bs[n as int].modes,
                        lhs@ == bs[n as int].lhs,
                        lhs@.len() > 0,
                        rhs_model(rhs) == bs[n as int].rhs,
                        describes(entries@.map_values(|e: (char, Vec<Key>, Rhs)| entry_model(e)), bs, n as int, j as int),
                    decreases modes@.len() - j,
                {
                    let c = if modes[j] == 'x' { 'v' } else { modes[j] };
                    self::rebind(&mut entries, c, &lhs, &rhs, Ghost(bs), Ghost(n as int), Ghost(j as int));
                    j = j + 1;
                }
            }
            proof {
                let es = entries@.map_values(|e: (char, Vec<Key>, Rhs)| entry_model(e));
                let j = if lhs@.len() > 0 { modes@.len() as int } else { 0 };
                assert(describes(es, bs, n as int, j));
                assert forall|c: char, keys: Seq<Key>|
                    binding_at(bs, n + 1, 0, c, keys) == binding_at(bs, n as int, j, c, keys) by {
                    if lhs@.len() == 0 {
                        assert(!binds(bs[n as int], bs[n as int].modes.len() as int, c, keys));
                    }
                }
                lemma_describes_same(es, bs, n as int, j, n + 1, 0);
            }
            n = n + 1;
        }
        Keymap { entries, unsupported: Vec::new() }
    }

    /// A keymap with no mappings: every key keeps its built-in meaning.
    pub fn empty() -> (k: Keymap)
        ensures
            k@.len() == 0,
            k.unsupported_commands().len() == 0,
    {
        Keymap { entries: Vec::new(), unsupported: Vec::new() }
    }

    pub fn len(&self) -> (n: usize)
        ensures
            n == self@.len(),
    {
        self.entries.len()
    }

    pub fn is_empty(&self) -> (r: bool)
        ensures
            r == (self@.len() == 0),
    {
        self.entries.len() == 0
    }

    /// How the keys typed so far relate to this mode's mappings: the start
    /// of a longer left-hand side waits even when they are also a whole one.
    pub fn lookup(&self, mode: char, keys: &[Key]) -> (r: Match<'_>)
        ensures
            match r {
                Match::Prefix => exists|a: int| 0 <= a < self@.len() && (#[trigger] self@[a]).0 == mode
                    && extends(self@[a].1, keys@),
                Match::Exact(rhs) => (forall|a: int| 0 <= a < self@.len() && (#[trigger] self@[a]).0 == mode
                    ==> !extends(self@[a].1, keys@))
                    && exists|a: int| 0 <= a < self@.len() && (#[trigger] self@[a]).0 == mode
                    && self@[a].1 == keys@ && self@[a].2 == rhs_model(*rhs),
                Match::NoMatch => forall|a: int| 0 <= a < self@.len() && (#[trigger] self@[a]).0 == mode
                    ==> !extends(self@[a].1, keys@) && self@[a].1 != keys@,
            },
    {
        let ghost es = self@;
        let mut exact: Option<usize> = None;
        let mut i: usize = 0;
        while i < self.entries.len()
            invariant
                es == self@,
                es.len() == self.entries@.len(),
                i <= es.len(),
                forall|a: int| 0 <= a < i && (#[trigger] es[a]).0 == mode ==> !extends(es[a].1, keys@),
                match exact {
                    Some(a) => a < i && es[a as int].0 == mode && es[a as int].1 == keys@,
                    None => forall|a: int| 0 <= a < i && (#[trigger] es[a]).0 == mode ==> es[a].1 != keys@,
                },
            decreases es.len() - i,
        {
            let entry = &self.entries[i];
            assert(es[i as int] == entry_model(*entry));
            if entry.0 == mode {
                if extends_exec(entry.1.as_slice(), keys) {
                    return Match::Prefix;
                }
                if exact.is_none() && same_keys(entry.1.as_slice(), keys) {
                    exact = Some(i);
                }
            }
            i = i + 1;
        }
        match exact {
            Some(a) => {
                assert(es[a as int] == entry_model(self.entries@[a as int]));
                Match::Exact(&self.entries[a].2)
            },
            None => Match::NoMatch,
        }
    }
}

proof fn lemma_describes_same(es: Seq<(char, Seq<Key>, RhsModel)>, bs: Seq<Binding>, n1: int, j1: int, n2: int, j2: int)
    requires
        describes(es, bs, n1, j1),
        forall|c: char, keys: Seq<Key>| binding_at(bs, n2, j2, c, keys) == binding_at(bs, n1, j1, c, keys),
    ensures
        describes(es, bs, n2, j2),
{
    assert forall|a: int| 0 <= a < es.len() implies binding_at(bs, n2, j2, (#[trigger] es[a]).0, es[a].1) >= 0
        && es[a].2 == bs[binding_at(bs, n2, j2, es[a].0, es[a].1)].rhs by {
        assert(binding_at(bs, n2, j2, es[a].0, es[a].1) == binding_at(bs, n1, j1, es[a].0, es[a].1));
    }
    assert forall|c: char, keys: Seq<Key>| #[trigger] binding_at(bs, n2, j2, c, keys) >= 0
        implies exists|a: int| 0 <= a < es.len() && (#[trigger] es[a]).0 == c && es[a].1 == keys by {
        assert(binding_at(bs, n1, j1, c, keys) >= 0);
    }
}

fn copy_keys(v: &Vec<Key>) -> (r: Vec<Key>)
    ensures
        r@ == v@,
{
    let mut r: Vec<Key> = Vec::new();
    let mut i: usize = 0;
    while i < v.len()
        invariant
            i <= v@.len(),
            r@ == v@.take(i as int),
        decreases v@.len() - i,
    {
        r.push(v[i]);
        i = i + 1;
        assert(r@ =~= v@.take(i as int));
    }
    assert(v@.take(i as int) =~= v@);
    r
}

fn copy_rhs(r: &Rhs) -> (c: Rhs)
    ensures
        rhs_model(c) == rhs_model(*r),
{
    match r {
        Rhs::Keys(k) => Rhs::Keys(copy_keys(k)),
        Rhs::Command(s) => Rhs::Command(s.clone()),
        Rhs::Nothing => Rhs::Nothing,
    }
}

/// Binds `lhs` in mode `c` to `rhs`, in place of whatever bound it there.
fn rebind(
    entries: &mut Vec<(char, Vec<Key>, Rhs)>,
    c: char,
    lhs: &Vec<Key>,
    rhs: &Rhs,
    Ghost(bs): Ghost<Seq<Binding>>,
    Ghost(n): Ghost<int>,
    Ghost(j): Ghost<int>,
)
    requires
        0 <= n < bs.len(),
        0 <= j < bs[n].modes.len(),
        c == mode_of(bs[n].modes[j]),
        lhs@ == bs[n].lhs,
        lhs@.len() > 0,
        rhs_model(*rhs) == bs[n].rhs,
        describes(old(entries)@.map_values(|e: (char, Vec<Key>, Rhs)| entry_model(e)), bs, n, j),
    ensures
        describes(final(entries)@.map_values(|e: (char, Vec<Key>, Rhs)| entry_model(e)), bs, n, j + 1),
{
    let ghost old_es = entries@.map_values(|e: (char, Vec<Key>, Rhs)| entry_model(e));
    let mut rest: Vec<(char, Vec<Key>, Rhs)> = Vec::new();
    std::mem::swap(entries, &mut rest);
    let ghost orig = rest@;
    let total = rest.len();
    let mut kept: Vec<(char, Vec<Key>, Rhs)> = Vec::new();
    let mut i: usize = 0;
    while i < total
        invariant
            total == orig.len(),
            i <= total,
            rest@ == orig.subrange(i as int, total as int),
            old_es == orig.map_values(|e: (char, Vec<Key>, Rhs)| entry_model(e)),
            forall|a: int| 0 <= a < kept@.len() ==> !((#[trigger] kept@[a]).0 == c && kept@[a].1@ == lhs@),
            forall|a: int| 0 <= a < kept@.len() ==> exists|b: int| 0 <= b < i && old_es[b] == entry_model(#[trigger] kept@[a]),
            forall|b: int| 0 <= b < i && !(old_es[b].0 == c && old_es[b].1 == lhs@)
                ==> exists|a: int| 0 <= a < kept@.len() && old_es[b] == entry_model(#[trigger] kept@[a]),
            forall|a: int, a2: int| 0 <= a < a2 < kept@.len()
                ==> !((#[trigger] kept@[a]).0 == (#[trigger] kept@[a2]).0 && kept@[a].1@ == kept@[a2].1@),
            describes(old_es, bs, n, j),
        decreases total - i,
    {
        let entry = rest.remove(0);
        assert(entry == orig[i as int]);
        assert(old_es[i as int] == entry_model(entry));
        if !(entry.0 == c && same_keys(entry.1.as_slice(), lhs.as_slice())) {
            let ghost before = kept@;
            kept.push(entry);
            proof {
                assert(kept@[kept@.len() - 1] == entry);
                assert forall|a: int, a2: int| 0 <= a < a2 < kept@.len()
                    implies !((#[trigger] kept@[a]).0 == (#[trigger] kept@[a2]).0 && kept@[a].1@ == kept@[a2].1@) by {
                    if a2 == kept@.len() - 1 {
                        assert(kept@[a] == before[a]);
                        let b = choose|b: int| 0 <= b < i && old_es[b] == entry_model(#[trigger] before[a]);
                        assert(old_es[b].0 != old_es[i as int].0 || old_es[b].1 != old_es[i as int].1);
                    } else {
                        assert(kept@[a] == before[a] && kept@[a2] == before[a2]);
                    }
                }
                assert forall|a: int| 0 <= a < kept@.len() implies exists|b: int| 0 <= b < i + 1 && old_es[b] == entry_model(#[trigger] kept@[a]) by {
                    if a < before.len() {
                        assert(kept@[a] == before[a]);
                        let b = choose|b: int| 0 <= b < i && old_es[b] == entry_model(#[trigger] before[a]);
                        assert(0 <= b < i + 1 && old_es[b] == entry_model(kept@[a]));
                    } else {
                        assert(old_es[i as int] == entry_model(kept@[a]));
                    }
                }
                assert forall|b: int| 0 <= b < i + 1 && !(old_es[b].0 == c && old_es[b].1 == lhs@)
                    implies exists|a: int| 0 <= a < kept@.len() && old_es[b] == entry_model(#[trigger] kept@[a]) by {
                    if b < i {
                        let a = choose|a: int| 0 <= a < before.len() && old_es[b] == entry_model(#[trigger] before[a]);
                        assert(kept@[a] == before[a]);
                    } else {
                        assert(old_es[b] == entry_model(kept@[kept@.len() - 1]));
                    }
                }
            }
        }
        assert(rest@ =~= orig.subrange(i + 1, total as int));
        i = i + 1;
    }
    let ghost before = kept@;
    kept.push((c, copy_keys(lhs), copy_rhs(rhs)));
    *entries = kept;
    proof {
        let es = entries@.map_values(|e: (char, Vec<Key>, Rhs)| entry_model(e));
        let last = es.len() - 1;
        assert(es[last] == (c, lhs@, bs[n].rhs));
        assert(covers(bs[n].modes, j + 1, c)) by {
            assert(mode_of(bs[n].modes[j]) == c);
        }
        assert forall|c2: char, k2: Seq<Key>| !(c2 == c && k2 == lhs@)
            implies binding_at(bs, n, j + 1, c2, k2) == binding_at(bs, n, j, c2, k2) by {
            if k2 == lhs@ && c2 != c {
                if covers(bs[n].modes, j + 1, c2) {
                    let q = choose|q: int| 0 <= q < j + 1 && q < bs[n].modes.len() && mode_of(#[trigger] bs[n].modes[q]) == c2;
                    assert(q != j);
                }
            }
        }
        assert forall|a: int, b: int| 0 <= a < b < es.len() implies !((#[trigger] es[a]).0 == (#[trigger] es[b]).0 && es[a].1 == es[b].1) by {
            if b == last {
                assert(es[a] == entry_model(before[a]));
            } else {
                assert(es[a] == entry_model(before[a]) && es[b] == entry_model(before[b]));
            }
        }
        assert forall|a: int| 0 <= a < es.len() implies binding_at(bs, n, j + 1, (#[trigger] es[a]).0, es[a].1) >= 0
            && es[a].2 == bs[binding_at(bs, n, j + 1, es[a].0, es[a].1)].rhs by {
            if a < last {
                assert(es[a] == entry_model(before[a]));
                let b = choose|b: int| 0 <= b < total && old_es[b] == entry_model(#[trigger] before[a]);
                assert(old_es[b] == es[a]);
            }
        }
        assert forall|c2: char, k2: Seq<Key>| #[trigger] binding_at(bs, n, j + 1, c2, k2) >= 0
            implies exists|a: int| 0 <= a < es.len() && (#[trigger] es[a]).0 == c2 && es[a].1 == k2 by {
            if c2 == c && k2 == lhs@ {
                assert(es[last].0 == c2 && es[last].1 == k2);
            } else {
                assert(binding_at(bs, n, j, c2, k2) >= 0);
                let b = choose|b: int| 0 <= b < old_es.len() && (#[trigger] old_es[b]).0 == c2 && old_es[b].1 == k2;
                let a = choose|a: int| 0 <= a < before.len() && old_es[b] == entry_model(#[trigger] before[a]);
                assert(es[a] == entry_model(before[a]));
            }
        }
    }
}

/// Each mode and left-hand side that some mapping binds has exactly one
/// entry, and its right-hand side is the last such mapping's: a later
/// mapping of the same keys wins.
pub proof fn law_the_last_mapping_of_keys_wins(
    es: Seq<(char, Seq<Key>, RhsModel)>,
    bs: Seq<Binding>,
    mode: char,
    keys: Seq<Key>,
)
    requires
        describes(es, bs, bs.len() as int, 0),
    ensures
        last_binding(bs, bs.len() as int, mode, keys) >= 0 <==> exists|a: int| 0 <= a < es.len() && (#[trigger] es[a]).0 == mode && es[a].1 == keys,
        forall|a: int| 0 <= a < es.len() && (#[trigger] es[a]).0 == mode && es[a].1 == keys
            ==> es[a].2 == bs[last_binding(bs, bs.len() as int, mode, keys)].rhs,
        forall|a: int, b: int| 0 <= a < b < es.len() && (#[trigger] es[a]).0 == mode && es[a].1 == keys
            ==> !((#[trigger] es[b]).0 == mode && es[b].1 == keys),
{
    assert(binding_at(bs, bs.len() as int, 0, mode, keys) == last_binding(bs, bs.len() as int, mode, keys));
    if exists|a: int| 0 <= a < es.len() && (#[trigger] es[a]).0 == mode && es[a].1 == keys {
        let a = choose|a: int| 0 <= a < es.len() && (#[trigger] es[a]).0 == mode && es[a].1 == keys;
        assert(binding_at(bs, bs.len() as int, 0, es[a].0, es[a].1) >= 0);
    }
}

} // verus!
