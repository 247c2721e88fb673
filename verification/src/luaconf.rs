//! What the owner's `init.lua` maps, one call at a time.

use vstd::prelude::*;
use vstd::string::StrSliceExecFns;
use crate::editcore::key::{copy_range, lower, lower_vec};
use crate::editcore::editor::{default_options, Options};
use crate::text::{find_in, find_seq};
use crate::text::{
    chars_of, find_last, find_last_in, occurs, occurs_at, strip_suffixes, strip_suffixes_end,
    trim_range, trim_ws,
};

verus! {

/// One `nvim_set_keymap` / `vim.keymap.set` call.
#[derive(Clone, Debug, PartialEq)]
pub struct Mapping {
    /// `n`, `i`, `v`, `x`, … as Neovim spells them.
    pub mode: String,
    pub lhs: String,
    pub rhs: String,
}

/// The Ex command a right-hand side runs, if it runs one: `<cmd>…<cr>` (the
/// marker in any case) or `:…<cr>`, without the closing `<CR>`s and the
/// whitespace round the command.
pub open spec fn command_of(rhs: Seq<char>) -> Option<Seq<char>> {
    let t = trim_ws(rhs);
    let l = lower(t);
    let body = if occurs_at(l, "<cmd>"@, 0) {
        Some(t.subrange(5, 5 + strip_suffixes(l.skip(5), "<cr>"@).len() as int))
    } else if t.len() > 0 && t[0] == ':' {
        let rest = t.skip(1);
        let last = find_last(lower(rest), "<cr>"@, rest.len() - 4);
        Some(if last < 0 { Seq::empty() } else { rest.take(last + 4) })
    } else {
        None
    };
    match body {
        Some(b) => Some(trim_ws(strip_suffixes(strip_suffixes(b, "<CR>"@), "<cr>"@))),
        None => None,
    }
}

impl Mapping {
    /// `<cmd>Telescope find_files<cr>` and `:e ~/.config/nvim/init.lua<CR>` are
    /// commands; `y$` and `15j` are keys to replay.
    pub fn command(&self) -> (r: Option<&str>)
        ensures
            match r {
                Some(c) => command_of(self.rhs@) == Some(c@),
                None => command_of(self.rhs@) is None,
            },
    {
        let all = chars_of(self.rhs.as_str());
        let (a, b) = trim_range(all.as_slice(), 0, all.len());
        proof {
            assert(all@.subrange(0, all@.len() as int) =~= all@);
        }
        let ghost t = all@.subrange(a as int, b as int);
        let trimmed = copy_range(all.as_slice(), a, b);
        let l = lower_vec(trimmed.as_slice());
        let cmd = chars_of("<cmd>");
        let cr = chars_of("<cr>");
        let cr_upper = chars_of("<CR>");
        proof {
            reveal_strlit("<cmd>");
            reveal_strlit("<cr>");
            reveal_strlit("<CR>");
        }
        // The command's bounds in `all`.
        let from: usize;
        let to: usize;
        if occurs(l.as_slice(), cmd.as_slice(), 0) {
            let rest_end = strip_suffixes_end(l.as_slice(), 5, l.len(), cr.as_slice());
            proof {
                assert(l@.subrange(5, l@.len() as int) =~= l@.skip(5));
                assert(l@.subrange(5, rest_end as int).len() == rest_end - 5);
            }
            from = a + 5;
            to = a + rest_end;
            assert(all@.subrange(from as int, to as int) =~= t.subrange(5, rest_end as int));
        } else if trimmed.len() > 0 && trimmed[0] == ':' {
            let rest = copy_range(trimmed.as_slice(), 1, trimmed.len());
            let lr = lower_vec(rest.as_slice());
            proof {
                assert(rest@ =~= t.skip(1));
            }
            match find_last_in(lr.as_slice(), cr.as_slice()) {
                Some(k) => {
                    from = a + 1;
                    to = a + 1 + k + 4;
                    assert(all@.subrange(from as int, to as int) =~= t.skip(1).take(k + 4));
                },
                None => {
                    from = a + 1;
                    to = a + 1;
                    assert(all@.subrange(from as int, to as int) =~= Seq::<char>::empty());
                },
            }
        } else {
            return None;
        }
        let e1 = strip_suffixes_end(all.as_slice(), from, to, cr_upper.as_slice());
        let e2 = strip_suffixes_end(all.as_slice(), from, e1, cr.as_slice());
        let (x, y) = trim_range(all.as_slice(), from, e2);
        assert(all@ == self.rhs@);
        Some(self.rhs.as_str().substring_char(x, y))
    }
}

} // verus!

verus! {

/// One recorded `vim.opt`/`vim.g` value. A number is held as the whole,
/// non-negative count it stands for (`None` for a negative or fractional
/// reading that is no such count), since that is all that is read of it.
#[derive(Clone, Debug, PartialEq, Eq)]
pub enum Setting {
    Bool(bool),
    Number(Option<usize>),
    Text(String),
    /// `listchars = { tab = '▸ ', trail = '·' }` and friends, each key once.
    Dict(Vec<(String, String)>),
    List(Vec<String>),
}

/// The text stored under `key` in `entries` (the first entry so named).
pub open spec fn text_under(entries: Seq<(String, String)>, key: Seq<char>) -> Option<Seq<char>>
    decreases entries.len(),
{
    if entries.len() == 0 {
        None
    } else if entries[0].0@ == key {
        Some(entries[0].1@)
    } else {
        text_under(entries.drop_first(), key)
    }
}

impl Setting {
    pub fn as_bool(&self) -> (r: Option<bool>)
        ensures
            r == match *self {
                Setting::Bool(b) => Some(b),
                _ => None,
            },
    {
        match self {
            Setting::Bool(value) => Some(*value),
            _ => None,
        }
    }

    pub fn as_usize(&self) -> (r: Option<usize>)
        ensures
            r == match *self {
                Setting::Number(n) => n,
                _ => None,
            },
    {
        match self {
            Setting::Number(n) => *n,
            _ => None,
        }
    }

    /// The text a map setting holds under `key`.
    pub fn get(&self, key: &str) -> (r: Option<&str>)
        ensures
            match *self {
                Setting::Dict(entries) => match r {
                    Some(t) => text_under(entries@, key@) == Some(t@),
                    None => text_under(entries@, key@) is None,
                },
                _ => r is None,
            },
    {
        match self {
            Setting::Dict(entries) => {
                let mut i: usize = 0;
                assert(entries@.skip(0) =~= entries@);
                while i < entries.len()
                    invariant
                        i <= entries@.len(),
                        *self == Setting::Dict(*entries),
                        text_under(entries@, key@) == text_under(entries@.skip(i as int), key@),
                    decreases entries@.len() - i,
                {
                    assert(entries@.skip(i as int)[0] == entries@[i as int]);
                    assert(entries@.skip(i as int).drop_first() =~= entries@.skip(i + 1));
                    if crate::text::same_text(entries[i].0.as_str(), key) {
                        return Some(entries[i].1.as_str());
                    }
                    i = i + 1;
                }
                None
            },
            _ => None,
        }
    }
}

/// What the owner's configuration recorded: its options and globals (each
/// name once), its mappings in order, and the error that stopped it, if any.
#[derive(Debug, Default)]
pub struct NvimConfig {
    pub path: Option<String>,
    pub options: Vec<(String, Setting)>,
    pub globals: Vec<(String, Setting)>,
    pub mappings: Vec<Mapping>,
    pub error: Option<String>,
}

/// The setting recorded under `name` (the first entry so named).
pub open spec fn setting_named(entries: Seq<(String, Setting)>, name: Seq<char>) -> Option<Setting>
    decreases entries.len(),
{
    if entries.len() == 0 {
        None
    } else if entries[0].0@ == name {
        Some(entries[0].1)
    } else {
        setting_named(entries.drop_first(), name)
    }
}

fn find_setting<'a>(entries: &'a Vec<(String, Setting)>, name: &str) -> (r: Option<&'a Setting>)
    ensures
        match r {
            Some(s) => setting_named(entries@, name@) == Some(*s),
            None => setting_named(entries@, name@) is None,
        },
{
    let mut i: usize = 0;
    assert(entries@.skip(0) =~= entries@);
    while i < entries.len()
        invariant
            i <= entries@.len(),
            setting_named(entries@, name@) == setting_named(entries@.skip(i as int), name@),
        decreases entries@.len() - i,
    {
        assert(entries@.skip(i as int)[0] == entries@[i as int]);
        assert(entries@.skip(i as int).drop_first() =~= entries@.skip(i + 1));
        if crate::text::same_text(entries[i].0.as_str(), name) {
            return Some(&entries[i].1);
        }
        i = i + 1;
    }
    None
}

/// The leader a configuration sets: `mapleader` when it is non-empty text,
/// else a backslash.
pub open spec fn leader_of(globals: Seq<(String, Setting)>) -> Seq<char> {
    match setting_named(globals, "mapleader"@) {
        Some(Setting::Text(k)) => if k@.len() > 0 { k@ } else { "\\"@ },
        _ => "\\"@,
    }
}

impl NvimConfig {
    pub fn option(&self, name: &str) -> (r: Option<&Setting>)
        ensures
            match r {
                Some(s) => setting_named(self.options@, name@) == Some(*s),
                None => setting_named(self.options@, name@) is None,
            },
    {
        find_setting(&self.options, name)
    }

    /// A boolean option, `fallback` when it is unset or no boolean.
    pub fn bool_option(&self, name: &str, fallback: bool) -> (b: bool)
        ensures
            b == match setting_named(self.options@, name@) {
                Some(Setting::Bool(v)) => v,
                _ => fallback,
            },
    {
        match self.option(name) {
            Some(Setting::Bool(v)) => *v,
            _ => fallback,
        }
    }

    /// A count option, `fallback` when it is unset or no count.
    pub fn usize_option(&self, name: &str, fallback: usize) -> (n: usize)
        ensures
            n == match setting_named(self.options@, name@) {
                Some(Setting::Number(Some(v))) => v,
                _ => fallback,
            },
    {
        match self.option(name) {
            Some(Setting::Number(Some(v))) => *v,
            _ => fallback,
        }
    }

    pub fn leader(&self) -> (s: String)
        ensures
            s@ == leader_of(self.globals@),
    {
        proof {
            reveal_strlit("\\");
        }
        match find_setting(&self.globals, "mapleader") {
            Some(Setting::Text(key)) => if !key.as_str().is_empty() { key.clone() } else { "\\".to_owned() },
            _ => "\\".to_owned(),
        }
    }
}

} // verus!

verus! {

/// A boolean option of `opts`, `fallback` when unset or no boolean.
pub open spec fn bool_setting(opts: Seq<(String, Setting)>, name: Seq<char>, fallback: bool) -> bool {
    match setting_named(opts, name) {
        Some(Setting::Bool(v)) => v,
        _ => fallback,
    }
}

/// A count option of `opts`, `fallback` when unset or no count.
pub open spec fn count_setting(opts: Seq<(String, Setting)>, name: Seq<char>, fallback: usize) -> usize {
    match setting_named(opts, name) {
        Some(Setting::Number(Some(v))) => v,
        _ => fallback,
    }
}

/// The first character stored under `key` in the map option `name`.
pub open spec fn first_char_under(opts: Seq<(String, Setting)>, name: Seq<char>, key: Seq<char>) -> Option<char> {
    match setting_named(opts, name) {
        Some(Setting::Dict(entries)) => match text_under(entries@, key) {
            Some(t) => if t.len() > 0 { Some(t[0]) } else { None },
            None => None,
        },
        _ => None,
    }
}

/// The editor's options a configuration sets, Vim's defaults where it sets
/// none: a shift width of at least 1, the two list characters taken from
/// the first character of `listchars`' `tab` and `trail`, and the system
/// clipboard used when `clipboard` is text naming `unnamed`.
pub open spec fn options_of(opts: Seq<(String, Setting)>) -> Options {
    let d = default_options();
    let sw = count_setting(opts, "shiftwidth"@, d.shiftwidth);
    Options {
        shiftwidth: if sw > 1 { sw } else { 1 },
        expandtab: bool_setting(opts, "expandtab"@, d.expandtab),
        number: bool_setting(opts, "number"@, d.number),
        relativenumber: bool_setting(opts, "relativenumber"@, d.relativenumber),
        cursorline: bool_setting(opts, "cursorline"@, d.cursorline),
        ignorecase: bool_setting(opts, "ignorecase"@, d.ignorecase),
        smartcase: bool_setting(opts, "smartcase"@, d.smartcase),
        hlsearch: bool_setting(opts, "hlsearch"@, d.hlsearch),
        list: bool_setting(opts, "list"@, d.list),
        listchar_tab: match first_char_under(opts, "listchars"@, "tab"@) {
            Some(c) => c,
            None => d.listchar_tab,
        },
        listchar_trail: match first_char_under(opts, "listchars"@, "trail"@) {
            Some(c) => c,
            None => d.listchar_trail,
        },
        clipboard_unnamed: match setting_named(opts, "clipboard"@) {
            Some(Setting::Text(t)) => find_seq(t@, "unnamed"@, 0) >= 0,
            Some(_) => false,
            None => d.clipboard_unnamed,
        },
        splitbelow: bool_setting(opts, "splitbelow"@, d.splitbelow),
        splitright: bool_setting(opts, "splitright"@, d.splitright),
    }
}

impl NvimConfig {
    fn first_char(&self, name: &str, key: &str) -> (r: Option<char>)
        ensures
            r == first_char_under(self.options@, name@, key@),
    {
        match self.option(name) {
            Some(set) => match set.get(key) {
                Some(text) => {
                    let v = chars_of(text);
                    if v.len() > 0 { Some(v[0]) } else { None }
                },
                None => None,
            },
            None => None,
        }
    }
}

impl Options {
    /// The options `config` sets, as `options_of` says.
    pub fn from_config(config: &NvimConfig) -> (o: Options)
        ensures
            o == options_of(config.options@),
    {
        let fallback = Options::default();
        let sw = config.usize_option("shiftwidth", fallback.shiftwidth);
        let tab = match config.first_char("listchars", "tab") {
            Some(c) => c,
            None => fallback.listchar_tab,
        };
        let trail = match config.first_char("listchars", "trail") {
            Some(c) => c,
            None => fallback.listchar_trail,
        };
        let clipboard = match config.option("clipboard") {
            Some(Setting::Text(t)) => {
                let v = chars_of(t.as_str());
                let pat = chars_of("unnamed");
                find_in(v.as_slice(), pat.as_slice(), 0).is_some()
            },
            Some(_) => false,
            None => fallback.clipboard_unnamed,
        };
        Options {
            shiftwidth: if sw > 1 { sw } else { 1 },
            expandtab: config.bool_option("expandtab", fallback.expandtab),
            number: config.bool_option("number", fallback.number),
            relativenumber: config.bool_option("relativenumber", fallback.relativenumber),
            cursorline: config.bool_option("cursorline", fallback.cursorline),
            ignorecase: config.bool_option("ignorecase", fallback.ignorecase),
            smartcase: config.bool_option("smartcase", fallback.smartcase),
            hlsearch: config.bool_option("hlsearch", fallback.hlsearch),
            list: config.bool_option("list", fallback.list),
            listchar_tab: tab,
            listchar_trail: trail,
            clipboard_unnamed: clipboard,
            splitbelow: config.bool_option("splitbelow", fallback.splitbelow),
            splitright: config.bool_option("splitright", fallback.splitright),
        }
    }
}

} // verus!

verus! {

/// The characters of a mapping's left-hand side.
pub open spec fn lhs_len(m: Mapping) -> nat {
    m.lhs@.len()
}

/// `m` placed into `s` after every leading mapping at least as long.
pub open spec fn insert_longest_first(s: Seq<Mapping>, m: Mapping) -> Seq<Mapping>
    decreases s.len(),
{
    if s.len() == 0 {
        seq![m]
    } else if lhs_len(s[0]) >= lhs_len(m) {
        seq![s[0]] + insert_longest_first(s.drop_first(), m)
    } else {
        seq![m] + s
    }
}

/// The mappings of `ms` whose modes include `mode`, longest left-hand side
/// first, in their order among equals.
pub open spec fn for_mode_of(ms: Seq<Mapping>, mode: char) -> Seq<Mapping>
    decreases ms.len(),
{
    if ms.len() == 0 {
        Seq::empty()
    } else {
        let rest = for_mode_of(ms.drop_last(), mode);
        if ms.last().mode@.contains(mode) {
            insert_longest_first(rest, ms.last())
        } else {
            rest
        }
    }
}

proof fn lemma_insert_at(s: Seq<Mapping>, m: Mapping, p: int)
    requires
        0 <= p <= s.len(),
        forall|j: int| 0 <= j < p ==> lhs_len(#[trigger] s[j]) >= lhs_len(m),
        p < s.len() ==> lhs_len(s[p]) < lhs_len(m),
    ensures
        insert_longest_first(s, m) == s.take(p).push(m) + s.skip(p),
    decreases p,
{
    if p == 0 {
        if s.len() > 0 {
            assert(seq![m] + s =~= s.take(0).push(m) + s.skip(0));
        } else {
            assert(seq![m] =~= s.take(0).push(m) + s.skip(0));
        }
    } else {
        let t = s.drop_first();
        assert forall|j: int| 0 <= j < p - 1 implies lhs_len(#[trigger] t[j]) >= lhs_len(m) by {
            assert(t[j] == s[j + 1]);
        }
        if p < s.len() {
            assert(t[p - 1] == s[p]);
        }
        lemma_insert_at(t, m, p - 1);
        assert(seq![s[0]] + (t.take(p - 1).push(m) + t.skip(p - 1)) =~= s.take(p).push(m) + s.skip(p));
    }
}

impl NvimConfig {
    /// Mappings for one mode, longest left-hand side first so that `ss` is
    /// matched before `s`.
    pub fn for_mode(&self, mode: char) -> (found: Vec<&Mapping>)
        ensures
            found@.map_values(|m: &Mapping| *m) == for_mode_of(self.mappings@, mode),
    {
        let mut found: Vec<&Mapping> = Vec::new();
        let mut i: usize = 0;
        while i < self.mappings.len()
            invariant
                i <= self.mappings@.len(),
                found@.map_values(|m: &Mapping| *m) == for_mode_of(self.mappings@.take(i as int), mode),
            decreases self.mappings@.len() - i,
        {
            let m = &self.mappings[i];
            let ghost before = found@.map_values(|m: &Mapping| *m);
            let ghost ms = self.mappings@.take(i + 1);
            assert(ms.drop_last() =~= self.mappings@.take(i as int));
            assert(ms.last() == *m);
            let modes = chars_of(m.mode.as_str());
            let mut has = false;
            let mut q: usize = 0;
            while q < modes.len()
                invariant
                    q <= modes@.len(),
                    modes@ == m.mode@,
                    has == exists|j: int| 0 <= j < q && modes@[j] == mode,
                decreases modes@.len() - q,
            {
                if modes[q] == mode {
                    has = true;
                }
                q = q + 1;
            }
            assert(has == m.mode@.contains(mode));
            if has {
                let k = chars_of(m.lhs.as_str()).len();
                let mut p: usize = 0;
                while p < found.len() && chars_of(found[p].lhs.as_str()).len() >= k
                    invariant
                        p <= found@.len(),
                        k == lhs_len(*m),
                        before == found@.map_values(|m: &Mapping| *m),
                        forall|j: int| 0 <= j < p ==> lhs_len(#[trigger] before[j]) >= k,
                    decreases found@.len() - p,
                {
                    p = p + 1;
                }
                proof {
                    lemma_insert_at(before, *m, p as int);
                }
                found.insert(p, m);
                assert(found@.map_values(|m: &Mapping| *m) =~= before.take(p as int).push(*m) + before.skip(p as int));
            }
            i = i + 1;
        }
        assert(self.mappings@.take(self.mappings@.len() as int) =~= self.mappings@);
        found
    }
}

} // verus!
