//! The editing core's modes, registers, requests to the host and options.

use vstd::prelude::*;
use crate::editcore::buffer::{Buffer, FileRead, OpenError};
use crate::editcore::buffers::{contains_id, index_of, BufferId, BufferStore};
use crate::editcore::key::Key;
use crate::editcore::vcs::{VcsRequest, VcsState};
use crate::editcore::window::{leaves, Tabs, WindowId, WindowView};
use crate::keymap::Keymap;
use crate::text::{chars_of, is_uppercase, string_of, unicode_uppercase};

verus! {

#[derive(Clone, Copy, PartialEq, Eq, Debug, Structural)]
pub enum Visual {
    Char,
    Line,
}

#[derive(Clone, Copy, PartialEq, Eq, Debug, Structural)]
pub enum Mode {
    Normal,
    Insert,
    Visual(Visual),
    /// The `:`, `/` and `?` lines.
    Cmdline,
}

impl Mode {
    /// The name this mode reports over the UI protocol; a client keys its
    /// cursor shape off it.
    pub fn protocol_name(self) -> (s: &'static str)
        ensures
            s@ == match self {
                Mode::Normal => "normal"@,
                Mode::Insert => "insert"@,
                Mode::Visual(_) => "visual"@,
                Mode::Cmdline => "cmdline_normal"@,
            },
    {
        match self {
            Mode::Normal => "normal",
            Mode::Insert => "insert",
            Mode::Visual(_) => "visual",
            Mode::Cmdline => "cmdline_normal",
        }
    }

    /// The short name `mode()` gives in Vim.
    pub fn short_name(self) -> (s: &'static str)
        ensures
            s@ == match self {
                Mode::Normal => "n"@,
                Mode::Insert => "i"@,
                Mode::Visual(Visual::Char) => "v"@,
                Mode::Visual(Visual::Line) => "V"@,
                Mode::Cmdline => "c"@,
            },
    {
        match self {
            Mode::Normal => "n",
            Mode::Insert => "i",
            Mode::Visual(Visual::Char) => "v",
            Mode::Visual(Visual::Line) => "V",
            Mode::Cmdline => "c",
        }
    }
}

/// What a yank or delete left: its lines, and whether it was whole lines.
#[derive(Clone, Debug, Default)]
pub struct Register {
    pub lines: Vec<String>,
    pub linewise: bool,
}

/// Strings as character sequences.
pub open spec fn texts(v: Seq<String>) -> Seq<Seq<char>> {
    v.map_values(|s: String| s@)
}

/// A register as mathematical values: its lines and whether they are whole.
pub open spec fn reg_view(r: Register) -> (Seq<Seq<char>>, bool) {
    (texts(r.lines@), r.linewise)
}

pub fn copy_strings(v: &Vec<String>) -> (r: Vec<String>)
    ensures
        texts(r@) == texts(v@),
{
    let mut r: Vec<String> = Vec::new();
    let mut i: usize = 0;
    while i < v.len()
        invariant
            i <= v@.len(),
            r@.len() == i,
            forall|j: int| 0 <= j < i ==> #[trigger] r@[j]@ == v@[j]@,
        decreases v@.len() - i,
    {
        r.push(v[i].clone());
        i = i + 1;
    }
    assert(texts(r@) =~= texts(v@));
    r
}

impl Register {
    pub fn copy(&self) -> (r: Register)
        ensures
            reg_view(r) == reg_view(*self),
    {
        Register { lines: copy_strings(&self.lines), linewise: self.linewise }
    }
}

/// What the navigation surface should offer: notes first, files kept
/// reachable.
#[derive(Clone, Copy, PartialEq, Eq, Debug, Structural)]
pub enum Scope {
    Notes,
    Files,
}

/// Something the editing core cannot do by itself and hands to the host.
#[derive(Clone, PartialEq, Eq, Debug)]
pub enum Request {
    /// Open the navigation surface.
    OpenNavigation(Scope),
    Quit,
    /// A file the host should make current.
    Edit(String),
    /// Write `text` to the file at `path` (its directory made if missing),
    /// then report back through `Editor::wrote`; `explicit` when the path was
    /// named on the `:` line.
    Write {
        path: String,
        text: String,
        explicit: bool,
        then_quit: bool,
    },
    /// A new note by title.
    NewNote(String),
    /// Follow the `[[link]]` under the cursor.
    FollowLink,
    /// Ask the language server for completions.
    Completion,
    /// Show the diagnostic under the cursor, or hover as a fallback.
    DiagnosticFloat,
    /// Jump to the definition under the cursor.
    Definition,
    /// An Ex command a plugin registered.
    Plugin {
        name: String,
        argument: String,
    },
    /// Set the buffer as a vertical page.
    Preview,
    /// A read-only version-control view.
    Vcs(VcsRequest),
    /// A file browser mapping: the host shows a file tree for the command.
    FileTree(String),
}

/// The options this editor acts on, read out of the owner's config.
#[derive(Clone, Copy, Debug, PartialEq)]
pub struct Options {
    pub shiftwidth: usize,
    pub expandtab: bool,
    pub number: bool,
    pub relativenumber: bool,
    pub cursorline: bool,
    pub ignorecase: bool,
    pub smartcase: bool,
    pub hlsearch: bool,
    /// `list` with `listchars`.
    pub list: bool,
    pub listchar_tab: char,
    pub listchar_trail: char,
    /// `clipboard = unnamedplus`: yanks and deletes reach the system
    /// clipboard, and puts come back from it.
    pub clipboard_unnamed: bool,
    pub splitbelow: bool,
    pub splitright: bool,
}

/// Vim's defaults, used only when there is no config to read.
pub open spec fn default_options() -> Options {
    Options {
        shiftwidth: 8,
        expandtab: false,
        number: false,
        relativenumber: false,
        cursorline: false,
        ignorecase: false,
        smartcase: false,
        hlsearch: true,
        list: false,
        listchar_tab: '>',
        listchar_trail: '-',
        clipboard_unnamed: false,
        splitbelow: false,
        splitright: false,
    }
}

impl Default for Options {
    fn default() -> (o: Options)
        ensures
            o == default_options(),
    {
        Options {
            shiftwidth: 8,
            expandtab: false,
            number: false,
            relativenumber: false,
            cursorline: false,
            ignorecase: false,
            smartcase: false,
            hlsearch: true,
            list: false,
            listchar_tab: '>',
            listchar_trail: '-',
            clipboard_unnamed: false,
            splitbelow: false,
            splitright: false,
        }
    }
}

/// One level of indentation: `shiftwidth` spaces with `expandtab`, else a tab.
pub open spec fn indent_text(o: Options) -> Seq<char> {
    if o.expandtab {
        Seq::new(o.shiftwidth as nat, |i: int| ' ')
    } else {
        seq!['\t']
    }
}

/// Whether a search for `pattern` tells case apart: always without
/// `ignorecase`; with it, only under `smartcase` and when the pattern has a
/// capital.
pub open spec fn spec_case_sensitive(o: Options, pattern: Seq<char>) -> bool {
    !o.ignorecase || (o.smartcase && exists|i: int| 0 <= i < pattern.len() && unicode_uppercase(#[trigger] pattern[i]))
}

/// The gutter number of `line`: absolute with `number`, distance from the
/// cursor line with `relativenumber` (the cursor line itself absolute).
pub open spec fn gutter_number(o: Options, line: int, cursor_line: int) -> Option<int> {
    if !o.number && !o.relativenumber {
        None
    } else if !o.relativenumber {
        Some(line + 1)
    } else if line == cursor_line {
        Some(line + 1)
    } else if line >= cursor_line {
        Some(line - cursor_line)
    } else {
        Some(cursor_line - line)
    }
}

impl Options {
    pub fn indent(&self) -> (s: String)
        ensures
            s@ == indent_text(*self),
    {
        if self.expandtab {
            let mut v: Vec<char> = Vec::new();
            while v.len() < self.shiftwidth
                invariant
                    v@.len() <= self.shiftwidth,
                    forall|i: int| 0 <= i < v@.len() ==> #[trigger] v@[i] == ' ',
                decreases self.shiftwidth - v@.len(),
            {
                v.push(' ');
            }
            assert(v@ =~= indent_text(*self));
            crate::text::string_of(v.as_slice())
        } else {
            let v: Vec<char> = vec!['\t'];
            assert(v@ =~= indent_text(*self));
            crate::text::string_of(v.as_slice())
        }
    }

    /// `smartcase` applies only on top of `ignorecase`, and it is the pattern
    /// that decides: a capital in it was typed on purpose.
    pub fn case_sensitive(&self, pattern: &str) -> (r: bool)
        ensures
            r == spec_case_sensitive(*self, pattern@),
    {
        if !self.ignorecase {
            return true;
        }
        if !self.smartcase {
            return false;
        }
        let chars = chars_of(pattern);
        let mut i: usize = 0;
        while i < chars.len()
            invariant
                chars@ == pattern@,
                self.ignorecase,
                self.smartcase,
                i <= chars@.len(),
                forall|j: int| 0 <= j < i ==> !unicode_uppercase(#[trigger] pattern@[j]),
            decreases chars@.len() - i,
        {
            if is_uppercase(chars[i]) {
                assert(unicode_uppercase(pattern@[i as int]));
                return true;
            }
            i = i + 1;
        }
        false
    }

    /// The gutter number for `line`, given where the cursor is.
    pub fn line_number(&self, line: usize, cursor_line: usize) -> (r: Option<usize>)
        requires
            (self.number && !self.relativenumber) || (self.relativenumber && line == cursor_line)
                ==> line < usize::MAX,
        ensures
            match r {
                Some(n) => gutter_number(*self, line as int, cursor_line as int) == Some(n as int),
                None => gutter_number(*self, line as int, cursor_line as int) is None,
            },
    {
        if !self.number && !self.relativenumber {
            None
        } else if !self.relativenumber {
            Some(line + 1)
        } else if line == cursor_line {
            Some(line + 1)
        } else if line >= cursor_line {
            Some(line - cursor_line)
        } else {
            Some(cursor_line - line)
        }
    }
}


/// A line shown to the owner below the text, and whether it reports a failure.
#[derive(Clone, PartialEq, Eq, Debug)]
pub struct Message {
    pub text: String,
    pub error: bool,
}

pub fn message(text: &str, error: bool) -> (m: Message)
    ensures
        m.text@ == text@,
        m.error == error,
{
    Message { text: text.to_string(), error }
}

/// What an operator key does to the span it is given.
#[derive(Clone, Copy, PartialEq, Eq, Debug, Structural)]
pub enum Operator {
    Delete,
    Change,
    Yank,
    Indent,
    Dedent,
    /// Replace the span with the unnamed register instead of deleting it.
    Substitute,
}

/// The first half of a two-key command, waiting for its second key.
#[derive(Clone, Copy, PartialEq, Eq, Debug, Structural)]
pub enum Await {
    G,
    Find { forward: bool, till: bool },
    Replace,
    Z,
    Leader,
    Register,
    Window,
    Bracket { forward: bool },
}

/// A command being typed: its counts, operator, awaited argument and register.
#[derive(Clone, Copy, PartialEq, Eq, Debug, Structural)]
pub struct Pending {
    pub count: Option<usize>,
    pub operator: Option<Operator>,
    pub operator_count: Option<usize>,
    pub awaiting: Option<Await>,
    pub register: Option<char>,
}

pub open spec fn no_pending() -> Pending {
    Pending { count: None, operator: None, operator_count: None, awaiting: None, register: None }
}

pub open spec fn opt_or(o: Option<usize>, d: usize) -> usize {
    match o {
        Some(v) => v,
        None => d,
    }
}

/// Counts multiply: `2d3w` deletes six words. The product saturates.
pub open spec fn total_count(p: Pending) -> usize {
    let a = opt_or(p.count, 1);
    let b = opt_or(p.operator_count, 1);
    if a * b > usize::MAX { usize::MAX } else { (a * b) as usize }
}

impl Pending {
    pub fn none() -> (p: Pending)
        ensures
            p == no_pending(),
    {
        Pending { count: None, operator: None, operator_count: None, awaiting: None, register: None }
    }

    pub fn total_count(&self) -> (n: usize)
        ensures
            n == total_count(*self),
    {
        let a = match self.count {
            Some(v) => v,
            None => 1,
        };
        let b = match self.operator_count {
            Some(v) => v,
            None => 1,
        };
        match a.checked_mul(b) {
            Some(v) => v,
            None => usize::MAX,
        }
    }

    pub fn has_count(&self) -> (r: bool)
        ensures
            r == (self.count is Some || self.operator_count is Some),
    {
        self.count.is_some() || self.operator_count.is_some()
    }
}

/// The length of line `l`, or 0 past the end.
pub open spec fn line_len_of(lines: Seq<Seq<char>>, l: int) -> int {
    if 0 <= l < lines.len() {
        lines[l].len() as int
    } else {
        0
    }
}

/// Where the cursor is allowed to sit: on a line that exists, on a character
/// in normal and visual mode, and up to one past the end in insert mode and
/// on the `:` line.
pub open spec fn clamped(lines: Seq<Seq<char>>, cursor: (usize, usize), mode: Mode) -> (usize, usize) {
    let last = if lines.len() == 0 { 0 } else { lines.len() - 1 };
    let line = if cursor.0 < last { cursor.0 as int } else { last };
    let len = line_len_of(lines, line);
    let limit = match mode {
        Mode::Insert | Mode::Cmdline => len,
        _ => if len > 0 { len - 1 } else { 0 },
    };
    (line as usize, if cursor.1 < limit { cursor.1 } else { limit as usize })
}

/// The first view shown in window `id` from position `i` on, or -1.
pub open spec fn view_pos_from(views: Seq<WindowView>, id: u64, i: int) -> int
    decreases views.len() - i,
{
    if i < 0 || i >= views.len() {
        -1
    } else if views[i].id.0 == id {
        i
    } else {
        view_pos_from(views, id, i + 1)
    }
}

pub open spec fn view_pos(views: Seq<WindowView>, id: u64) -> int {
    view_pos_from(views, id, 0)
}

pub proof fn lemma_view_pos_from(views: Seq<WindowView>, id: u64, i: int)
    requires
        0 <= i,
    ensures
        view_pos_from(views, id, i) == -1 || (i <= view_pos_from(views, id, i) < views.len()
            && views[view_pos_from(views, id, i)].id.0 == id),
    decreases views.len() - i,
{
    if i < views.len() && views[i].id.0 != id {
        lemma_view_pos_from(views, id, i + 1);
    }
}

/// The views of windows `ids`, in that order; a window without a view is
/// passed over.
pub open spec fn shown_views(views: Seq<WindowView>, ids: Seq<u64>) -> Seq<WindowView>
    decreases ids.len(),
{
    if ids.len() == 0 {
        Seq::empty()
    } else {
        let before = shown_views(views, ids.drop_last());
        let p = view_pos(views, ids.last());
        if p >= 0 { before.push(views[p]) } else { before }
    }
}

pub fn find_view(views: &Vec<WindowView>, id: WindowId) -> (r: Option<usize>)
    ensures
        match r {
            Some(k) => k as int == view_pos(views@, id.0) && k < views@.len() && views@[k as int].id == id,
            None => view_pos(views@, id.0) == -1,
        },
{
    let mut i: usize = 0;
    while i < views.len()
        invariant
            i <= views@.len(),
            view_pos_from(views@, id.0, i as int) == view_pos(views@, id.0),
        decreases views@.len() - i,
    {
        if views[i].id.0 == id.0 {
            return Some(i);
        }
        i = i + 1;
    }
    None
}

/// The first register named `name` from position `i` on.
pub open spec fn reg_from(regs: Seq<(char, Register)>, name: char, i: int) -> Option<(Seq<Seq<char>>, bool)>
    decreases regs.len() - i,
{
    if i < 0 || i >= regs.len() {
        None
    } else if regs[i].0 == name {
        Some(reg_view(regs[i].1))
    } else {
        reg_from(regs, name, i + 1)
    }
}

/// What register `name` holds.
pub open spec fn reg_of(regs: Seq<(char, Register)>, name: char) -> Option<(Seq<Seq<char>>, bool)> {
    reg_from(regs, name, 0)
}

pub fn find_register(regs: &Vec<(char, Register)>, name: char) -> (r: Option<usize>)
    ensures
        match r {
            Some(k) => k < regs@.len() && regs@[k as int].0 == name && reg_of(regs@, name) == Some(
                reg_view(regs@[k as int].1),
            ),
            None => reg_of(regs@, name) is None,
        },
{
    let mut i: usize = 0;
    while i < regs.len()
        invariant
            i <= regs@.len(),
            reg_from(regs@, name, i as int) == reg_of(regs@, name),
        decreases regs@.len() - i,
    {
        if regs[i].0 == name {
            return Some(i);
        }
        i = i + 1;
    }
    None
}

proof fn lemma_reg_set(regs: Seq<(char, Register)>, k: int, value: Register, name: char, i: int)
    requires
        0 <= i,
        0 <= k < regs.len(),
        forall|j: int| i <= j < k ==> regs[j].0 != regs[k].0,
    ensures
        reg_from(regs.update(k, (regs[k].0, value)), name, i) == if name == regs[k].0 && i <= k {
            Some(reg_view(value))
        } else {
            reg_from(regs, name, i)
        },
    decreases regs.len() - i,
{
    if i < regs.len() {
        assert(regs.update(k, (regs[k].0, value))[i] == if i == k { (regs[k].0, value) } else { regs[i] });
        lemma_reg_set(regs, k, value, name, i + 1);
    }
}

proof fn lemma_reg_push(regs: Seq<(char, Register)>, entry: (char, Register), name: char, i: int)
    requires
        0 <= i <= regs.len(),
        forall|j: int| i <= j < regs.len() ==> regs[j].0 != entry.0,
    ensures
        reg_from(regs.push(entry), name, i) == if name == entry.0 {
            Some(reg_view(entry.1))
        } else {
            reg_from(regs, name, i)
        },
    decreases regs.len() - i,
{
    if i < regs.len() {
        assert(regs.push(entry)[i] == regs[i]);
        lemma_reg_push(regs, entry, name, i + 1);
    } else {
        assert(regs.push(entry)[i] == entry);
        assert(reg_from(regs.push(entry), name, i + 1) is None);
        assert(reg_from(regs, name, i) is None);
    }
}

/// Puts `value` in register `name`; every other register keeps what it held.
pub fn set_register(regs: &mut Vec<(char, Register)>, name: char, value: Register)
    ensures
        forall|n: char| #[trigger] reg_of(final(regs)@, n) == if n == name {
            Some(reg_view(value))
        } else {
            reg_of(old(regs)@, n)
        },
{
    let ghost before = regs@;
    let ghost v = value;
    let mut i: usize = 0;
    while i < regs.len()
        invariant
            regs@ == before,
            before == old(regs)@,
            v == value,
            i <= regs@.len(),
            forall|j: int| 0 <= j < i ==> regs@[j].0 != name,
        decreases regs@.len() - i,
    {
        if regs[i].0 == name {
            let entry = (name, value);
            assert(entry == (before[i as int].0, v));
            regs.set(i, entry);
            assert(regs@ == before.update(i as int, (before[i as int].0, v)));
            proof {
                assert forall|n: char| #[trigger] reg_of(regs@, n) == if n == name {
                    Some(reg_view(v))
                } else {
                    reg_of(before, n)
                } by {
                    assert(before[i as int].0 == name);
                    assert(regs@ == before.update(i as int, (before[i as int].0, v)));
                    lemma_reg_set(before, i as int, v, n, 0);
                }
            }
            return;
        }
        i = i + 1;
    }
    regs.push((name, value));
    proof {
        assert forall|n: char| #[trigger] reg_of(regs@, n) == if n == name {
            Some(reg_view(v))
        } else {
            reg_of(before, n)
        } by {
            lemma_reg_push(before, (name, v), n, 0);
        }
    }
}

/// The editing state: the current buffer and cursor, the mode, what is being
/// typed, registers, the windows and what the host has been asked to do.
pub struct Editor {
    /// The focused window's buffer, as edited; written back to `buffers`
    /// whenever the focus moves.
    pub buffer: Buffer,
    pub buffers: BufferStore,
    pub tabs: Tabs,
    /// What each window shows; at most one entry per window.
    pub views: Vec<WindowView>,
    pub cursor: (usize, usize),
    /// The column `j` and `k` aim for.
    pub desired_col: usize,
    pub mode: Mode,
    pub pending: Pending,
    pub registers: Vec<(char, Register)>,
    pub cmdline: String,
    pub cmdline_prefix: char,
    pub cmdline_cursor: usize,
    pub message: Option<Message>,
    pub last_search: Option<String>,
    pub last_search_forward: bool,
    pub visual_anchor: (usize, usize),
    pub top_line: usize,
    pub view_rows: usize,
    pub options: Options,
    /// Ex command names that reach a plugin.
    pub plugin_commands: Vec<String>,
    pub keymap: Keymap,
    /// Keys typed that are still a prefix of some mapping.
    pub pending_keys: Vec<Key>,
    pub requests: Vec<Request>,
    pub vcs: VcsState,
    /// Set while the host owns input; keys are then not interpreted.
    pub suspended: bool,
    /// With `clipboard = unnamedplus`, the system clipboard as the host last
    /// read it; a yank or delete replaces it for the host to write out.
    pub clipboard: Option<String>,
    /// The home directory, for `~/` in file names.
    pub home: Option<String>,
}

impl Editor {
    /// The state every operation keeps: buffers that can be undone, a cursor
    /// on a line that exists and within it, at least one row in view.
    pub open spec fn wf(&self) -> bool {
        &&& self.buffer@.wf()
        &&& self.buffers@.wf()
        &&& self.tabs@.wf()
        &&& self.cursor.0 < self.buffer@.lines.len()
        &&& self.cursor.1 <= self.buffer@.lines[self.cursor.0 as int].len()
        &&& self.view_rows >= 1
    }

    pub fn new(buffer: Buffer) -> (e: Editor)
        requires
            buffer@.wf(),
        ensures
            e.wf(),
            e.buffer@ == buffer@,
            e.cursor == (0usize, 0usize),
            e.mode == Mode::Normal,
            e.pending == no_pending(),
            e.registers@.len() == 0,
            e.requests@.len() == 0,
            e.message is None,
            e.keymap@.len() == 0,
            e.options == default_options(),
            e.views@.len() == 1,
            e.tabs@.focus() == 1,
            !e.suspended,
    {
        let stored = buffer.clone();
        let buffers = BufferStore::new(stored);
        let first = WindowId(1);
        let views = vec![WindowView::new(first, 2, BufferId(1))];
        Editor {
            buffer,
            buffers,
            tabs: Tabs::new(first),
            views,
            cursor: (0, 0),
            desired_col: 0,
            mode: Mode::Normal,
            pending: Pending::none(),
            registers: Vec::new(),
            cmdline: String::new(),
            cmdline_prefix: ':',
            cmdline_cursor: 0,
            message: None,
            last_search: None,
            last_search_forward: true,
            visual_anchor: (0, 0),
            top_line: 0,
            view_rows: 24,
            options: Options::default(),
            plugin_commands: Vec::new(),
            keymap: Keymap::empty(),
            pending_keys: Vec::new(),
            requests: Vec::new(),
            vcs: VcsState::default(),
            suspended: false,
            clipboard: None,
            home: None,
        }
    }

    /// An editor that behaves the way the owner's config says: its options,
    /// and its mappings with `<Leader>` read as `leader`.
    pub fn with_settings(buffer: Buffer, options: Options, mappings: &Vec<crate::luaconf::Mapping>, leader: &str) -> (e: Editor)
        requires
            buffer@.wf(),
        ensures
            e.wf(),
            e.buffer@ == buffer@,
            e.options == options,
            crate::keymap::describes(e.keymap@, crate::keymap::bindings(mappings@, leader@), mappings@.len() as int, 0),
            e.mode == Mode::Normal,
            e.cursor == (0usize, 0usize),
    {
        let mut editor = Editor::new(buffer);
        editor.options = options;
        editor.keymap = Keymap::from_mappings(mappings, leader);
        editor
    }

    /// An editor that behaves the way the owner's `init.lua` says: its
    /// options and its mappings, under the leader it sets.
    pub fn with_config(buffer: Buffer, config: &crate::luaconf::NvimConfig) -> (e: Editor)
        requires
            buffer@.wf(),
        ensures
            e.wf(),
            e.buffer@ == buffer@,
            e.options == crate::luaconf::options_of(config.options@),
            crate::keymap::describes(
                e.keymap@,
                crate::keymap::bindings(config.mappings@, crate::luaconf::leader_of(config.globals@)),
                config.mappings@.len() as int,
                0,
            ),
            e.mode == Mode::Normal,
            e.cursor == (0usize, 0usize),
    {
        let leader = config.leader();
        Editor::with_settings(buffer, Options::from_config(config), &config.mappings, leader.as_str())
    }

    pub fn set_plugin_commands(&mut self, names: Vec<String>)
        ensures
            final(self).plugin_commands == names,
    {
        self.plugin_commands = names;
    }

    pub fn is_plugin_command(&self, name: &str) -> (r: bool)
        ensures
            r == exists|i: int| 0 <= i < self.plugin_commands@.len() && #[trigger] self.plugin_commands@[i]@ == name@,
    {
        let mut i: usize = 0;
        while i < self.plugin_commands.len()
            invariant
                i <= self.plugin_commands@.len(),
                forall|j: int| 0 <= j < i ==> #[trigger] self.plugin_commands@[j]@ != name@,
            decreases self.plugin_commands@.len() - i,
        {
            if crate::text::same_text(self.plugin_commands[i].as_str(), name) {
                return true;
            }
            i = i + 1;
        }
        false
    }

    pub fn mapping_count(&self) -> (n: usize)
        ensures
            n == self.keymap@.len(),
    {
        self.keymap.len()
    }

    pub fn buffer(&self) -> (b: &Buffer)
        ensures
            b == &self.buffer,
    {
        &self.buffer
    }

    pub fn cursor(&self) -> (c: (usize, usize))
        ensures
            c == self.cursor,
    {
        self.cursor
    }

    pub fn top_line(&self) -> (t: usize)
        ensures
            t == self.top_line,
    {
        self.top_line
    }

    pub fn focus_window(&self) -> (w: WindowId)
        requires
            self.tabs@.wf(),
        ensures
            w.0 == self.tabs@.focus(),
    {
        self.tabs.focus()
    }

    /// The focused window's view, when it has one.
    pub fn focused_view(&self) -> (v: Option<&WindowView>)
        requires
            self.tabs@.wf(),
        ensures
            match v {
                Some(v) => view_pos(self.views@, self.tabs@.focus()) >= 0
                    && *v == self.views@[view_pos(self.views@, self.tabs@.focus())],
                None => view_pos(self.views@, self.tabs@.focus()) == -1,
            },
    {
        match find_view(&self.views, self.tabs.focus()) {
            Some(k) => Some(&self.views[k]),
            None => None,
        }
    }

    pub fn window_count(&self) -> (n: usize)
        requires
            self.tabs@.wf(),
        ensures
            n == leaves(self.tabs@.layout()).len(),
    {
        self.tabs.current_layout().leaves().len()
    }

    /// The views of the current tab's windows, in layout order.
    pub fn visible_views(&self) -> (r: Vec<WindowView>)
        requires
            self.tabs@.wf(),
        ensures
            r@ == shown_views(self.views@, leaves(self.tabs@.layout())),
    {
        let ids = self.tabs.current_layout().leaves();
        let mut out: Vec<WindowView> = Vec::new();
        let mut i: usize = 0;
        while i < ids.len()
            invariant
                i <= ids@.len(),
                crate::editcore::window::ids(ids@) == leaves(self.tabs@.layout()),
                out@ == shown_views(self.views@, crate::editcore::window::ids(ids@).take(i as int)),
            decreases ids@.len() - i,
        {
            let ghost before = out@;
            proof {
                let all = crate::editcore::window::ids(ids@);
                assert(all[i as int] == ids@[i as int].0);
                assert(all.take(i + 1).drop_last() =~= all.take(i as int));
            }
            if let Some(k) = find_view(&self.views, ids[i]) {
                out.push(self.views[k]);
            }
            i = i + 1;
        }
        proof {
            let all = crate::editcore::window::ids(ids@);
            assert(all.take(i as int) =~= all);
        }
        out
    }

    pub fn visual_range(&self) -> (r: Option<((usize, usize), (usize, usize))>)
        ensures
            match self.mode {
                Mode::Visual(_) => r == Some(if self.visual_anchor.0 < self.cursor.0 || (self.visual_anchor.0
                    == self.cursor.0 && self.visual_anchor.1 <= self.cursor.1) {
                    (self.visual_anchor, self.cursor)
                } else {
                    (self.cursor, self.visual_anchor)
                }),
                _ => r is None,
            },
    {
        match self.mode {
            Mode::Visual(_) => {
                let (a, b) = (self.visual_anchor, self.cursor);
                if a.0 < b.0 || (a.0 == b.0 && a.1 <= b.1) {
                    Some((a, b))
                } else {
                    Some((b, a))
                }
            },
            _ => None,
        }
    }

    pub fn visual_kind(&self) -> (r: Option<Visual>)
        ensures
            r == match self.mode {
                Mode::Visual(k) => Some(k),
                _ => None::<Visual>,
            },
    {
        match self.mode {
            Mode::Visual(kind) => Some(kind),
            _ => None,
        }
    }

    pub fn register(&self, name: char) -> (r: Option<&Register>)
        ensures
            match r {
                Some(v) => reg_of(self.registers@, name) == Some(reg_view(*v)),
                None => reg_of(self.registers@, name) is None,
            },
    {
        match find_register(&self.registers, name) {
            Some(k) => Some(&self.registers[k].1),
            None => None,
        }
    }

    /// Whether matches should be painted.
    pub fn highlight_search(&self) -> (r: bool)
        ensures
            r == self.options.hlsearch,
    {
        self.options.hlsearch
    }
}

/// The cursor moved where it is allowed to sit.
pub fn clamp(cursor: &mut (usize, usize), buffer: &Buffer, mode: Mode)
    requires
        buffer@.wf(),
    ensures
        *final(cursor) == clamped(buffer@.lines, *old(cursor), mode),
        final(cursor).0 < buffer@.lines.len(),
        final(cursor).1 <= buffer@.lines[final(cursor).0 as int].len(),
{
    let last = buffer.line_count() - 1;
    if cursor.0 > last {
        cursor.0 = last;
    }
    let len = buffer.line_len(cursor.0);
    let limit = match mode {
        Mode::Insert | Mode::Cmdline => len,
        _ => if len > 0 { len - 1 } else { 0 },
    };
    if cursor.1 > limit {
        cursor.1 = limit;
    }
}

/// The top line moved so that the cursor line is among the `rows` shown, and
/// no further down than the last line.
pub open spec fn scrolled(top: usize, cursor_line: usize, rows: usize, line_count: int) -> usize {
    let rows = if rows >= 1 { rows } else { 1 };
    let t = if cursor_line < top {
        cursor_line as int
    } else if cursor_line >= top + rows {
        cursor_line + 1 - rows
    } else {
        top as int
    };
    let max = if line_count >= 1 { line_count - 1 } else { 0 };
    (if t < max { t } else { max }) as usize
}

pub fn scroll(top: &mut usize, cursor_line: usize, rows: usize, buffer: &Buffer)
    ensures
        *final(top) == scrolled(*old(top), cursor_line, rows, buffer@.lines.len() as int),
{
    let rows = if rows >= 1 { rows } else { 1 };
    if cursor_line < *top {
        *top = cursor_line;
    } else if cursor_line - *top >= rows {
        *top = cursor_line - rows + 1;
    }
    let count = buffer.line_count();
    let max = if count >= 1 { count - 1 } else { 0 };
    if *top > max {
        *top = max;
    }
}


/// The two editors agree on everything a key handler reads besides the text,
/// the cursor and the windows.
pub open spec fn same_typing(a: Editor, b: Editor) -> bool {
    &&& a.mode == b.mode
    &&& a.pending == b.pending
    &&& a.registers == b.registers
    &&& a.cmdline == b.cmdline
    &&& a.cmdline_prefix == b.cmdline_prefix
    &&& a.cmdline_cursor == b.cmdline_cursor
    &&& a.message == b.message
    &&& a.last_search == b.last_search
    &&& a.last_search_forward == b.last_search_forward
    &&& a.visual_anchor == b.visual_anchor
    &&& a.options == b.options
    &&& a.plugin_commands == b.plugin_commands
    &&& a.keymap == b.keymap
    &&& a.pending_keys == b.pending_keys
    &&& a.requests == b.requests
    &&& a.suspended == b.suspended
    &&& a.clipboard == b.clipboard
    &&& a.home == b.home
}

} // verus!
