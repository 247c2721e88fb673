//! The editor's side of the UI protocol's requests: what each call asks of
//! the editor, what it answers, and what it leaves to the drawing side.

use vstd::prelude::*;
use crate::editcore::buffer::{at_least_one, bumped, min_int, BufferModel};
use crate::editcore::command::{execute, execute_effect};
use crate::editcore::editor::{clamp, clamped, Editor, Mode, Visual};
use crate::editcore::input::fed_all;
use crate::editcore::key::parse_spec;
use crate::text::{concat, same_text};
use vstd::utf8::encode_utf8;

verus! {

/// An argument of a call, as the protocol's values hold it.
#[derive(Debug, PartialEq, Eq)]
pub enum RpcArg {
    Nil,
    Bool(bool),
    Integer(i128),
    Str(String),
    Array(Vec<RpcArg>),
    Dict(Vec<(RpcArg, RpcArg)>),
    /// A float, binary or extension value, which no call reads.
    Other,
}

/// Which of the protocol's UI extensions a client asked for.
#[derive(Clone, Copy, Debug, PartialEq, Eq, Structural)]
pub struct UiOptions {
    pub ext_multigrid: bool,
    pub ext_popupmenu: bool,
    pub ext_cmdline: bool,
    pub ext_messages: bool,
}

/// What the host says of itself to `nvim_get_api_info`.
#[derive(Debug, PartialEq, Eq)]
pub struct ApiInfo {
    pub channel: u64,
    pub major: u64,
    pub minor: u64,
    pub patch: u64,
    pub api_level: u64,
    pub name: String,
    pub protocol_face: String,
}

/// The answer to a call.
#[derive(Debug, PartialEq, Eq)]
pub enum RpcReply {
    Nil,
    Count(u64),
    Text(String),
    Lines(Vec<String>),
    /// `{mode, blocking}`.
    Mode { mode: String, blocking: bool },
    ApiInfo(ApiInfo),
}

/// What a call leaves to the drawing side.
#[derive(Clone, Copy, Debug, PartialEq, Eq, Structural)]
pub enum UiAction {
    Nothing,
    Attach { cols: usize, rows: usize, options: UiOptions },
    Detach,
    Resize { cols: usize, rows: usize },
}

/// An answer as values.
pub enum ReplyView {
    Nil,
    Count(u64),
    Text(Seq<char>),
    Lines(Seq<Seq<char>>),
    Mode(Seq<char>, bool),
    ApiInfo(u64, u64, u64, u64, u64, Seq<char>, Seq<char>),
}

pub open spec fn reply_view(r: RpcReply) -> ReplyView {
    match r {
        RpcReply::Nil => ReplyView::Nil,
        RpcReply::Count(n) => ReplyView::Count(n),
        RpcReply::Text(s) => ReplyView::Text(s@),
        RpcReply::Lines(v) => ReplyView::Lines(v@.map_values(|s: String| s@)),
        RpcReply::Mode { mode, blocking } => ReplyView::Mode(mode@, blocking),
        RpcReply::ApiInfo(a) => ReplyView::ApiInfo(a.channel, a.major, a.minor, a.patch, a.api_level, a.name@, a.protocol_face@),
    }
}

pub open spec fn no_options() -> UiOptions {
    UiOptions { ext_multigrid: false, ext_popupmenu: false, ext_cmdline: false, ext_messages: false }
}

/// The flag `key` of an options map: the first entry named `key`, if its
/// value is a boolean; false otherwise.
pub open spec fn option_flag(map: Seq<(RpcArg, RpcArg)>, key: Seq<char>) -> bool
    decreases map.len(),
{
    if map.len() == 0 {
        false
    } else if map[0].0 matches RpcArg::Str(k) && k@ == key {
        match map[0].1 {
            RpcArg::Bool(b) => b,
            _ => false,
        }
    } else {
        option_flag(map.drop_first(), key)
    }
}

/// The options an attach map asks for; `ext_messages` implies `ext_cmdline`.
pub open spec fn options_of(map: Seq<(RpcArg, RpcArg)>) -> UiOptions {
    UiOptions {
        ext_multigrid: option_flag(map, "ext_multigrid"@),
        ext_popupmenu: option_flag(map, "ext_popupmenu"@),
        ext_cmdline: option_flag(map, "ext_cmdline"@) || option_flag(map, "ext_messages"@),
        ext_messages: option_flag(map, "ext_messages"@),
    }
}

/// Argument `i` as an unsigned integer.
pub open spec fn arg_u64(args: Seq<RpcArg>, i: int) -> Option<u64> {
    if 0 <= i < args.len() {
        match args[i] {
            RpcArg::Integer(n) => if 0 <= n <= u64::MAX { Some(n as u64) } else { None },
            _ => None,
        }
    } else {
        None
    }
}

/// Argument `i` as a signed integer.
pub open spec fn arg_i64(args: Seq<RpcArg>, i: int) -> Option<i64> {
    if 0 <= i < args.len() {
        match args[i] {
            RpcArg::Integer(n) => if i64::MIN <= n <= i64::MAX { Some(n as i64) } else { None },
            _ => None,
        }
    } else {
        None
    }
}

/// Argument `i` as text, the empty text when it is none.
pub open spec fn arg_text(args: Seq<RpcArg>, i: int) -> Seq<char> {
    if 0 <= i < args.len() {
        match args[i] {
            RpcArg::Str(s) => s@,
            _ => Seq::empty(),
        }
    } else {
        Seq::empty()
    }
}

/// A size argument, `default` when it is no unsigned integer.
pub open spec fn size_arg(args: Seq<RpcArg>, i: int, default: u64) -> usize {
    match arg_u64(args, i) {
        Some(n) => n as usize,
        None => default as usize,
    }
}

/// A line index as the buffer calls take it: zero-based and end-exclusive,
/// a negative one counted from past the end (`-1` is the end), each kept
/// within the buffer.
pub open spec fn line_index(v: Option<i64>, count: nat, default: nat) -> nat {
    match v {
        Some(raw) => if raw < 0 {
            if count + 1 + raw < 0 { 0 } else { (count + 1 + raw) as nat }
        } else if (raw as usize) < count {
            (raw as usize) as nat
        } else {
            count
        },
        None => default,
    }
}

/// A replacement line: a string's text, the empty line for anything else.
pub open spec fn line_of(x: RpcArg) -> Seq<char> {
    match x {
        RpcArg::Str(s) => s@,
        _ => Seq::empty(),
    }
}

/// The lines `nvim_buf_set_lines` puts in: argument 4's strings, anything
/// else in it read as an empty line; none when it is no array.
pub open spec fn replacement_of(args: Seq<RpcArg>) -> Seq<Seq<char>> {
    if 4 < args.len() {
        match args[4] {
            RpcArg::Array(a) => a@.map_values(|x: RpcArg| line_of(x)),
            _ => Seq::empty(),
        }
    } else {
        Seq::empty()
    }
}

/// The buffer after lines `start..end` were replaced by `repl`.
pub open spec fn spliced(m: BufferModel, start: int, end: int, repl: Seq<Seq<char>>) -> BufferModel {
    let s = min_int(start, m.lines.len() as int);
    let e = if end < s { s } else { min_int(end, m.lines.len() as int) };
    BufferModel {
        lines: at_least_one(m.lines.take(s) + repl + m.lines.skip(e)),
        modified: true,
        revision: bumped(m.revision),
        ..m
    }
}

pub open spec fn mode_letter(m: Mode) -> Seq<char> {
    match m {
        Mode::Normal => "n"@,
        Mode::Insert => "i"@,
        Mode::Visual(Visual::Char) => "v"@,
        Mode::Visual(Visual::Line) => "V"@,
        Mode::Cmdline => "c"@,
    }
}

/// What a call does: how the editor goes from `e0` to `e1`, the error text
/// it answers with (if any), the answer, and what it leaves to the drawing
/// side. An unknown method is an error naming it.
pub open spec fn call_model(
    e0: Editor,
    e1: Editor,
    channel: u64,
    method: Seq<char>,
    args: Seq<RpcArg>,
    err: Option<Seq<char>>,
    reply: ReplyView,
    ui: UiAction,
) -> bool {
    let unchanged = e1 == e0;
    let count = e0.buffer@.lines.len();
    let start = line_index(arg_i64(args, 1), count, 0);
    let end = line_index(arg_i64(args, 2), count, count);
    let cols = size_arg(args, 0, 80);
    let rows = size_arg(args, 1, 24);
    if method == "nvim_get_api_info"@ {
        &&& unchanged && err is None && ui == UiAction::Nothing
        &&& reply == ReplyView::ApiInfo(channel, 0, 11, 0, 12, "nvimglsl"@, "ui"@)
    } else if method == "nvim_ui_attach"@ {
        let options = if 2 < args.len() {
            match args[2] {
                RpcArg::Dict(m) => options_of(m@),
                _ => no_options(),
            }
        } else {
            no_options()
        };
        unchanged && err is None && reply == ReplyView::Nil && ui == (UiAction::Attach { cols, rows, options })
    } else if method == "nvim_ui_detach"@ {
        unchanged && err is None && reply == ReplyView::Nil && ui == UiAction::Detach
    } else if method == "nvim_ui_try_resize"@ {
        unchanged && err is None && reply == ReplyView::Nil && ui == (UiAction::Resize { cols, rows })
    } else if method == "nvim_input"@ {
        &&& err is None && ui == UiAction::Nothing
        &&& reply == ReplyView::Count(encode_utf8(arg_text(args, 0)).len() as u64)
        &&& fed_all(e0, e1, parse_spec(arg_text(args, 0)))
        &&& e0.suspended ==> unchanged
    } else if method == "nvim_command"@ || method == "nvim_exec2"@ {
        execute_effect(e0, e1, arg_text(args, 0)) && err is None && reply == ReplyView::Nil && ui == UiAction::Nothing
    } else if method == "nvim_get_mode"@ {
        &&& unchanged && err is None && ui == UiAction::Nothing
        &&& reply == ReplyView::Mode(mode_letter(e0.mode), e0.mode == Mode::Cmdline)
    } else if method == "nvim_get_current_buf"@ {
        unchanged && err is None && reply == ReplyView::Count(1) && ui == UiAction::Nothing
    } else if method == "nvim_buf_line_count"@ {
        unchanged && err is None && reply == ReplyView::Count(count as u64) && ui == UiAction::Nothing
    } else if method == "nvim_buf_get_name"@ {
        &&& unchanged && err is None && ui == UiAction::Nothing
        &&& reply == ReplyView::Text(match e0.buffer@.path { Some(p) => p, None => "[No Name]"@ })
    } else if method == "nvim_buf_get_lines"@ {
        &&& unchanged && err is None && ui == UiAction::Nothing
        &&& reply == ReplyView::Lines(if start < end { e0.buffer@.lines.subrange(start as int, end as int) } else { Seq::empty() })
    } else if method == "nvim_buf_set_lines"@ {
        let m = spliced(e0.buffer@.after_begin(e0.cursor), start as int, end as int, replacement_of(args)).after_commit();
        &&& err is None && reply == ReplyView::Nil && ui == UiAction::Nothing
        &&& e1.buffer@ == m
        &&& e1.cursor == clamped(m.lines, e0.cursor, e0.mode)
        &&& e1 == (Editor { buffer: e1.buffer, cursor: e1.cursor, ..e0 })
    } else if method == "nvim_set_client_info"@ || method == "nvim_ui_set_option"@ || method == "nvim_input_mouse"@ {
        unchanged && err is None && reply == ReplyView::Nil && ui == UiAction::Nothing
    } else if method == "nvim_exec_lua"@ {
        &&& unchanged && reply == ReplyView::Nil && ui == UiAction::Nothing
        &&& err == Some("nvimglsl has no Lua runtime; open_question neovim_asset_reuse_scope"@)
    } else {
        unchanged && reply == ReplyView::Nil && ui == UiAction::Nothing && err == Some("unknown method: "@ + method)
    }
}

fn arg_u64_at(args: &[RpcArg], i: usize) -> (r: Option<u64>)
    ensures
        r == arg_u64(args@, i as int),
{
    if i < args.len() {
        match &args[i] {
            RpcArg::Integer(n) => if 0 <= *n && *n <= u64::MAX as i128 { Some(*n as u64) } else { None },
            _ => None,
        }
    } else {
        None
    }
}

fn arg_i64_at(args: &[RpcArg], i: usize) -> (r: Option<i64>)
    ensures
        r == arg_i64(args@, i as int),
{
    if i < args.len() {
        match &args[i] {
            RpcArg::Integer(n) => if i64::MIN as i128 <= *n && *n <= i64::MAX as i128 { Some(*n as i64) } else { None },
            _ => None,
        }
    } else {
        None
    }
}

fn arg_text_at(args: &[RpcArg], i: usize) -> (r: &str)
    ensures
        r@ == arg_text(args@, i as int),
{
    proof {
        reveal_strlit("");
    }
    if i < args.len() {
        match &args[i] {
            RpcArg::Str(s) => s.as_str(),
            _ => "",
        }
    } else {
        ""
    }
}

fn size_at(args: &[RpcArg], i: usize, default: u64) -> (r: usize)
    ensures
        r == size_arg(args@, i as int, default),
{
    match arg_u64_at(args, i) {
        Some(n) => n as usize,
        None => default as usize,
    }
}

/// A line index as `line_index` says.
pub fn index(v: Option<i64>, count: usize, default: usize) -> (r: usize)
    ensures
        r == line_index(v, count as nat, default as nat),
{
    match v {
        Some(raw) => if raw < 0 {
            let x: i128 = count as i128 + 1 + raw as i128;
            if x < 0 { 0 } else { x as usize }
        } else {
            let r = raw as usize;
            if r < count { r } else { count }
        },
        None => default,
    }
}

fn flag(map: &Vec<(RpcArg, RpcArg)>, key: &str) -> (r: bool)
    ensures
        r == option_flag(map@, key@),
{
    let mut i: usize = 0;
    assert(map@.skip(0) =~= map@);
    while i < map.len()
        invariant
            i <= map@.len(),
            option_flag(map@, key@) == option_flag(map@.skip(i as int), key@),
        decreases map@.len() - i,
    {
        assert(map@.skip(i as int)[0] == map@[i as int]);
        assert(map@.skip(i as int).drop_first() =~= map@.skip(i + 1));
        let named = match &map[i].0 {
            RpcArg::Str(k) => same_text(k.as_str(), key),
            _ => false,
        };
        if named {
            return match &map[i].1 {
                RpcArg::Bool(b) => *b,
                _ => false,
            };
        }
        i = i + 1;
    }
    false
}

impl UiOptions {
    pub fn none() -> (o: UiOptions)
        ensures
            o == no_options(),
    {
        UiOptions { ext_multigrid: false, ext_popupmenu: false, ext_cmdline: false, ext_messages: false }
    }

    /// The options an attach map asks for.
    pub fn from_map(map: &Vec<(RpcArg, RpcArg)>) -> (o: UiOptions)
        ensures
            o == options_of(map@),
    {
        let messages = flag(map, "ext_messages");
        UiOptions {
            ext_multigrid: flag(map, "ext_multigrid"),
            ext_popupmenu: flag(map, "ext_popupmenu"),
            ext_cmdline: flag(map, "ext_cmdline") || messages,
            ext_messages: messages,
        }
    }
}

fn replacement(args: &[RpcArg]) -> (v: Vec<String>)
    ensures
        v@.map_values(|s: String| s@) == replacement_of(args@),
{
    let mut out: Vec<String> = Vec::new();
    if args.len() > 4 {
        if let RpcArg::Array(a) = &args[4] {
            let mut i: usize = 0;
            while i < a.len()
                invariant
                    i <= a@.len(),
                    out@.map_values(|s: String| s@) == a@.take(i as int).map_values(|x: RpcArg| line_of(x)),
                decreases a@.len() - i,
            {
                let line = match &a[i] {
                    RpcArg::Str(s) => s.clone(),
                    _ => String::new(),
                };
                out.push(line);
                assert(a@.take(i + 1).map_values(|x: RpcArg| line_of(x)) =~= a@.take(i as int).map_values(|x: RpcArg| line_of(x)).push(line_of(a@[i as int])));
                i = i + 1;
                assert(out@.map_values(|s: String| s@) =~= a@.take(i as int).map_values(|x: RpcArg| line_of(x)));
            }
            assert(a@.take(a@.len() as int) =~= a@);
            return out;
        }
    }
    assert(out@.map_values(|s: String| s@) =~= replacement_of(args@));
    out
}

pub open spec fn text_view(t: Option<String>) -> Option<Seq<char>> {
    match t {
        Some(s) => Some(s@),
        None => None,
    }
}

/// A call of the UI protocol on the editor, as `call_model` says: the
/// error text (if any), the answer, and what is left to the drawing side.
#[verifier::rlimit(40)]
pub fn rpc_call(editor: &mut Editor, channel: u64, method: &str, args: &[RpcArg]) -> (r: (Option<String>, RpcReply, UiAction))
    requires
        old(editor).wf(),
    ensures
        final(editor).wf(),
        call_model(*old(editor), *final(editor), channel, method@, args@, text_view(r.0), reply_view(r.1), r.2),
{
    if same_text(method, "nvim_get_api_info") {
        let info = ApiInfo {
            channel,
            major: 0,
            minor: 11,
            patch: 0,
            api_level: 12,
            name: "nvimglsl".to_owned(),
            protocol_face: "ui".to_owned(),
        };
        return (None, RpcReply::ApiInfo(info), UiAction::Nothing);
    }
    if same_text(method, "nvim_ui_attach") {
        let cols = size_at(args, 0, 80);
        let rows = size_at(args, 1, 24);
        let options = if args.len() > 2 {
            match &args[2] {
                RpcArg::Dict(m) => UiOptions::from_map(m),
                _ => UiOptions::none(),
            }
        } else {
            UiOptions::none()
        };
        return (None, RpcReply::Nil, UiAction::Attach { cols, rows, options });
    }
    if same_text(method, "nvim_ui_detach") {
        return (None, RpcReply::Nil, UiAction::Detach);
    }
    if same_text(method, "nvim_ui_try_resize") {
        let cols = size_at(args, 0, 80);
        let rows = size_at(args, 1, 24);
        return (None, RpcReply::Nil, UiAction::Resize { cols, rows });
    }
    if same_text(method, "nvim_input") {
        let keys = arg_text_at(args, 0);
        let n = keys.as_bytes().len();
        assert(n == encode_utf8(keys@).len());
        editor.feed_str(keys);
        return (None, RpcReply::Count(n as u64), UiAction::Nothing);
    }
    if same_text(method, "nvim_command") || same_text(method, "nvim_exec2") {
        let command = arg_text_at(args, 0);
        execute(editor, command);
        return (None, RpcReply::Nil, UiAction::Nothing);
    }
    if same_text(method, "nvim_get_mode") {
        let mode = editor.mode.short_name().to_owned();
        let blocking = match editor.mode {
            Mode::Cmdline => true,
            _ => false,
        };
        return (None, RpcReply::Mode { mode, blocking }, UiAction::Nothing);
    }
    if same_text(method, "nvim_get_current_buf") {
        return (None, RpcReply::Count(1), UiAction::Nothing);
    }
    if same_text(method, "nvim_buf_line_count") {
        return (None, RpcReply::Count(editor.buffer.line_count() as u64), UiAction::Nothing);
    }
    if same_text(method, "nvim_buf_get_name") {
        return (None, RpcReply::Text(editor.buffer.name()), UiAction::Nothing);
    }
    if same_text(method, "nvim_buf_get_lines") {
        let count = editor.buffer.line_count();
        let start = index(arg_i64_at(args, 1), count, 0);
        let end = index(arg_i64_at(args, 2), count, count);
        let lines = editor.buffer.lines_text(start, end);
        return (None, RpcReply::Lines(lines), UiAction::Nothing);
    }
    if same_text(method, "nvim_buf_set_lines") {
        let count = editor.buffer.line_count();
        let start = index(arg_i64_at(args, 1), count, 0);
        let end = index(arg_i64_at(args, 2), count, count);
        let lines = replacement(args);
        let cursor = editor.cursor;
        editor.buffer.begin_change(cursor);
        editor.buffer.splice_lines(start, end, lines);
        editor.buffer.commit_change();
        let mode = editor.mode;
        clamp(&mut editor.cursor, &editor.buffer, mode);
        return (None, RpcReply::Nil, UiAction::Nothing);
    }
    if same_text(method, "nvim_set_client_info") || same_text(method, "nvim_ui_set_option") || same_text(method, "nvim_input_mouse") {
        return (None, RpcReply::Nil, UiAction::Nothing);
    }
    if same_text(method, "nvim_exec_lua") {
        let text = "nvimglsl has no Lua runtime; open_question neovim_asset_reuse_scope".to_owned();
        return (Some(text), RpcReply::Nil, UiAction::Nothing);
    }
    (Some(concat("unknown method: ", method)), RpcReply::Nil, UiAction::Nothing)
}

/// The message type of a request.
pub const REQUEST: u64 = 0;

/// The message type of a response.
pub const RESPONSE: u64 = 1;

/// The message type of a notification.
pub const NOTIFY: u64 = 2;

/// What an incoming message asks for.
#[derive(Debug, PartialEq, Eq)]
pub enum Incoming {
    /// A call to answer with `msgid`.
    Request { msgid: u64, method: String, args: Vec<RpcArg> },
    /// A call to carry out without an answer.
    Notify { method: String, args: Vec<RpcArg> },
    /// Anything else, such as a response: nothing to do.
    Ignored,
}

/// An argument's text, the empty text when it is none.
pub open spec fn text_or_empty(a: RpcArg) -> Seq<char> {
    match a {
        RpcArg::Str(s) => s@,
        _ => Seq::empty(),
    }
}

/// An argument's elements, none when it is no array.
pub open spec fn items_or_empty(a: RpcArg) -> Seq<RpcArg> {
    match a {
        RpcArg::Array(v) => v@,
        _ => Seq::empty(),
    }
}

/// What a message is: an array whose first element is the request type
/// and which has four elements is a request (id, method, arguments), one
/// of the notification type with three is a notification; everything else
/// is ignored. A missing id reads as 0, a missing method as the empty one,
/// missing arguments as none.
pub open spec fn incoming_of(parts: Seq<RpcArg>, r: Incoming) -> bool {
    let kind = arg_u64(parts, 0);
    if kind == Some(REQUEST) && parts.len() == 4 {
        r matches Incoming::Request { msgid, method, args } && {
            &&& msgid == match arg_u64(parts, 1) { Some(n) => n, None => 0 }
            &&& method@ == text_or_empty(parts[2])
            &&& args@ == items_or_empty(parts[3])
        }
    } else if kind == Some(NOTIFY) && parts.len() == 3 {
        r matches Incoming::Notify { method, args } && {
            &&& method@ == text_or_empty(parts[1])
            &&& args@ == items_or_empty(parts[2])
        }
    } else {
        r is Ignored
    }
}

/// The message `message` is, as `incoming_of` says (a message that is no
/// array is ignored).
pub fn classify(message: RpcArg) -> (r: Incoming)
    ensures
        match message {
            RpcArg::Array(parts) => incoming_of(parts@, r),
            _ => r is Ignored,
        },
{
    let mut parts = match message {
        RpcArg::Array(parts) => parts,
        _ => {
            return Incoming::Ignored;
        },
    };
    let ghost all = parts@;
    let kind = arg_u64_at(parts.as_slice(), 0);
    if kind == Some(REQUEST) && parts.len() == 4 {
        let msgid = match arg_u64_at(parts.as_slice(), 1) {
            Some(n) => n,
            None => 0,
        };
        let args_arg = parts.pop();
        let method_arg = parts.pop();
        let method = match method_arg {
            Some(RpcArg::Str(s)) => s,
            _ => String::new(),
        };
        let args = match args_arg {
            Some(RpcArg::Array(v)) => v,
            _ => Vec::new(),
        };
        return Incoming::Request { msgid, method, args };
    }
    if kind == Some(NOTIFY) && parts.len() == 3 {
        let args_arg = parts.pop();
        let method_arg = parts.pop();
        let method = match method_arg {
            Some(RpcArg::Str(s)) => s,
            _ => String::new(),
        };
        let args = match args_arg {
            Some(RpcArg::Array(v)) => v,
            _ => Vec::new(),
        };
        return Incoming::Notify { method, args };
    }
    Incoming::Ignored
}

} // verus!
