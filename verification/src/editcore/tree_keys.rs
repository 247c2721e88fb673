//! What a key does in the file-tree pane, and the checks its commands make
//! before the host touches the file system.

use vstd::prelude::*;
use crate::editcore::editor::{Editor, Mode};
use crate::editcore::key::{Code, Key, Named};
use crate::text::{chars_of, concat, trim_range, trim_ws};

verus! {

/// What a key in the tree pane asks for.
#[derive(Clone, Debug, PartialEq, Eq)]
pub enum TreeAction {
    /// A digit of a count; the count so far.
    Count(usize),
    /// The selection moved down or up by `by` rows.
    Move { down: bool, by: usize },
    /// Open the selected file, or toggle the selected directory.
    Open,
    /// Expand the selected directory.
    Expand,
    /// Collapse the selected directory.
    Collapse,
    /// Start a `:` command with this text.
    Command(String),
    /// Ask to delete the selection (confirmed by a second press).
    Delete,
    /// Read the tree from disk again.
    Refresh,
}

/// The value of an ASCII digit.
pub open spec fn digit_value(c: char) -> usize {
    ((c as u32) - ('0' as u32)) as usize
}

/// What `key` asks of the tree pane, with `count` typed before it and
/// `name` the selected entry's file name; `None` when the key is not the
/// tree's. The new count is kept until a move takes it.
pub open spec fn tree_key_of(key: Key, count: Option<usize>, name: Seq<char>) -> Option<(TreeActionView, Option<usize>)> {
    if key.ctrl {
        None
    } else {
        match key.code {
            Code::Char(c) => if '0' <= c <= '9' && !(c == '0' && count is None) {
                let n = (match count { Some(k) => k as int, None => 0 }) * 10 + digit_value(c);
                Some((TreeActionView::Count(n as usize), Some(n as usize)))
            } else if c == 'j' || c == 'k' {
                Some((TreeActionView::Move(c == 'j', moved_by(count)), None))
            } else if c == 'o' {
                Some((TreeActionView::Open, count))
            } else if c == 'l' {
                Some((TreeActionView::Expand, count))
            } else if c == 'h' {
                Some((TreeActionView::Collapse, count))
            } else if c == 'a' {
                Some((TreeActionView::Command("TreeNew "@), count))
            } else if c == 'r' {
                Some((TreeActionView::Command("TreeRename "@ + name), count))
            } else if c == 'd' {
                Some((TreeActionView::Delete, count))
            } else if c == 'R' {
                Some((TreeActionView::Refresh, count))
            } else {
                None
            },
            Code::Named(Named::Down) => Some((TreeActionView::Move(true, moved_by(count)), None)),
            Code::Named(Named::Up) => Some((TreeActionView::Move(false, moved_by(count)), None)),
            Code::Named(Named::Enter) => Some((TreeActionView::Open, count)),
            _ => None,
        }
    }
}

/// How far a move goes: the count, at least one.
pub open spec fn moved_by(count: Option<usize>) -> usize {
    match count {
        Some(k) => if k > 1 { k } else { 1 },
        None => 1,
    }
}

/// A tree action as values.
pub enum TreeActionView {
    Count(usize),
    Move(bool, usize),
    Open,
    Expand,
    Collapse,
    Command(Seq<char>),
    Delete,
    Refresh,
}

pub open spec fn action_view(a: TreeAction) -> TreeActionView {
    match a {
        TreeAction::Count(n) => TreeActionView::Count(n),
        TreeAction::Move { down, by } => TreeActionView::Move(down, by),
        TreeAction::Open => TreeActionView::Open,
        TreeAction::Expand => TreeActionView::Expand,
        TreeAction::Collapse => TreeActionView::Collapse,
        TreeAction::Command(t) => TreeActionView::Command(t@),
        TreeAction::Delete => TreeActionView::Delete,
        TreeAction::Refresh => TreeActionView::Refresh,
    }
}

/// What `key` asks of the tree pane, as `tree_key_of` says.
pub fn tree_key(key: Key, count: Option<usize>, name: &str) -> (r: Option<(TreeAction, Option<usize>)>)
    requires
        count matches Some(k) ==> k <= (usize::MAX - 9) / 10,
    ensures
        match r {
            Some((a, c)) => tree_key_of(key, count, name@) == Some((action_view(a), c)),
            None => tree_key_of(key, count, name@) is None,
        },
{
    proof {
        reveal_strlit("TreeNew ");
        reveal_strlit("TreeRename ");
    }
    if key.ctrl {
        return None;
    }
    let by = match count {
        Some(k) => if k > 1 { k } else { 1 },
        None => 1,
    };
    match key.code {
        Code::Char(c) => {
            if '0' <= c && c <= '9' && !(c == '0' && count.is_none()) {
                let d = ((c as u32) - ('0' as u32)) as usize;
                let base = match count {
                    Some(k) => k,
                    None => 0,
                };
                let n = base * 10 + d;
                Some((TreeAction::Count(n), Some(n)))
            } else if c == 'j' || c == 'k' {
                Some((TreeAction::Move { down: c == 'j', by }, None))
            } else if c == 'o' {
                Some((TreeAction::Open, count))
            } else if c == 'l' {
                Some((TreeAction::Expand, count))
            } else if c == 'h' {
                Some((TreeAction::Collapse, count))
            } else if c == 'a' {
                Some((TreeAction::Command("TreeNew ".to_owned()), count))
            } else if c == 'r' {
                Some((TreeAction::Command(concat("TreeRename ", name)), count))
            } else if c == 'd' {
                Some((TreeAction::Delete, count))
            } else if c == 'R' {
                Some((TreeAction::Refresh, count))
            } else {
                None
            }
        },
        Code::Named(Named::Down) => Some((TreeAction::Move { down: true, by }, None)),
        Code::Named(Named::Up) => Some((TreeAction::Move { down: false, by }, None)),
        Code::Named(Named::Enter) => Some((TreeAction::Open, count)),
        _ => None,
    }
}

/// What pressing `d` on `selected` does: with the same path already
/// waiting it is confirmed (`None`); otherwise it waits, with the question
/// to show.
pub open spec fn delete_question(pending: Option<Seq<char>>, selected: Seq<char>) -> Option<Seq<char>> {
    if pending == Some(selected) {
        None
    } else {
        Some("delete "@ + selected + "? press d again to confirm"@)
    }
}

/// The first press of `d` asks; a second one on the same entry confirms.
pub fn delete_step(pending: &Option<String>, selected: &str) -> (question: Option<String>)
    ensures
        match question {
            Some(q) => delete_question(match *pending { Some(p) => Some(p@), None => None }, selected@) == Some(q@),
            None => delete_question(match *pending { Some(p) => Some(p@), None => None }, selected@) is None,
        },
{
    let confirmed = match pending {
        Some(p) => crate::text::same_text(p.as_str(), selected),
        None => false,
    };
    if confirmed {
        None
    } else {
        let a = concat("delete ", selected);
        Some(concat(a.as_str(), "? press d again to confirm"))
    }
}

/// The name a `:TreeNew` or `:TreeRename` gets: trimmed, and refused with
/// E471 when that leaves nothing.
pub open spec fn tree_name_of(name: Seq<char>, command: Seq<char>) -> Result<Seq<char>, Seq<char>> {
    let t = trim_ws(name);
    if t.len() == 0 {
        Err("E471: Argument required: :"@ + command + " <name>"@)
    } else {
        Ok(t)
    }
}

pub fn tree_name(name: &str, command: &str) -> (r: Result<String, String>)
    ensures
        match r {
            Ok(t) => tree_name_of(name@, command@) == Ok::<Seq<char>, Seq<char>>(t@),
            Err(e) => tree_name_of(name@, command@) == Err::<Seq<char>, Seq<char>>(e@),
        },
{
    let v = chars_of(name);
    let (a, b) = trim_range(v.as_slice(), 0, v.len());
    assert(v@.subrange(0, v@.len() as int) =~= name@);
    if a == b {
        let m = concat("E471: Argument required: :", command);
        Err(concat(m.as_str(), " <name>"))
    } else {
        let kept = crate::editcore::key::copy_range(v.as_slice(), a, b);
        Ok(crate::text::string_of(kept.as_slice()))
    }
}

impl Editor {
    /// Starts a `:` command with `command` typed and the cursor after it.
    pub fn start_tree_command(&mut self, command: &str)
        requires
            old(self).wf(),
        ensures
            final(self).wf(),
            *final(self) == (Editor {
                cmdline_prefix: ':',
                cmdline: final(self).cmdline,
                cmdline_cursor: command@.len() as usize,
                mode: Mode::Cmdline,
                ..*old(self)
            }),
            final(self).cmdline@ == command@,
    {
        self.cmdline_prefix = ':';
        self.cmdline = command.to_owned();
        self.cmdline_cursor = chars_of(command).len();
        self.mode = Mode::Cmdline;
    }
}

} // verus!
