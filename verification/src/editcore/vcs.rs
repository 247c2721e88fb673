//! Read-only VCS state held by the editing core: data and pure queries only.
//!
//! A non-repository buffer shows no signs; blame belongs to the buffer
//! revision it was computed for, so after an edit the cursor-line blame is
//! suppressed until blame is refreshed.

use vstd::prelude::*;

verus! {

#[derive(Clone, Copy, PartialEq, Eq, Debug, Structural)]
pub enum SignKind {
    Add,
    Change,
    Delete,
}

#[derive(Clone, Copy, PartialEq, Eq, Debug, Structural)]
pub struct Hunk {
    pub old_start: usize,
    pub old_len: usize,
    pub new_start: usize,
    pub new_len: usize,
    pub kind: SignKind,
}

#[derive(Clone, PartialEq, Eq, Debug)]
pub enum HeadLabel {
    Branch(String),
    Detached(String),
    Unborn,
}

impl HeadLabel {
    pub fn text(&self) -> (s: &str)
        ensures
            s@ == match self {
                HeadLabel::Branch(name) => name@,
                HeadLabel::Detached(short) => short@,
                HeadLabel::Unborn => "unborn"@,
            },
    {
        match self {
            HeadLabel::Branch(name) => name.as_str(),
            HeadLabel::Detached(short) => short.as_str(),
            HeadLabel::Unborn => "unborn",
        }
    }
}

#[derive(Clone, PartialEq, Eq, Debug)]
pub enum VcsStatus {
    Unknown,
    Ready,
    NotRepository,
    Unborn,
    TooLarge,
    Error(String),
}

#[derive(Clone, PartialEq, Eq, Debug)]
pub struct BlameLine {
    pub line: usize,
    pub commit: String,
    pub author: String,
    pub time: Option<i64>,
    pub summary: String,
}

#[derive(Clone, PartialEq, Eq, Debug)]
pub struct VcsState {
    pub status: VcsStatus,
    pub head: Option<HeadLabel>,
    pub hunks: Vec<Hunk>,
    pub deleted_above: usize,
    pub blame: Vec<BlameLine>,
    pub diff_revision: Option<u64>,
    pub blame_revision: Option<u64>,
}

#[derive(Clone, Copy, PartialEq, Eq, Debug, Structural)]
pub struct Counts {
    pub added: usize,
    pub changed: usize,
    pub removed: usize,
}

#[derive(Clone, Copy, PartialEq, Eq, Debug, Structural)]
pub enum VcsRequest {
    Blame,
    Hunks,
    Diff,
}

/// The state of a buffer nothing is known about yet.
pub open spec fn is_unknown(s: VcsState) -> bool {
    &&& s.status is Unknown
    &&& s.head is None
    &&& s.hunks@.len() == 0
    &&& s.deleted_above == 0
    &&& s.blame@.len() == 0
    &&& s.diff_revision is None
    &&& s.blame_revision is None
}

impl Default for VcsState {
    fn default() -> (s: VcsState)
        ensures
            is_unknown(s),
    {
        VcsState {
            status: VcsStatus::Unknown,
            head: None,
            hunks: Vec::new(),
            deleted_above: 0,
            blame: Vec::new(),
            diff_revision: None,
            blame_revision: None,
        }
    }
}

/// The sign a hunk puts on `line`. An added or changed block marks its own
/// lines; a deletion marks the line after it (the last line when it was at
/// the end), and a deletion above the first line marks nothing.
pub open spec fn hunk_sign(h: Hunk, line: int, line_count: int) -> Option<SignKind> {
    match h.kind {
        SignKind::Add | SignKind::Change => if h.new_start <= line < h.new_start + h.new_len {
            Some(h.kind)
        } else {
            None
        },
        SignKind::Delete => {
            let marker = if h.new_start >= line_count {
                if line_count > 0 { line_count - 1 } else { 0 }
            } else {
                h.new_start as int
            };
            if h.new_start > 0 && line == marker {
                Some(SignKind::Delete)
            } else {
                None
            }
        },
    }
}

/// The sign of the first hunk, in order, that puts one on `line`.
pub open spec fn sign_of(hunks: Seq<Hunk>, line: int, line_count: int) -> Option<SignKind>
    decreases hunks.len(),
{
    if hunks.len() == 0 {
        None
    } else {
        match hunk_sign(hunks[0], line, line_count) {
            Some(k) => Some(k),
            None => sign_of(hunks.drop_first(), line, line_count),
        }
    }
}

pub open spec fn sum_added(hunks: Seq<Hunk>) -> int
    decreases hunks.len(),
{
    if hunks.len() == 0 {
        0
    } else {
        sum_added(hunks.drop_last()) + if hunks.last().kind is Add { hunks.last().new_len as int } else { 0 }
    }
}

pub open spec fn sum_changed(hunks: Seq<Hunk>) -> int
    decreases hunks.len(),
{
    if hunks.len() == 0 {
        0
    } else {
        sum_changed(hunks.drop_last()) + if hunks.last().kind is Change {
            if hunks.last().new_len >= hunks.last().old_len { hunks.last().new_len as int } else { hunks.last().old_len as int }
        } else {
            0
        }
    }
}

pub open spec fn sum_removed(hunks: Seq<Hunk>) -> int
    decreases hunks.len(),
{
    if hunks.len() == 0 {
        0
    } else {
        sum_removed(hunks.drop_last()) + if hunks.last().kind is Delete { hunks.last().old_len as int } else { 0 }
    }
}

proof fn lemma_sums_monotone(hunks: Seq<Hunk>, k: int)
    requires
        0 <= k <= hunks.len(),
    ensures
        sum_added(hunks.take(k)) <= sum_added(hunks),
        sum_changed(hunks.take(k)) <= sum_changed(hunks),
        sum_removed(hunks.take(k)) <= sum_removed(hunks),
    decreases hunks.len(),
{
    if k < hunks.len() {
        assert(hunks.drop_last().take(k) =~= hunks.take(k));
        lemma_sums_monotone(hunks.drop_last(), k);
    } else {
        assert(hunks.take(k) =~= hunks);
    }
}

/// Whether `start` begins some hunk.
pub open spec fn is_start(hunks: Seq<Hunk>, start: usize) -> bool {
    exists|i: int| 0 <= i < hunks.len() && #[trigger] hunks[i].new_start == start
}

/// `x` is where `]c` (`[c` going back) goes from `cursor_line`: the
/// nearest hunk start past it, else the first (last) one.
pub open spec fn hunk_target(hunks: Seq<Hunk>, cursor_line: usize, forward: bool, x: usize) -> bool {
    is_start(hunks, x) && if forward {
        if exists|j: int| 0 <= j < hunks.len() && #[trigger] hunks[j].new_start > cursor_line {
            x > cursor_line && forall|j: int| 0 <= j < hunks.len() && #[trigger] hunks[j].new_start > cursor_line ==> x <= hunks[j].new_start
        } else {
            forall|j: int| 0 <= j < hunks.len() ==> x <= #[trigger] hunks[j].new_start
        }
    } else {
        if exists|j: int| 0 <= j < hunks.len() && #[trigger] hunks[j].new_start < cursor_line {
            x < cursor_line && forall|j: int| 0 <= j < hunks.len() && #[trigger] hunks[j].new_start < cursor_line ==> x >= hunks[j].new_start
        } else {
            forall|j: int| 0 <= j < hunks.len() ==> x >= #[trigger] hunks[j].new_start
        }
    }
}

/// The hunk start `]c` (`[c`) goes to from `cursor_line`.
pub open spec fn hunk_line(hunks: Seq<Hunk>, cursor_line: usize, forward: bool) -> usize {
    choose|x: usize| hunk_target(hunks, cursor_line, forward, x)
}

/// Only one start is where `]c` (`[c`) goes.
pub proof fn lemma_hunk_target_unique(hunks: Seq<Hunk>, cursor_line: usize, forward: bool, x: usize, y: usize)
    requires
        hunk_target(hunks, cursor_line, forward, x),
        hunk_target(hunks, cursor_line, forward, y),
    ensures
        x == y,
{
    let i = choose|i: int| 0 <= i < hunks.len() && #[trigger] hunks[i].new_start == x;
    let j = choose|j: int| 0 <= j < hunks.len() && #[trigger] hunks[j].new_start == y;
    assert(hunks[i].new_start == x);
    assert(hunks[j].new_start == y);
}

/// `x` is where `]c` goes, so it is the start `hunk_line` names.
pub proof fn lemma_hunk_line(hunks: Seq<Hunk>, cursor_line: usize, forward: bool, x: usize)
    requires
        hunk_target(hunks, cursor_line, forward, x),
    ensures
        hunk_line(hunks, cursor_line, forward) == x,
{
    let y = hunk_line(hunks, cursor_line, forward);
    assert(hunk_target(hunks, cursor_line, forward, y));
    lemma_hunk_target_unique(hunks, cursor_line, forward, x, y);
}

impl VcsState {
    pub fn clear(&mut self)
        ensures
            is_unknown(*final(self)),
    {
        *self = VcsState::default();
    }

    pub fn sign_at(&self, line: usize, line_count: usize) -> (r: Option<SignKind>)
        ensures
            r == sign_of(self.hunks@, line as int, line_count as int),
    {
        let mut i: usize = 0;
        let ghost all = self.hunks@;
        assert(all.skip(0) =~= all);
        while i < self.hunks.len()
            invariant
                i <= all.len(),
                all == self.hunks@,
                sign_of(all.skip(i as int), line as int, line_count as int) == sign_of(all, line as int, line_count as int),
            decreases all.len() - i,
        {
            let hunk = self.hunks[i];
            assert(all.skip(i as int)[0] == hunk);
            assert(all.skip(i as int).drop_first() =~= all.skip(i + 1));
            match hunk.kind {
                SignKind::Add | SignKind::Change => {
                    if line >= hunk.new_start && line - hunk.new_start < hunk.new_len {
                        return Some(hunk.kind);
                    }
                },
                SignKind::Delete => {
                    let marker = if hunk.new_start >= line_count {
                        if line_count > 0 { line_count - 1 } else { 0 }
                    } else {
                        hunk.new_start
                    };
                    if hunk.new_start > 0 && line == marker {
                        return Some(SignKind::Delete);
                    }
                },
            }
            i = i + 1;
        }
        None
    }

    /// The next hunk start after `cursor_line` (before it, going back),
    /// wrapping to the first (last) hunk.
    pub fn next_hunk(&self, cursor_line: usize, forward: bool) -> (r: Option<usize>)
        ensures
            self.hunks@.len() == 0 ==> r is None,
            self.hunks@.len() > 0 ==> (r matches Some(x) && hunk_target(self.hunks@, cursor_line, forward, x)),
    {
        if self.hunks.len() == 0 {
            return None;
        }
        let ghost h = self.hunks@;
        // The extreme start overall, and the nearest one on the wanted side.
        let mut extreme = self.hunks[0].new_start;
        let mut nearest: Option<usize> = None;
        let mut i: usize = 0;
        while i < self.hunks.len()
            invariant
                h == self.hunks@,
                h.len() > 0,
                i <= h.len(),
                is_start(h, extreme),
                forall|j: int| 0 <= j < i ==> if forward { extreme <= #[trigger] h[j].new_start } else { extreme >= #[trigger] h[j].new_start },
                match nearest {
                    Some(x) => is_start(h, x) && (if forward { x > cursor_line } else { x < cursor_line })
                        && forall|j: int| 0 <= j < i && (if forward { #[trigger] h[j].new_start > cursor_line } else { h[j].new_start < cursor_line })
                            ==> (if forward { x <= h[j].new_start } else { x >= h[j].new_start }),
                    None => forall|j: int| 0 <= j < i ==> if forward { #[trigger] h[j].new_start <= cursor_line } else { h[j].new_start >= cursor_line },
                },
            decreases h.len() - i,
        {
            let s = self.hunks[i].new_start;
            assert(h[i as int].new_start == s);
            if (forward && s < extreme) || (!forward && s > extreme) {
                extreme = s;
            }
            let wanted = if forward { s > cursor_line } else { s < cursor_line };
            if wanted {
                match nearest {
                    Some(x) => {
                        if (forward && s < x) || (!forward && s > x) {
                            nearest = Some(s);
                        }
                    },
                    None => {
                        nearest = Some(s);
                    },
                }
            }
            i = i + 1;
        }
        match nearest {
            Some(x) => Some(x),
            None => Some(extreme),
        }
    }

    /// Lines added, changed and removed across the hunks; a change counts
    /// the larger of its two sides.
    pub fn counts(&self) -> (c: Counts)
        requires
            sum_added(self.hunks@) <= usize::MAX,
            sum_changed(self.hunks@) <= usize::MAX,
            sum_removed(self.hunks@) <= usize::MAX,
        ensures
            c.added == sum_added(self.hunks@),
            c.changed == sum_changed(self.hunks@),
            c.removed == sum_removed(self.hunks@),
    {
        let mut counts = Counts { added: 0, changed: 0, removed: 0 };
        let ghost h = self.hunks@;
        let mut i: usize = 0;
        while i < self.hunks.len()
            invariant
                h == self.hunks@,
                i <= h.len(),
                sum_added(h) <= usize::MAX,
                sum_changed(h) <= usize::MAX,
                sum_removed(h) <= usize::MAX,
                counts.added == sum_added(h.take(i as int)),
                counts.changed == sum_changed(h.take(i as int)),
                counts.removed == sum_removed(h.take(i as int)),
            decreases h.len() - i,
        {
            let hunk = self.hunks[i];
            proof {
                assert(h.take(i + 1).drop_last() =~= h.take(i as int));
                lemma_sums_monotone(h, i + 1);
            }
            match hunk.kind {
                SignKind::Add => {
                    counts.added = counts.added + hunk.new_len;
                },
                SignKind::Change => {
                    let bigger = if hunk.new_len >= hunk.old_len { hunk.new_len } else { hunk.old_len };
                    counts.changed = counts.changed + bigger;
                },
                SignKind::Delete => {
                    counts.removed = counts.removed + hunk.old_len;
                },
            }
            i = i + 1;
        }
        assert(h.take(h.len() as int) =~= h);
        counts
    }

    /// The blame of `line`, but only while the blame belongs to `revision`.
    pub fn cursor_blame(&self, line: usize, revision: u64) -> (r: Option<&BlameLine>)
        ensures
            match r {
                Some(b) => self.blame_revision == Some(revision) && exists|i: int| 0 <= i < self.blame@.len() && self.blame@[i] == *b && b.line == line
                    && forall|j: int| 0 <= j < i ==> (#[trigger] self.blame@[j]).line != line,
                None => self.blame_revision != Some(revision) || forall|i: int| 0 <= i < self.blame@.len() ==> (#[trigger] self.blame@[i]).line != line,
            },
    {
        match self.blame_revision {
            Some(r) => {
                if r != revision {
                    return None;
                }
            },
            None => {
                return None;
            },
        }
        let mut i: usize = 0;
        while i < self.blame.len()
            invariant
                i <= self.blame@.len(),
                self.blame_revision == Some(revision),
                forall|j: int| 0 <= j < i ==> (#[trigger] self.blame@[j]).line != line,
            decreases self.blame@.len() - i,
        {
            if self.blame[i].line == line {
                assert(self.blame@[i as int] == self.blame[i as int]);
                return Some(&self.blame[i]);
            }
            i = i + 1;
        }
        None
    }
}

} // verus!
