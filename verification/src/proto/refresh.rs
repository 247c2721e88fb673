//! Bringing a buffer's VCS state up to date: the decisions between the git
//! queries, one step per answer.

use vstd::prelude::*;
use crate::editcore::diff::{blob_lines, deleted_above, diff_hunks, hunks_from_text, texts};
use crate::editcore::vcs::{BlameLine, HeadLabel, Hunk, SignKind, VcsState, VcsStatus};
use crate::text::same_text;

verus! {

/// Buffers longer than this many lines get no VCS state.
pub const VCS_MAX_LINES: usize = 20_000;

/// Buffers larger than this many bytes get no VCS state.
pub const VCS_MAX_BYTES: usize = 1_000_000;

/// What is remembered of a buffer's file between refreshes.
#[derive(Debug, PartialEq, Eq)]
pub struct VcsCache {
    pub path: Option<String>,
    pub resolved: bool,
    pub repo: Option<String>,
    pub head: Option<HeadLabel>,
    pub blob: Option<String>,
}

/// What a refresh is told of the buffer.
#[derive(Debug, PartialEq, Eq)]
pub struct BufferFacts {
    pub revision: u64,
    pub line_count: usize,
    /// The buffer's text length in bytes.
    pub text_len: usize,
    pub path: Option<String>,
    pub modified: bool,
    pub lines: Vec<String>,
}

/// What a refresh asks git.
#[derive(Clone, Copy, Debug, PartialEq, Eq, Structural)]
pub enum GitQuery {
    /// The repository holding the file.
    RepoRoot,
    /// The repository's head.
    Head,
    /// The file's text at the head.
    HeadBlob,
    /// Who last changed each line of the buffer's text.
    Blame,
}

/// The event a step takes: the start of a refresh, or git's answer to the
/// query the last step asked.
#[derive(Debug, PartialEq, Eq)]
pub enum GitAnswer {
    Start,
    RepoRoot(Option<String>),
    Head(Option<HeadLabel>),
    HeadBlob(Option<String>),
    Blame(Option<Vec<BlameLine>>),
}

pub enum HeadView {
    Branch(Seq<char>),
    Detached(Seq<char>),
    Unborn,
}

pub enum StatusView {
    Unknown,
    Ready,
    NotRepository,
    Unborn,
    TooLarge,
    Error(Seq<char>),
}

/// The cache as values.
#[verifier::ext_equal]
pub struct CacheModel {
    pub path: Option<Seq<char>>,
    pub resolved: bool,
    pub repo: Option<Seq<char>>,
    pub head: Option<HeadView>,
    pub blob: Option<Seq<char>>,
}

/// The VCS state as values.
#[verifier::ext_equal]
pub struct VcsModel {
    pub status: StatusView,
    pub head: Option<HeadView>,
    pub hunks: Seq<Hunk>,
    pub deleted_above: usize,
    pub blame: Seq<BlameLine>,
    pub diff_revision: Option<u64>,
    pub blame_revision: Option<u64>,
}

pub open spec fn text_of(s: Option<String>) -> Option<Seq<char>> {
    match s {
        Some(t) => Some(t@),
        None => None,
    }
}

pub open spec fn head_view(h: HeadLabel) -> HeadView {
    match h {
        HeadLabel::Branch(s) => HeadView::Branch(s@),
        HeadLabel::Detached(s) => HeadView::Detached(s@),
        HeadLabel::Unborn => HeadView::Unborn,
    }
}

pub open spec fn head_of(h: Option<HeadLabel>) -> Option<HeadView> {
    match h {
        Some(l) => Some(head_view(l)),
        None => None,
    }
}

pub open spec fn status_view(s: VcsStatus) -> StatusView {
    match s {
        VcsStatus::Unknown => StatusView::Unknown,
        VcsStatus::Ready => StatusView::Ready,
        VcsStatus::NotRepository => StatusView::NotRepository,
        VcsStatus::Unborn => StatusView::Unborn,
        VcsStatus::TooLarge => StatusView::TooLarge,
        VcsStatus::Error(t) => StatusView::Error(t@),
    }
}

pub open spec fn cache_model(c: VcsCache) -> CacheModel {
    CacheModel { path: text_of(c.path), resolved: c.resolved, repo: text_of(c.repo), head: head_of(c.head), blob: text_of(c.blob) }
}

pub open spec fn vcs_model(v: VcsState) -> VcsModel {
    VcsModel {
        status: status_view(v.status),
        head: head_of(v.head),
        hunks: v.hunks@,
        deleted_above: v.deleted_above,
        blame: v.blame@,
        diff_revision: v.diff_revision,
        blame_revision: v.blame_revision,
    }
}

pub open spec fn unknown_model() -> VcsModel {
    VcsModel {
        status: StatusView::Unknown,
        head: None,
        hunks: Seq::empty(),
        deleted_above: 0,
        blame: Seq::empty(),
        diff_revision: None,
        blame_revision: None,
    }
}

/// A state that holds nothing for the buffer: `status`, no head, no hunks
/// and no blame, diffed at `rev`.
pub open spec fn emptied(v: VcsModel, status: StatusView, rev: u64) -> VcsModel {
    VcsModel { status, head: None, hunks: Seq::empty(), blame: Seq::empty(), diff_revision: Some(rev), blame_revision: None, ..v }
}

pub open spec fn failed(v: VcsModel, text: Seq<char>, rev: u64) -> VcsModel {
    VcsModel { status: StatusView::Error(text), diff_revision: Some(rev), ..v }
}

/// One step's outcome: the cache, the state, and the next query if any.
pub type StepModel = (CacheModel, VcsModel, Option<GitQuery>);

/// With the file's text at the head known: the hunks are redone when the
/// buffer changed since they were made (and a modified buffer's blame is
/// dropped); the state is then ready, and blame is asked for when the
/// buffer is unmodified and its blame is not of this revision.
pub open spec fn after_blob(c: CacheModel, v: VcsModel, rev: u64, modified: bool, lines: Seq<Seq<char>>) -> StepModel {
    match c.blob {
        None => (c, failed(v, "git blob failed"@, rev), None),
        Some(b) => {
            let v1 = if v.diff_revision != Some(rev) {
                let hs = diff_hunks(blob_lines(b), lines);
                let d = VcsModel { hunks: hs, deleted_above: deleted_above(hs) as usize, diff_revision: Some(rev), ..v };
                if modified { VcsModel { blame: Seq::empty(), blame_revision: None, ..d } } else { d }
            } else {
                v
            };
            let v2 = VcsModel { status: StatusView::Ready, ..v1 };
            (c, v2, if !modified && v2.blame_revision != Some(rev) { Some(GitQuery::Blame) } else { None })
        },
    }
}

/// With the head known: an unborn head makes the whole buffer one added
/// hunk; otherwise the head's text is asked for unless it is remembered.
pub open spec fn after_head(c: CacheModel, v: VcsModel, rev: u64, modified: bool, lines: Seq<Seq<char>>) -> StepModel {
    match c.head {
        None => (c, failed(v, "git head failed"@, rev), None),
        Some(h) => {
            let v1 = VcsModel { head: Some(h), ..v };
            if h is Unborn {
                let hunks = if lines.len() == 0 {
                    Seq::empty()
                } else {
                    seq![Hunk { old_start: 0, old_len: 0, new_start: 0, new_len: lines.len() as usize, kind: SignKind::Add }]
                };
                (c, VcsModel {
                    status: StatusView::Unborn,
                    hunks,
                    deleted_above: 0,
                    diff_revision: Some(rev),
                    blame: Seq::empty(),
                    blame_revision: None,
                    ..v1
                }, None)
            } else if c.blob is None {
                (c, v1, Some(GitQuery::HeadBlob))
            } else {
                after_blob(c, v1, rev, modified, lines)
            }
        },
    }
}

/// With the repository known: outside one there is nothing to show;
/// otherwise the head is asked for unless it is remembered.
pub open spec fn after_repo(c: CacheModel, v: VcsModel, rev: u64, modified: bool, lines: Seq<Seq<char>>) -> StepModel {
    match c.repo {
        None => (c, VcsModel { status: StatusView::NotRepository, head: None, hunks: Seq::empty(), diff_revision: Some(rev), ..v }, None),
        Some(_) => if c.head is None {
            (c, v, Some(GitQuery::Head))
        } else {
            after_head(c, v, rev, modified, lines)
        },
    }
}

/// The start of a refresh: too large a buffer, or one with no file, gets
/// nothing; a buffer whose file changed starts afresh; the repository is
/// asked for unless it is known.
pub open spec fn after_start(c: CacheModel, v: VcsModel, f: BufferFacts) -> StepModel {
    let rev = f.revision;
    if f.line_count > VCS_MAX_LINES || f.text_len > VCS_MAX_BYTES {
        (c, emptied(v, StatusView::TooLarge, rev), None)
    } else {
        match f.path {
            None => (c, emptied(v, StatusView::NotRepository, rev), None),
            Some(p) => {
                let fresh = c.path != Some(p@);
                let c1 = if fresh { CacheModel { path: Some(p@), resolved: false, repo: None, head: None, blob: None } } else { c };
                let v1 = if fresh { unknown_model() } else { v };
                if !c1.resolved {
                    (c1, v1, Some(GitQuery::RepoRoot))
                } else {
                    after_repo(c1, v1, rev, f.modified, texts(f.lines@))
                }
            },
        }
    }
}

/// One step of a refresh: from the cache, the state and the facts, on an
/// answer, to the new cache and state and the next query (`None` when the
/// refresh is done).
pub open spec fn refresh_step(c: CacheModel, v: VcsModel, f: BufferFacts, a: GitAnswer) -> StepModel {
    let rev = f.revision;
    let lines = texts(f.lines@);
    match a {
        GitAnswer::Start => after_start(c, v, f),
        GitAnswer::RepoRoot(r) => after_repo(CacheModel { repo: text_of(r), resolved: true, ..c }, v, rev, f.modified, lines),
        GitAnswer::Head(h) => after_head(CacheModel { head: head_of(h), ..c }, v, rev, f.modified, lines),
        GitAnswer::HeadBlob(b) => after_blob(CacheModel { blob: text_of(b), ..c }, v, rev, f.modified, lines),
        GitAnswer::Blame(bl) => (c, match bl {
            Some(b) => VcsModel { blame: b@, blame_revision: Some(rev), ..v },
            None => v,
        }, None),
    }
}

fn clone_head(h: &HeadLabel) -> (r: HeadLabel)
    ensures
        head_view(r) == head_view(*h),
{
    match h {
        HeadLabel::Branch(s) => HeadLabel::Branch(s.clone()),
        HeadLabel::Detached(s) => HeadLabel::Detached(s.clone()),
        HeadLabel::Unborn => HeadLabel::Unborn,
    }
}

fn blob_step(c: VcsCache, v: VcsState, f: &BufferFacts) -> (r: (VcsCache, VcsState, Option<GitQuery>))
    ensures
        ({
            let m = after_blob(cache_model(c), vcs_model(v), f.revision, f.modified, texts(f.lines@));
            cache_model(r.0) == m.0 && vcs_model(r.1) == m.1 && r.2 == m.2
        }),
{
    let rev = f.revision;
    let mut v = v;
    let found = match &c.blob {
        Some(b) => {
            if v.diff_revision != Some(rev) {
                let (hunks, deleted) = hunks_from_text(b.as_str(), f.lines.as_slice());
                v.hunks = hunks;
                v.deleted_above = deleted;
                v.diff_revision = Some(rev);
                if f.modified {
                    v.blame = Vec::new();
                    v.blame_revision = None;
                }
            }
            true
        },
        None => false,
    };
    if !found {
        v.status = VcsStatus::Error("git blob failed".to_owned());
        v.diff_revision = Some(rev);
        return (c, v, None);
    }
    v.status = VcsStatus::Ready;
    let ask = !f.modified && v.blame_revision != Some(rev);
    (c, v, if ask { Some(GitQuery::Blame) } else { None })
}

fn head_step(c: VcsCache, v: VcsState, f: &BufferFacts) -> (r: (VcsCache, VcsState, Option<GitQuery>))
    ensures
        ({
            let m = after_head(cache_model(c), vcs_model(v), f.revision, f.modified, texts(f.lines@));
            cache_model(r.0) == m.0 && vcs_model(r.1) == m.1 && r.2 == m.2
        }),
{
    let rev = f.revision;
    let mut v = v;
    let head = match &c.head {
        Some(h) => clone_head(h),
        None => {
            v.status = VcsStatus::Error("git head failed".to_owned());
            v.diff_revision = Some(rev);
            return (c, v, None);
        },
    };
    let unborn = match &head {
        HeadLabel::Unborn => true,
        _ => false,
    };
    v.head = Some(head);
    if unborn {
        let n = f.lines.len();
        v.status = VcsStatus::Unborn;
        v.hunks = if n == 0 {
            Vec::new()
        } else {
            vec![Hunk { old_start: 0, old_len: 0, new_start: 0, new_len: n, kind: SignKind::Add }]
        };
        v.deleted_above = 0;
        v.diff_revision = Some(rev);
        v.blame = Vec::new();
        v.blame_revision = None;
        proof {
            assert(texts(f.lines@).len() == n);
            if n > 0 {
                assert(v.hunks@ =~= seq![Hunk { old_start: 0, old_len: 0, new_start: 0, new_len: n, kind: SignKind::Add }]);
            }
        }
        return (c, v, None);
    }
    if c.blob.is_none() {
        return (c, v, Some(GitQuery::HeadBlob));
    }
    blob_step(c, v, f)
}

fn repo_step(c: VcsCache, v: VcsState, f: &BufferFacts) -> (r: (VcsCache, VcsState, Option<GitQuery>))
    ensures
        ({
            let m = after_repo(cache_model(c), vcs_model(v), f.revision, f.modified, texts(f.lines@));
            cache_model(r.0) == m.0 && vcs_model(r.1) == m.1 && r.2 == m.2
        }),
{
    let mut v = v;
    if c.repo.is_none() {
        v.status = VcsStatus::NotRepository;
        v.head = None;
        v.hunks = Vec::new();
        v.diff_revision = Some(f.revision);
        return (c, v, None);
    }
    if c.head.is_none() {
        return (c, v, Some(GitQuery::Head));
    }
    head_step(c, v, f)
}

fn same_path(a: &Option<String>, b: &String) -> (r: bool)
    ensures
        r == (text_of(*a) == Some(b@)),
{
    match a {
        Some(p) => same_text(p.as_str(), b.as_str()),
        None => false,
    }
}

fn start_step(c: VcsCache, v: VcsState, f: &BufferFacts) -> (r: (VcsCache, VcsState, Option<GitQuery>))
    ensures
        ({
            let m = after_start(cache_model(c), vcs_model(v), *f);
            cache_model(r.0) == m.0 && vcs_model(r.1) == m.1 && r.2 == m.2
        }),
{
    let rev = f.revision;
    let mut v = v;
    let too_large = f.line_count > VCS_MAX_LINES || f.text_len > VCS_MAX_BYTES;
    let path = match &f.path {
        Some(p) => {
            if !too_large {
                Some(p.clone())
            } else {
                None
            }
        },
        None => None,
    };
    if too_large || path.is_none() {
        v.status = if too_large { VcsStatus::TooLarge } else { VcsStatus::NotRepository };
        v.head = None;
        v.hunks = Vec::new();
        v.blame = Vec::new();
        v.diff_revision = Some(rev);
        v.blame_revision = None;
        return (c, v, None);
    }
    let p = match path {
        Some(p) => p,
        None => String::new(),
    };
    let mut c = c;
    if !same_path(&c.path, &p) {
        c = VcsCache { path: Some(p), resolved: false, repo: None, head: None, blob: None };
        v.clear();
    }
    if !c.resolved {
        return (c, v, Some(GitQuery::RepoRoot));
    }
    repo_step(c, v, f)
}

/// One step of a refresh, as `refresh_step` says. A refresh starts with
/// `GitAnswer::Start` and goes on, each query answered by git, until a
/// step asks nothing more.
pub fn vcs_step(cache: VcsCache, vcs: VcsState, facts: &BufferFacts, answer: GitAnswer) -> (r: (VcsCache, VcsState, Option<GitQuery>))
    ensures
        ({
            let m = refresh_step(cache_model(cache), vcs_model(vcs), *facts, answer);
            cache_model(r.0) == m.0 && vcs_model(r.1) == m.1 && r.2 == m.2
        }),
{
    let mut c = cache;
    let mut v = vcs;
    match answer {
        GitAnswer::Start => start_step(c, v, facts),
        GitAnswer::RepoRoot(root) => {
            c.repo = root;
            c.resolved = true;
            repo_step(c, v, facts)
        },
        GitAnswer::Head(h) => {
            c.head = h;
            head_step(c, v, facts)
        },
        GitAnswer::HeadBlob(b) => {
            c.blob = b;
            blob_step(c, v, facts)
        },
        GitAnswer::Blame(bl) => {
            if let Some(b) = bl {
                v.blame = b;
                v.blame_revision = Some(facts.revision);
            }
            (c, v, None)
        },
    }
}

} // verus!
