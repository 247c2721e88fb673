use nvimglsl::editcore::vcs::{BlameLine, HeadLabel, SignKind, VcsState, VcsStatus};
use nvimglsl::proto::refresh::{vcs_step, BufferFacts, GitAnswer, GitQuery, VcsCache};

fn facts(lines: &[&str], path: Option<&str>, modified: bool, revision: u64) -> BufferFacts {
    let lines: Vec<String> = lines.iter().map(|l| l.to_string()).collect();
    let text_len = lines.iter().map(|l| l.len() + 1).sum();
    BufferFacts { revision, line_count: lines.len(), text_len, path: path.map(|p| p.to_string()), modified, lines }
}

fn empty_cache() -> VcsCache {
    VcsCache { path: None, resolved: false, repo: None, head: None, blob: None }
}

#[test]
fn large_or_unnamed_buffers_get_no_vcs_state() {
    let mut big = facts(&["x"], Some("/r/a.txt"), false, 1);
    big.line_count = 20_001;
    let (_, v, q) = vcs_step(empty_cache(), VcsState::default(), &big, GitAnswer::Start);
    assert_eq!((v.status, q, v.diff_revision), (VcsStatus::TooLarge, None, Some(1)));
    let mut heavy = facts(&["x"], Some("/r/a.txt"), false, 1);
    heavy.text_len = 1_000_001;
    assert_eq!(vcs_step(empty_cache(), VcsState::default(), &heavy, GitAnswer::Start).1.status, VcsStatus::TooLarge);
    let (_, v, q) = vcs_step(empty_cache(), VcsState::default(), &facts(&["x"], None, false, 2), GitAnswer::Start);
    assert_eq!((v.status, q), (VcsStatus::NotRepository, None));
}

#[test]
fn an_unborn_branch_makes_the_buffer_one_added_hunk() {
    let f = facts(&["a", "b", "c"], Some("/r/a.txt"), true, 4);
    let (c, v, q) = vcs_step(empty_cache(), VcsState::default(), &f, GitAnswer::Start);
    assert_eq!(q, Some(GitQuery::RepoRoot));
    let (c, v, q) = vcs_step(c, v, &f, GitAnswer::RepoRoot(Some("/r".into())));
    assert_eq!(q, Some(GitQuery::Head));
    let (_, v, q) = vcs_step(c, v, &f, GitAnswer::Head(Some(HeadLabel::Unborn)));
    assert_eq!(q, None);
    assert_eq!(v.status, VcsStatus::Unborn);
    assert_eq!(v.hunks.len(), 1);
    assert_eq!((v.hunks[0].new_start, v.hunks[0].new_len, v.hunks[0].kind), (0, 3, SignKind::Add));
}

#[test]
fn outside_a_repository_nothing_more_is_asked() {
    let f = facts(&["a"], Some("/tmp/a.txt"), false, 1);
    let (c, v, _) = vcs_step(empty_cache(), VcsState::default(), &f, GitAnswer::Start);
    let (c, v, q) = vcs_step(c, v, &f, GitAnswer::RepoRoot(None));
    assert_eq!((v.status.clone(), q), (VcsStatus::NotRepository, None));
    let (_, v, q) = vcs_step(c, v, &f, GitAnswer::Start);
    assert_eq!((v.status, q), (VcsStatus::NotRepository, None));
}

#[test]
fn blame_is_asked_only_for_an_unmodified_buffer_and_kept_per_revision() {
    let f = facts(&["a", "c"], Some("/r/a.txt"), false, 7);
    let (c, v, _) = vcs_step(empty_cache(), VcsState::default(), &f, GitAnswer::Start);
    let (c, v, _) = vcs_step(c, v, &f, GitAnswer::RepoRoot(Some("/r".into())));
    let (c, v, q) = vcs_step(c, v, &f, GitAnswer::Head(Some(HeadLabel::Branch("main".into()))));
    assert_eq!(q, Some(GitQuery::HeadBlob));
    let (c, v, q) = vcs_step(c, v, &f, GitAnswer::HeadBlob(Some("a\nb\n".into())));
    assert_eq!(q, Some(GitQuery::Blame));
    assert_eq!(v.status, VcsStatus::Ready);
    assert_eq!(v.head, Some(HeadLabel::Branch("main".into())));
    assert_eq!(v.hunks.len(), 1);
    assert_eq!(v.hunks[0].new_start, 1);
    let line = BlameLine { line: 0, commit: "abc".into(), author: "me".into(), time: None, summary: "s".into() };
    let (c, v, q) = vcs_step(c, v, &f, GitAnswer::Blame(Some(vec![line])));
    assert_eq!((q, v.blame.len(), v.blame_revision), (None, 1, Some(7)));
    let (c, v, q) = vcs_step(c, v, &f, GitAnswer::Start);
    assert_eq!((v.status.clone(), q), (VcsStatus::Ready, None));
    let edited = facts(&["a", "d"], Some("/r/a.txt"), true, 8);
    let (_, v, q) = vcs_step(c, v, &edited, GitAnswer::Start);
    assert_eq!(q, None);
    assert_eq!((v.blame.len(), v.blame_revision, v.diff_revision), (0, None, Some(8)));
}

#[test]
fn failed_git_answers_become_error_states() {
    let f = facts(&["a"], Some("/r/a.txt"), false, 1);
    let (c, v, _) = vcs_step(empty_cache(), VcsState::default(), &f, GitAnswer::Start);
    let (c, v, _) = vcs_step(c, v, &f, GitAnswer::RepoRoot(Some("/r".into())));
    let (_, v2, q) = vcs_step(VcsCache { head: None, ..c }, v.clone(), &f, GitAnswer::Head(None));
    assert_eq!((v2.status, q), (VcsStatus::Error("git head failed".into()), None));
    let c = VcsCache { path: Some("/r/a.txt".into()), resolved: true, repo: Some("/r".into()), head: Some(HeadLabel::Detached("abc1234".into())), blob: None };
    let (_, v3, q) = vcs_step(c, v, &f, GitAnswer::HeadBlob(None));
    assert_eq!((v3.status, q), (VcsStatus::Error("git blob failed".into()), None));
}
