use nvimglsl::editcore::vcs::{BlameLine, HeadLabel, Hunk, SignKind, VcsState, VcsStatus};

#[test]
fn deletion_blocks_mark_the_next_line_but_not_above_line_zero() {
    let mut vcs = VcsState::default();
    vcs.hunks = vec![
        Hunk {
            old_start: 0,
            old_len: 1,
            new_start: 0,
            new_len: 0,
            kind: SignKind::Delete,
        },
        Hunk {
            old_start: 3,
            old_len: 2,
            new_start: 2,
            new_len: 0,
            kind: SignKind::Delete,
        },
    ];
    assert_eq!(vcs.sign_at(0, 3), None);
    assert_eq!(vcs.sign_at(2, 3), Some(SignKind::Delete));
}

#[test]
fn hunk_motion_wraps_in_both_directions() {
    let mut vcs = VcsState::default();
    vcs.hunks = vec![
        Hunk {
            old_start: 0,
            old_len: 0,
            new_start: 2,
            new_len: 1,
            kind: SignKind::Add,
        },
        Hunk {
            old_start: 4,
            old_len: 1,
            new_start: 8,
            new_len: 1,
            kind: SignKind::Change,
        },
    ];
    assert_eq!(vcs.next_hunk(2, true), Some(8));
    assert_eq!(vcs.next_hunk(8, true), Some(2));
    assert_eq!(vcs.next_hunk(8, false), Some(2));
    assert_eq!(vcs.next_hunk(2, false), Some(8));
}

#[test]
fn counts_take_the_larger_side_of_a_change() {
    let mut vcs = VcsState::default();
    vcs.hunks = vec![
        Hunk { old_start: 0, old_len: 0, new_start: 0, new_len: 2, kind: SignKind::Add },
        Hunk { old_start: 3, old_len: 3, new_start: 4, new_len: 1, kind: SignKind::Change },
        Hunk { old_start: 9, old_len: 4, new_start: 7, new_len: 0, kind: SignKind::Delete },
    ];
    let counts = vcs.counts();
    assert_eq!((counts.added, counts.changed, counts.removed), (2, 3, 4));
    assert_eq!(vcs.sign_at(1, 10), Some(SignKind::Add));
    assert_eq!(vcs.sign_at(4, 10), Some(SignKind::Change));
    assert_eq!(vcs.sign_at(7, 10), Some(SignKind::Delete));
    assert_eq!(vcs.sign_at(5, 10), None);
    assert_eq!(vcs.next_hunk(0, true), Some(4));
    vcs.clear();
    assert_eq!(vcs.status, VcsStatus::Unknown);
    assert_eq!(vcs.next_hunk(0, true), None);
}

#[test]
fn a_deletion_at_the_end_marks_the_last_line() {
    let mut vcs = VcsState::default();
    vcs.hunks = vec![Hunk { old_start: 3, old_len: 1, new_start: 3, new_len: 0, kind: SignKind::Delete }];
    assert_eq!(vcs.sign_at(2, 3), Some(SignKind::Delete));
}

#[test]
fn blame_belongs_to_its_revision() {
    let mut vcs = VcsState::default();
    vcs.blame = vec![BlameLine {
        line: 0,
        commit: "abc123".into(),
        author: "Mina".into(),
        time: None,
        summary: "initial".into(),
    }];
    vcs.blame_revision = Some(4);
    assert_eq!(vcs.cursor_blame(0, 4).map(|b| b.author.clone()), Some("Mina".to_string()));
    assert!(vcs.cursor_blame(0, 5).is_none());
    assert!(vcs.cursor_blame(1, 4).is_none());
    assert_eq!(HeadLabel::Unborn.text(), "unborn");
    assert_eq!(HeadLabel::Branch("main".into()).text(), "main");
}
