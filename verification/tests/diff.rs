use nvimglsl::editcore::diff::{hunks, hunks_from_text};
use nvimglsl::editcore::vcs::SignKind;

fn lines(xs: &[&str]) -> Vec<String> {
    xs.iter().map(|s| s.to_string()).collect()
}

#[test]
fn additions_changes_and_deletions_become_hunks() {
    let old = lines(&["one", "two", "three", "gone"]);
    let new = lines(&["zero", "one", "TWO", "three"]);
    let (hunks, deleted_above) = hunks(&old, &new);
    assert_eq!(deleted_above, 0);
    assert_eq!(hunks.len(), 3);
    assert_eq!(hunks[0].kind, SignKind::Add);
    assert_eq!(hunks[1].kind, SignKind::Change);
    assert_eq!(hunks[2].kind, SignKind::Delete);
    assert_eq!(hunks[2].new_start, 4);
}

#[test]
fn deletion_before_the_first_line_is_counted_separately() {
    let old = lines(&["gone", "stay"]);
    let new = lines(&["stay"]);
    let (hunks, deleted_above) = hunks(&old, &new);
    assert_eq!(deleted_above, 1);
    assert_eq!(hunks[0].kind, SignKind::Delete);
    assert_eq!(hunks[0].new_start, 0);
}

#[test]
fn identical_texts_have_no_hunks() {
    let same = lines(&["a", "b", "c"]);
    let (hunks, deleted_above) = hunks(&same, &same);
    assert!(hunks.is_empty());
    assert_eq!(deleted_above, 0);
}

#[test]
fn a_change_spans_both_sides() {
    let old = lines(&["a", "b", "c"]);
    let new = lines(&["a", "x", "y", "c"]);
    let (hunks, _) = hunks(&old, &new);
    assert_eq!(hunks.len(), 1);
    let h = hunks[0];
    assert_eq!((h.old_start, h.old_len, h.new_start, h.new_len), (1, 1, 1, 2));
    assert_eq!(h.kind, SignKind::Change);
}

#[test]
fn the_blob_is_split_into_lines() {
    let buffer = lines(&["one", "two"]);
    let (hunks, _) = hunks_from_text("one\r\ntwo\n", &buffer);
    assert!(hunks.is_empty());
    let (hunks, _) = hunks_from_text("", &buffer);
    assert_eq!(hunks.len(), 1);
    assert_eq!(hunks[0].kind, SignKind::Add);
    assert_eq!((hunks[0].new_start, hunks[0].new_len), (0, 2));
}

#[test]
fn everything_deleted_counts_above() {
    let old = lines(&["x", "y"]);
    let (hunks, deleted_above) = hunks(&old, &[]);
    assert_eq!(hunks.len(), 1);
    assert_eq!(hunks[0].kind, SignKind::Delete);
    assert_eq!(deleted_above, 2);
}
