use nvimglsl::editcore::vcs::{BlameLine, Hunk, SignKind};
use nvimglsl::proto::views::{blame_row_text, blob_rows, hunk_rows};

#[test]
fn hunks_are_listed_one_based_with_their_kind() {
    let hunks = vec![
        Hunk { old_start: 0, old_len: 0, new_start: 0, new_len: 3, kind: SignKind::Add },
        Hunk { old_start: 9, old_len: 2, new_start: 11, new_len: 1, kind: SignKind::Change },
        Hunk { old_start: 4, old_len: 1, new_start: 4, new_len: 0, kind: SignKind::Delete },
    ];
    assert_eq!(hunk_rows(&hunks), vec!["+ old 1+0  new 1+3", "~ old 10+2  new 12+1", "- old 5+1  new 5+0"]);
    assert_eq!(hunk_rows(&vec![]), vec!["No hunks"]);
}

#[test]
fn the_head_view_shows_the_blob_lines_without_line_breaks() {
    assert_eq!(blob_rows("a\r\nb\n"), vec!["a", "b"]);
    assert_eq!(blob_rows("a\n\nb"), vec!["a", "", "b"]);
    assert_eq!(blob_rows(""), vec![""]);
    assert_eq!(blob_rows("x\n\n"), vec!["x", ""]);
}

#[test]
fn blame_rows_pad_their_columns() {
    let b = BlameLine { line: 6, commit: "abc123".into(), author: "Ann".into(), time: None, summary: "fix".into() };
    assert_eq!(blame_row_text(&b), format!("{:>5}  {:<12} {:<18} {}", 7, "abc123", "Ann", "fix"));
    let long = BlameLine { line: 123456, commit: "0123456789abcdef".into(), author: "日本語".into(), time: None, summary: "".into() };
    assert_eq!(blame_row_text(&long), format!("{:>5}  {:<12} {:<18} {}", 123457, "0123456789abcdef", "日本語", ""));
}
