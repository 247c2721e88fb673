use nvimglsl::editcore::buffer::{Buffer, FileRead, OpenError};

#[test]
fn text_round_trips_through_lines() {
    let buffer = Buffer::from_text("one\ntwo\n");
    assert_eq!(buffer.line_count(), 2);
    assert_eq!(buffer.text(), "one\ntwo\n");
}

#[test]
fn a_file_without_a_final_newline_keeps_not_having_one() {
    let buffer = Buffer::from_text("one\ntwo");
    assert_eq!(buffer.text(), "one\ntwo");
}

#[test]
fn columns_count_characters_not_bytes() {
    let mut buffer = Buffer::from_text("あい\n");
    assert_eq!(buffer.line_len(0), 2);
    buffer.insert_char(0, 1, 'x');
    assert_eq!(buffer.line_text(0), "あxい");
}

#[test]
fn undo_restores_the_previous_text_and_cursor() {
    let mut buffer = Buffer::from_text("one\n");
    let revision = buffer.revision();
    buffer.begin_change((0, 0));
    buffer.insert_str(0, 0, "zero ");
    buffer.commit_change();
    assert_eq!(buffer.revision(), revision + 1);
    assert_eq!(buffer.line_text(0), "zero one");
    assert_eq!(buffer.undo((0, 5)), Some((0, 0)));
    assert_eq!(buffer.revision(), revision + 2);
    assert_eq!(buffer.line_text(0), "one");
    assert_eq!(buffer.redo((0, 0)), Some((0, 5)));
    assert_eq!(buffer.revision(), revision + 3);
    assert_eq!(buffer.line_text(0), "zero one");
}

#[test]
fn a_change_that_changed_nothing_is_not_an_undo_step() {
    let mut buffer = Buffer::from_text("one\n");
    let revision = buffer.revision();
    buffer.begin_change((0, 0));
    buffer.commit_change();
    assert_eq!(buffer.revision(), revision);
    assert_eq!(buffer.undo((0, 0)), None);
    assert!(!buffer.modified());
}

#[test]
fn direct_line_replacements_advance_the_revision() {
    let mut buffer = Buffer::from_text("one\n");
    let revision = buffer.revision();
    buffer.set_lines(vec!["two".into()]);
    assert_eq!(buffer.revision(), revision + 1);
    buffer.splice_lines(0, 1, vec!["three".into()]);
    assert_eq!(buffer.revision(), revision + 2);
}

#[test]
fn joining_collapses_indentation_into_one_space() {
    let mut buffer = Buffer::from_text("one\n    two\n");
    assert_eq!(buffer.join_lines(0, true), Some(3));
    assert_eq!(buffer.line_text(0), "one two");
}

#[test]
fn removing_every_line_leaves_one_empty_line() {
    let mut buffer = Buffer::from_text("one\ntwo\n");
    buffer.remove_lines(0, 2);
    assert_eq!(buffer.line_count(), 1);
    assert_eq!(buffer.line_text(0), "");
}

#[test]
fn a_directory_is_not_opened_as_text() {
    // Reading "/" reports a directory: something that is not a file to edit.
    let Err(err) = Buffer::open("/", FileRead::NotAFile) else {
        panic!("a directory is not a file to edit");
    };
    assert_eq!(err, OpenError::NotAFile);
}

#[test]
fn crlf_text_is_written_back_with_crlf() {
    let buffer = Buffer::from_text("a\r\nb\r\n");
    assert_eq!(buffer.line_count(), 2);
    assert_eq!(buffer.line_text(0), "a");
    assert_eq!(buffer.text(), "a\r\nb\r\n");
}

#[test]
fn the_empty_text_comes_back_as_one_newline() {
    let buffer = Buffer::from_text("");
    assert_eq!(buffer.line_count(), 1);
    assert_eq!(buffer.text(), "\n");
}

#[test]
fn a_missing_file_starts_an_empty_named_buffer() {
    let buffer = Buffer::open("new.txt", FileRead::Missing).ok().unwrap();
    assert_eq!(buffer.path(), Some("new.txt"));
    assert_eq!(buffer.name(), "new.txt");
    assert_eq!(buffer.line_count(), 1);
    assert!(!buffer.modified());
    assert_eq!(Buffer::empty().name(), "[No Name]");
}

#[test]
fn deleting_inside_a_line_returns_what_went() {
    let mut buffer = Buffer::from_text("abcdef\n");
    assert_eq!(buffer.delete_range_in_line(0, 1, 3), "bc");
    assert_eq!(buffer.line_text(0), "adef");
    assert_eq!(buffer.delete_range_in_line(0, 3, 2), "");
    assert_eq!(buffer.delete_range_in_line(5, 0, 2), "");
    assert_eq!(buffer.delete_range_in_line(0, 2, 99), "ef");
}

#[test]
fn splitting_and_joining_without_space() {
    let mut buffer = Buffer::from_text("hello\n");
    buffer.split_line(0, 2);
    assert_eq!(buffer.lines_text(0, 9), vec!["he".to_string(), "llo".to_string()]);
    assert_eq!(buffer.join_lines(0, false), Some(2));
    assert_eq!(buffer.line_text(0), "hello");
    assert_eq!(buffer.join_lines(0, false), None);
}

#[test]
fn insert_and_replace_lines() {
    let mut buffer = Buffer::from_text("b\n");
    buffer.insert_line(0, vec!['a']);
    buffer.insert_line(99, vec!['c']);
    buffer.replace_line(1, vec!['B']);
    buffer.replace_line(9, vec!['x']);
    assert_eq!(buffer.text(), "a\nB\nc\n");
    assert_eq!(buffer.remove_lines(1, 5), vec!["B".to_string(), "c".to_string()]);
    assert_eq!(buffer.remove_lines(3, 1), Vec::<String>::new());
}

#[test]
fn write_target_and_marking_written() {
    let mut buffer = Buffer::from_text("x\n");
    assert_eq!(buffer.write_target(None), None);
    assert_eq!(buffer.write_target(Some("a.txt")), Some("a.txt".to_string()));
    buffer.set_lines(vec!["y".into()]);
    assert!(buffer.modified());
    buffer.mark_written("a.txt".into(), true);
    assert!(!buffer.modified());
    assert_eq!(buffer.path(), Some("a.txt"));
    buffer.mark_written("b.txt".into(), true);
    assert_eq!(buffer.path(), Some("a.txt"));
}

#[test]
fn crlf_texts_come_back_with_or_without_a_final_line_break() {
    for t in ["a\r\nb", "\r\n", "x\r\n\r\ny", "one\r\ntwo\r\n\r\n"] {
        let b = Buffer::from_text(t);
        assert_eq!(b.text(), t);
        assert!(!b.modified());
    }
    assert_eq!(Buffer::from_text("").text(), "\n");
}
