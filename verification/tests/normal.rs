use nvimglsl::editcore::buffer::{Buffer, FileRead, OpenError};
use nvimglsl::editcore::editor::{Editor, Mode};

fn editor(text: &str) -> Editor {
    Editor::new(Buffer::from_text(text))
}

fn lines(e: &Editor) -> Vec<String> {
    e.buffer.lines_text(0, e.buffer.line_count())
}

#[test]
fn tilde_flips_the_case_of_count_characters_and_moves_past_them() {
    let mut e = editor("abC1d\n");
    e.feed_str("3~");
    assert_eq!(lines(&e), vec!["ABc1d"]);
    assert_eq!(e.cursor, (0, 3));
    e.feed_str("9~");
    assert_eq!(lines(&e), vec!["ABc1D"]);
    assert_eq!(e.cursor, (0, 4));
    e.feed_str("u");
    assert_eq!(lines(&e), vec!["ABc1d"]);
}

#[test]
fn j_joins_count_minus_one_lines_with_one_space() {
    let mut e = editor("a  \n   b\nc\nd\n");
    e.feed_str("J");
    assert_eq!(lines(&e), vec!["a b", "c", "d"]);
    assert_eq!(e.cursor, (0, 1));
    e.feed_str("3J");
    assert_eq!(lines(&e), vec!["a b c d"]);
    assert_eq!(e.cursor, (0, 5));
    e.feed_str("J");
    assert_eq!(lines(&e), vec!["a b c d"]);
}

#[test]
fn r_replaces_count_characters_and_stops_at_the_line_end() {
    let mut e = editor("abcd\n");
    e.feed_str("2rx");
    assert_eq!(lines(&e), vec!["xxcd"]);
    assert_eq!(e.cursor, (0, 1));
    e.feed_str("$5ry");
    assert_eq!(lines(&e), vec!["xxcyyyyy"]);
    assert_eq!(e.cursor, (0, 7));
}

#[test]
fn x_and_x_before_take_characters_into_the_register() {
    let mut e = editor("abcdef\n");
    e.feed_str("$2X");
    assert_eq!(lines(&e), vec!["abcf"]);
    assert_eq!(e.cursor, (0, 3));
    assert_eq!(e.register('"').unwrap().lines, vec!["de".to_string()]);
    e.feed_str("0\"a2x");
    assert_eq!(lines(&e), vec!["cf"]);
    assert_eq!(e.register('a').unwrap().lines, vec!["ab".to_string()]);
    assert_eq!(e.register('"').unwrap().lines, vec!["ab".to_string()]);
}

#[test]
fn d_c_and_s_take_the_rest_or_a_count() {
    let mut e = editor("hello world\n");
    e.feed_str("wD");
    assert_eq!(lines(&e), vec!["hello "]);
    assert_eq!(e.mode, Mode::Normal);
    assert_eq!(e.register('"').unwrap().lines, vec!["world".to_string()]);
    let mut e = editor("hello world\n");
    e.feed_str("lCy<Esc>");
    assert_eq!(lines(&e), vec!["hy"]);
    let mut e = editor("hello\n");
    e.feed_str("2sJ<Esc>");
    assert_eq!(lines(&e), vec!["Jllo"]);
    assert_eq!(e.register('"').unwrap().lines, vec!["he".to_string()]);
}

#[test]
fn big_s_changes_count_lines_and_big_o_opens_above() {
    let mut e = editor("one\ntwo\nthree\n");
    e.feed_str("2Snew<Esc>");
    assert_eq!(lines(&e), vec!["new", "three"]);
    let mut e = editor("  one\n");
    e.feed_str("OX<Esc>");
    assert_eq!(lines(&e), vec!["  X", "  one"]);
    assert_eq!(e.cursor, (0, 2));
}

#[test]
fn a_and_capital_a_enter_insert_after_the_cursor_or_at_the_end() {
    let mut e = editor("ab\n");
    e.feed_str("aX<Esc>");
    assert_eq!(lines(&e), vec!["aXb"]);
    e.feed_str("AY<Esc>");
    assert_eq!(lines(&e), vec!["aXbY"]);
    e.feed_str("IZ<Esc>");
    assert_eq!(lines(&e), vec!["ZaXbY"]);
}

#[test]
fn z_commands_scroll_the_cursor_line() {
    let mut text = String::new();
    for i in 0..100 {
        text.push_str(&format!("{i}\n"));
    }
    let mut e = editor(&text);
    e.view_rows = 10;
    e.feed_str("50G");
    e.feed_str("zt");
    assert_eq!(e.top_line, 49);
    e.feed_str("zz");
    assert_eq!(e.top_line, 44);
    e.feed_str("zb");
    assert_eq!(e.top_line, 40);
}

#[test]
fn ctrl_e_and_ctrl_y_scroll_by_a_line_within_the_buffer() {
    let mut e = editor("a\nb\nc\n");
    e.feed_str("G<C-e>");
    assert_eq!(e.top_line, 1);
    e.feed_str("<C-e><C-e><C-e>");
    assert_eq!(e.top_line, 2);
    e.feed_str("<C-y>");
    assert_eq!(e.top_line, 1);
    e.feed_str("<C-y><C-y>");
    assert_eq!(e.top_line, 0);
    assert_eq!(e.cursor, (2, 0));
    // The view follows the cursor back after every key.
    e.feed_str("gg<C-e>");
    assert_eq!(e.top_line, 0);
}

#[test]
fn a_doubled_operator_takes_count_lines_and_visual_ends_after_an_operator() {
    let mut e = editor("a\nb\nc\nd\n");
    e.feed_str("2yy");
    assert_eq!(e.register('"').unwrap().lines, vec!["a".to_string(), "b".to_string()]);
    assert!(e.register('"').unwrap().linewise);
    e.feed_str("vly");
    assert_eq!(e.mode, Mode::Normal);
    e.feed_str("3dd");
    assert_eq!(lines(&e), vec!["d"]);
}

#[test]
fn substitution_counts_the_lines_it_changed() {
    let mut e = editor("a a\nb\na\n");
    e.feed_str(":%s/a/x/<CR>");
    assert_eq!(lines(&e), vec!["x a", "b", "x"]);
    assert_eq!(e.cursor, (2, 0));
    assert_eq!(e.message.as_ref().unwrap().text, "2 substitutions on 2 lines");
    e.feed_str(":s/q/x/<CR>");
    assert_eq!(e.message.as_ref().unwrap().text, "E486: Pattern not found: q");
    assert!(e.message.as_ref().unwrap().error);
    e.feed_str(":s//x/<CR>");
    assert_eq!(e.message.as_ref().unwrap().text, "E35: No previous regular expression");
    e.feed_str("u");
    assert_eq!(lines(&e), vec!["a a", "b", "a"]);
}

#[test]
fn after_every_key_the_cursor_line_is_on_screen() {
    let mut text = String::new();
    for i in 0..50 {
        text.push_str(&format!("{i}\n"));
    }
    let mut e = editor(&text);
    e.view_rows = 5;
    e.feed_str("G");
    assert!(e.top_line <= e.cursor.0 && e.cursor.0 < e.top_line + e.view_rows);
    e.feed_str("gg");
    assert_eq!(e.top_line, 0);
    e.feed_str("20j");
    assert!(e.top_line <= 20 && 20 < e.top_line + 5);
}

#[test]
fn an_unreadable_path_is_refused_and_a_missing_one_opens_empty() {
    let mut e = editor("one\n");
    assert_eq!(e.open("/tmp/dir", FileRead::NotAFile), Err(OpenError::NotAFile));
    assert_eq!(lines(&e), vec!["one"]);
    assert_eq!(
        e.open("/tmp/x", FileRead::Failed("denied".to_string())),
        Err(OpenError::Failed("denied".to_string()))
    );
    assert_eq!(e.open("/tmp/new.md", FileRead::Missing), Ok(()));
    assert_eq!(lines(&e), vec![""]);
    assert_eq!(e.open("/tmp/t.md", FileRead::Text("a\nb\n".to_string())), Ok(()));
    assert_eq!(lines(&e), vec!["a", "b"]);
    // Already open: taken up again whatever the read says.
    assert_eq!(e.open("/tmp/new.md", FileRead::NotAFile), Ok(()));
    assert_eq!(lines(&e), vec![""]);
}

#[test]
fn a_mapped_lua_call_that_cannot_run_says_so() {
    let mut e = editor("one\n");
    e.run_command("lua print('x')");
    assert_eq!(e.message.as_ref().unwrap().text, "print('x'): no Lua runtime in the editing path");
    e.run_command("  frobnicate ");
    assert_eq!(
        e.message.as_ref().unwrap().text,
        "frobnicate: mapped, but this host has no such command"
    );
}
