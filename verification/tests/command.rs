use nvimglsl::editcore::buffer::Buffer;
use nvimglsl::editcore::command::wrote;
use nvimglsl::editcore::editor::{Editor, Request};

fn editor(text: &str) -> Editor {
    Editor::new(Buffer::from_text(text))
}

#[test]
fn a_bare_number_is_a_line_number() {
    let mut e = editor("one\ntwo\nthree\n");
    e.feed_str(":2<CR>");
    assert_eq!(e.cursor.0, 1);
}

#[test]
fn quit_refuses_while_modified_and_bang_overrides() {
    let mut e = editor("one\n");
    e.feed_str("x");
    e.feed_str(":q<CR>");
    assert!(e.requests.is_empty());
    assert!(e.message.as_ref().unwrap().error);
    e.feed_str(":q!<CR>");
    assert_eq!(e.requests, vec![Request::Quit]);
}

#[test]
fn substitute_replaces_on_the_current_line_only_without_a_range() {
    let mut e = editor("a a\na a\n");
    e.feed_str(":s/a/b/<CR>");
    assert_eq!(e.buffer.line_text(0), "b a");
    assert_eq!(e.buffer.line_text(1), "a a");
}

#[test]
fn percent_s_with_g_replaces_everywhere() {
    let mut e = editor("a a\na a\n");
    e.feed_str(":%s/a/b/g<CR>");
    assert_eq!(e.buffer.line_text(0), "b b");
    assert_eq!(e.buffer.line_text(1), "b b");
}

#[test]
fn a_substitution_that_matched_nothing_is_not_an_undo_step() {
    let mut e = editor("a\n");
    e.feed_str(":s/z/b/<CR>");
    assert!(e.message.as_ref().unwrap().error);
    assert!(!e.buffer.modified());
}

#[test]
fn note_needs_a_title_and_passes_it_through() {
    let mut e = editor("");
    e.feed_str(":Note<CR>");
    assert!(e.message.as_ref().unwrap().error);
    e.feed_str(":Note daily/2026-08-03<CR>");
    assert_eq!(e.requests, vec![Request::NewNote("daily/2026-08-03".into())]);
}

#[test]
fn an_unknown_command_says_so() {
    let mut e = editor("");
    e.feed_str(":frobnicate<CR>");
    assert!(e.message.as_ref().unwrap().text.starts_with("E492"));
}

#[test]
fn writing_asks_the_host_and_the_report_clears_modified() {
    let mut e = editor("one\n");
    e.feed_str("x");
    assert!(e.buffer.modified());
    e.feed_str(":w /tmp/notes/note.md<CR>");
    let (path, text, explicit, then_quit) = match e.requests.last() {
        Some(Request::Write { path, text, explicit, then_quit }) => {
            (path.clone(), text.clone(), *explicit, *then_quit)
        }
        other => panic!("no write asked: {other:?}"),
    };
    assert_eq!(path, "/tmp/notes/note.md");
    assert_eq!(text, "ne\n");
    assert!(explicit);
    assert!(!then_quit);
    wrote(&mut e, path, explicit, then_quit, Ok(()));
    assert!(!e.buffer.modified());
    assert_eq!(e.message.as_ref().unwrap().text, "\"/tmp/notes/note.md\" 1L written");
}

#[test]
fn a_write_without_a_name_says_so() {
    let mut e = editor("one\n");
    e.feed_str(":w<CR>");
    assert!(e.requests.is_empty());
    assert_eq!(e.message.as_ref().unwrap().text, "E212: no file name");
}

#[test]
fn wq_quits_once_the_write_is_reported() {
    let mut e = editor("one\n");
    e.feed_str(":wq /tmp/x.md<CR>");
    assert_eq!(e.requests.len(), 1);
    wrote(&mut e, "/tmp/x.md".into(), true, true, Ok(()));
    assert_eq!(e.requests.last(), Some(&Request::Quit));
    let mut f = editor("one\n");
    wrote(&mut f, "/tmp/x.md".into(), true, false, Err("permission denied".into()));
    assert_eq!(f.message.as_ref().unwrap().text, "E212: permission denied");
}

#[test]
fn dollar_goes_to_the_last_line_and_home_expands() {
    let mut e = editor("one\ntwo\nthree\n");
    e.feed_str(":$<CR>");
    assert_eq!(e.cursor, (2, 0));
    e.home = Some("/home/me".into());
    e.feed_str(":e! ~/notes/a.md<CR>");
    assert_eq!(e.requests, vec![Request::Edit("/home/me/notes/a.md".into())]);
}

#[test]
fn percent_s_reports_how_many_lines_changed() {
    let mut e = editor("a\nb\na\n");
    e.feed_str(":%s/a/c/<CR>");
    assert_eq!(e.message.as_ref().unwrap().text, "2 substitutions on 2 lines");
    assert_eq!(e.cursor, (2, 0));
    e.feed_str("u");
    assert_eq!(e.buffer.line_text(0), "a");
}
