use nvimglsl::editcore::buffer::Buffer;
use nvimglsl::editcore::editor::{Editor, Mode, Options, Request, Scope};
use nvimglsl::editcore::vcs::{Hunk, SignKind};
use nvimglsl::luaconf::Mapping;

fn editor(text: &str) -> Editor {
    Editor::new(Buffer::from_text(text))
}

fn mappings(list: &[(&str, &str, &str)]) -> Vec<Mapping> {
    list.iter()
        .map(|(mode, lhs, rhs)| Mapping {
            mode: mode.to_string(),
            lhs: lhs.to_string(),
            rhs: rhs.to_string(),
        })
        .collect()
}

#[test]
fn insert_then_escape_leaves_normal_mode_on_the_last_character() {
    let mut e = editor("");
    e.feed_str("ihello");
    assert_eq!(e.mode, Mode::Insert);
    e.feed_str("<Esc>");
    assert_eq!(e.mode, Mode::Normal);
    assert_eq!(e.buffer.line_text(0), "hello");
    assert_eq!(e.cursor, (0, 4));
}

#[test]
fn hjkl_moves() {
    let mut e = editor("one\ntwo\n");
    e.feed_str("lj");
    assert_eq!(e.cursor, (1, 1));
    e.feed_str("kh");
    assert_eq!(e.cursor, (0, 0));
}

#[test]
fn bracket_c_moves_between_git_hunks() {
    let mut e = editor("one\ntwo\nthree\nfour\n");
    e.vcs.hunks = vec![
        Hunk { old_start: 0, old_len: 1, new_start: 1, new_len: 1, kind: SignKind::Change },
        Hunk { old_start: 3, old_len: 0, new_start: 3, new_len: 1, kind: SignKind::Add },
    ];
    e.feed_str("]c");
    assert_eq!(e.cursor.0, 1);
    e.feed_str("]c");
    assert_eq!(e.cursor.0, 3);
    e.feed_str("[c");
    assert_eq!(e.cursor.0, 1);
}

#[test]
fn counts_multiply_across_an_operator() {
    let mut e = editor("a b c d e f g\n");
    e.feed_str("2d3w");
    assert_eq!(e.buffer.line_text(0), "g");
}

#[test]
fn dd_removes_the_line_and_dollar_d_removes_to_the_end() {
    let mut e = editor("one\ntwo\nthree\n");
    e.feed_str("dd");
    assert_eq!(e.buffer.line_text(0), "two");
    assert_eq!(e.buffer.line_count(), 2);
    e.feed_str("ld$");
    assert_eq!(e.buffer.line_text(0), "t");
}

#[test]
fn de_includes_the_last_character_of_the_word() {
    let mut e = editor("one two\n");
    e.feed_str("de");
    assert_eq!(e.buffer.line_text(0), " two");
}

#[test]
fn yank_and_put_round_trip_linewise() {
    let mut e = editor("one\ntwo\n");
    e.feed_str("yyp");
    assert_eq!(e.buffer.lines_text(0, 3), vec!["one", "one", "two"]);
}

#[test]
fn undo_and_redo_walk_the_same_edit() {
    let mut e = editor("one\n");
    e.feed_str("x");
    assert_eq!(e.buffer.line_text(0), "ne");
    e.feed_str("u");
    assert_eq!(e.buffer.line_text(0), "one");
    e.feed_str("<C-r>");
    assert_eq!(e.buffer.line_text(0), "ne");
}

#[test]
fn visual_line_delete_takes_whole_lines() {
    let mut e = editor("one\ntwo\nthree\n");
    e.feed_str("Vjd");
    assert_eq!(e.buffer.line_count(), 1);
    assert_eq!(e.buffer.line_text(0), "three");
}

#[test]
fn cw_leaves_insert_mode_open_where_the_word_was() {
    let mut e = editor("one two\n");
    e.feed_str("cwX");
    assert_eq!(e.mode, Mode::Insert);
    assert_eq!(e.buffer.line_text(0), "X two");
}

#[test]
fn o_opens_a_line_below_and_keeps_the_indentation() {
    let mut e = editor("    one\n");
    e.feed_str("oX<Esc>");
    assert_eq!(e.buffer.line_text(1), "    X");
}

#[test]
fn search_moves_to_the_next_match_and_wraps() {
    let mut e = editor("alpha\nbeta\nalpha\n");
    e.feed_str("/beta<CR>");
    assert_eq!(e.cursor, (1, 0));
    e.feed_str("/alpha<CR>");
    assert_eq!(e.cursor, (2, 0));
    e.feed_str("n");
    assert_eq!(e.cursor, (0, 0));
}

#[test]
fn the_leader_mapping_asks_the_host_for_the_navigation_surface() {
    let mut e = editor("");
    e.feed_str(" o");
    assert_eq!(e.requests, vec![Request::OpenNavigation(Scope::Notes)]);
    e.requests.clear();
    e.feed_str(" f");
    assert_eq!(e.requests, vec![Request::OpenNavigation(Scope::Files)]);
}

#[test]
fn gf_asks_the_host_to_follow_a_link() {
    let mut e = editor("see [[alpha]]\n");
    e.feed_str("gf");
    assert_eq!(e.requests, vec![Request::FollowLink]);
}

#[test]
fn gd_asks_the_host_for_lsp_definition() {
    let mut e = editor("symbol\n");
    e.feed_str("gd");
    assert_eq!(e.requests, vec![Request::Definition]);
}

#[test]
fn ctrl_w_moves_focus_without_moving_the_cursor_column() {
    let mut e = editor("abcd\n");
    e.options.splitright = true;
    e.feed_str("ll<C-w>v");
    let right = e.focus_window();
    assert_eq!(e.cursor.1, 2);
    e.feed_str("<C-w>h");
    assert_ne!(e.focus_window(), right);
    assert_eq!(e.cursor.1, 2);
    e.feed_str("<C-w>w");
    assert_eq!(e.focus_window(), right);
    assert_eq!(e.cursor.1, 2);
}

#[test]
fn ctrl_w_split_close_and_only_update_the_window_model() {
    let mut e = editor("one\n");
    assert_eq!(e.views.len(), 1);
    e.feed_str("<C-w>s");
    assert_eq!(e.views.len(), 2);
    e.feed_str("<C-w>v");
    assert_eq!(e.views.len(), 3);
    e.feed_str("<C-w>c");
    assert_eq!(e.views.len(), 2);
    e.feed_str("<C-w>o");
    assert_eq!(e.views.len(), 1);
}

#[test]
fn space_p_asks_the_host_for_a_vertical_page() {
    let mut e = editor("本文。\n");
    e.feed_str(" p");
    assert_eq!(e.requests, vec![Request::Preview]);
}

#[test]
fn japanese_text_is_edited_by_character_not_byte() {
    let mut e = editor("あいう\n");
    e.feed_str("lx");
    assert_eq!(e.buffer.line_text(0), "あう");
}

#[test]
fn indent_moves_by_the_configured_shiftwidth() {
    let mut e = editor("one\ntwo\n");
    assert_eq!(e.options.shiftwidth, 8);
    e.feed_str(">j");
    assert_eq!(e.buffer.line_text(0), "        one");
    e.feed_str("<<");
    assert_eq!(e.buffer.line_text(0), "one");

    let options = Options { shiftwidth: 2, expandtab: true, ..Options::default() };
    let mut e = Editor::with_settings(Buffer::from_text("one\ntwo\n"), options, &Vec::new(), "\\");
    e.feed_str(">j");
    assert_eq!(e.buffer.line_text(0), "  one");
    assert_eq!(e.buffer.line_text(1), "  two");
}

#[test]
fn a_mapped_key_sequence_replaces_the_builtin() {
    let list = mappings(&[
        ("n", "Y", "y$"),
        ("n", "H", "^"),
        ("n", "L", "$"),
        ("i", "kj", "<ESC>"),
        ("n", "fj", "2j"),
    ]);
    let mut e = Editor::with_settings(
        Buffer::from_text("  alpha beta\ntwo\nthree\n"),
        Options::default(),
        &list,
        " ",
    );

    e.feed_str("wwY$p");
    assert_eq!(e.buffer.line_text(0), "  alpha betabeta");

    e.feed_str("H");
    assert_eq!(e.cursor.1, 2, "H should be ^, the first non-blank");
    e.feed_str("L");
    assert_eq!(e.cursor.1, e.buffer.line_len(0) - 1, "L should be $");

    e.feed_str("ggIx");
    assert_eq!(e.mode, Mode::Insert);
    e.feed_str("kj");
    assert_eq!(e.mode, Mode::Normal);
    assert!(e.buffer.line_text(0).starts_with("  x"), "{}", e.buffer.line_text(0));

    let mut e = Editor::with_settings(
        Buffer::from_text("  alpha beta\ntwo\nthree\n"),
        Options::default(),
        &list,
        " ",
    );
    e.feed_str("fj");
    assert_eq!(e.cursor.0, 2, "fj should be the mapping, not find-j");
    e.feed_str("gg0fb");
    assert_eq!(e.cursor, (0, 8), "f followed by anything else still finds");
}

#[test]
fn a_mapped_command_reaches_the_host_and_an_unknown_one_says_so() {
    let list = mappings(&[
        ("n", "<space>o", "<cmd>Telescope find_files<cr>"),
        ("n", "<Leader>q", "<cmd>q<CR>"),
        ("n", "<F5>", "<cmd>Jaq<CR>"),
    ]);
    let mut e = Editor::with_settings(Buffer::from_text("x\n"), Options::default(), &list, " ");
    e.feed_str(" o");
    assert_eq!(e.requests, vec![Request::OpenNavigation(Scope::Files)]);
    e.feed_str(" q");
    assert!(e.requests.contains(&Request::Quit));
    e.feed_str("<F5>");
    assert!(
        e.message.as_ref().unwrap().text.contains("no such command"),
        "an unrunnable mapping must say so: {:?}",
        e.message
    );
}

#[test]
fn search_follows_ignorecase_and_smartcase() {
    let options = Options { ignorecase: true, smartcase: true, ..Options::default() };
    let mut e = Editor::with_settings(Buffer::from_text("alpha\nAlpha\n"), options, &Vec::new(), "\\");
    e.feed_str("/alpha<CR>");
    assert_eq!(e.cursor.0, 1, "a lowercase pattern should match either case");
    e.feed_str("gg/Alpha<CR>");
    assert_eq!(e.cursor.0, 1, "a capital in the pattern means it was meant");
}

#[test]
fn a_named_register_survives_an_intervening_delete() {
    let mut e = editor("one\ntwo\n");
    e.feed_str("\"ayy");
    e.feed_str("jdd");
    e.feed_str("\"ap");
    assert_eq!(e.buffer.lines_text(0, 2), vec!["one", "one"]);
}

#[test]
#[allow(non_snake_case)]
fn G_and_gg_go_to_the_ends_and_a_count_goes_to_a_line() {
    let mut e = editor("one\ntwo\nthree\n");
    e.feed_str("G");
    assert_eq!(e.cursor.0, 2);
    e.feed_str("gg");
    assert_eq!(e.cursor.0, 0);
    e.feed_str("2G");
    assert_eq!(e.cursor.0, 1);
}

#[test]
fn each_window_keeps_its_own_place() {
    let mut e = editor("one\ntwo\nthree\nfour\n");
    e.options.splitright = true;
    e.feed_str("<C-w>v");
    let right = e.focus_window();
    e.feed_str("3Gll");
    assert_eq!(e.cursor, (2, 2));
    e.feed_str("<C-w>h");
    assert_ne!(e.focus_window(), right);
    e.feed_str("gg");
    assert_eq!(e.cursor, (0, 0));
    e.feed_str("<C-w>l");
    assert_eq!(e.focus_window(), right);
    assert_eq!(e.cursor, (2, 2));
    e.feed_str("<C-w>h");
    assert_eq!(e.cursor, (0, 0));
}

#[test]
fn gt_and_gt_back_restore_the_tab_window() {
    let mut e = editor("alpha\nbeta\n");
    e.feed_str("jl");
    assert_eq!(e.cursor, (1, 1));
    e.new_tab();
    assert_eq!(e.cursor, (0, 0));
    e.feed_str("gT");
    assert_eq!(e.cursor, (1, 1));
    assert_eq!(e.buffer.line(1).iter().collect::<String>(), "beta");
    e.feed_str("gt");
    assert_eq!(e.cursor, (0, 0));
}
