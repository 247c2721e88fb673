use nvimglsl::editcore::buffer::Buffer;
use nvimglsl::editcore::buffers::BufferId;
use nvimglsl::editcore::editor::{Options, Visual};
use nvimglsl::editcore::vcs::{Hunk, SignKind, VcsState};
use nvimglsl::editcore::window::{WindowId, WindowView};
use nvimglsl::lsp::types::{Diagnostic, Position, Range};
use nvimglsl::proto::hl;
use nvimglsl::proto::paint::{
    char_width, gutter_width, markdown_spans, render_window_lines, FocusRender, RenderRow,
};

fn view(cursor: (usize, usize), cols: usize, rows: usize) -> WindowView {
    WindowView {
        id: WindowId(1),
        grid: 1,
        buffer: BufferId(1),
        cursor,
        desired_col: 0,
        top_line: 0,
        cols,
        rows,
    }
}

fn focus<'a>(vcs: Option<&'a VcsState>, diagnostics: &'a [Diagnostic]) -> FocusRender<'a> {
    FocusRender {
        visual_range: None,
        visual_kind: None,
        last_search: None,
        highlight_search: false,
        vcs,
        cursor_blame: None,
        diagnostics,
    }
}

fn text(row: &RenderRow) -> String {
    row.cells.iter().map(|c| c.text).collect()
}

fn diagnostic(line: usize, message: &str) -> Diagnostic {
    Diagnostic {
        range: Range {
            start: Position { line, character: 0 },
            end: Position { line, character: 1 },
        },
        severity: Some(1),
        source: None,
        message: message.to_string(),
    }
}

fn numbered() -> Options {
    let mut options = Options::default();
    options.number = true;
    options
}

#[test]
fn render_window_lines_can_be_tested_without_an_editor() {
    let buffer = Buffer::from_text("# title\nplain  \n");
    let mut options = Options::default();
    options.number = true;
    options.list = true;
    options.listchar_trail = '.';
    let view = WindowView {
        id: WindowId(1),
        grid: 1,
        buffer: BufferId(1),
        cursor: (1, 0),
        desired_col: 0,
        top_line: 0,
        cols: 20,
        rows: 3,
    };
    let rows = render_window_lines(
        &view,
        &buffer,
        &options,
        Some(FocusRender {
            visual_range: None,
            visual_kind: None,
            last_search: Some("ain"),
            highlight_search: true,
            vcs: None,
            cursor_blame: None,
            diagnostics: &[],
        }),
    );
    assert_eq!(rows.len(), 3);
    assert_eq!(rows[0].cells[gutter_width(buffer.line_count())].text, '#');
    assert_eq!(
        rows[0].cells[gutter_width(buffer.line_count())].hl,
        hl::HEADING
    );
    assert!(rows[1]
        .cells
        .iter()
        .any(|cell| cell.text == '.' && cell.hl == hl::NON_TEXT));
    assert_eq!(rows[2].cells[0].text, '~');
}

#[test]
fn markdown_headings_and_code_get_their_own_highlight() {
    let spans = markdown_spans("# title");
    assert!(spans.iter().all(|&s| s == hl::HEADING));
    let spans = markdown_spans("a `code` b");
    assert_eq!(spans[2], hl::CODE);
    assert_eq!(spans[0], hl::DEFAULT);
}

#[test]
fn a_diagnostic_takes_the_sign_cell_from_a_git_sign() {
    let buffer = Buffer::from_text("one\ntwo\n");
    let mut vcs = VcsState::default();
    vcs.hunks = vec![Hunk { old_start: 0, old_len: 0, new_start: 1, new_len: 1, kind: SignKind::Add }];
    let v = view((0, 0), 40, 2);
    let rows = render_window_lines(&v, &buffer, &numbered(), Some(focus(Some(&vcs), &[])));
    assert_eq!(text(&rows[1]), "  2 +two");
    assert_eq!(rows[1].cells[4].hl, hl::GIT_ADD);
    let diagnostics = vec![diagnostic(1, "bad")];
    let rows = render_window_lines(&v, &buffer, &numbered(), Some(focus(Some(&vcs), &diagnostics)));
    assert!(text(&rows[1]).starts_with("  2 Etwo"));
    assert_eq!(rows[1].cells[4].hl, hl::DIAG_ERROR);
    assert_eq!(text(&rows[1]), "  2 Etwo  bad");
}

#[test]
fn a_diagnostic_message_wins_the_end_of_the_line_from_blame() {
    let buffer = Buffer::from_text("hello\n");
    let v = view((0, 0), 60, 1);
    let mut f = focus(None, &[]);
    f.cursor_blame = Some("abc123 Mina initial".to_string());
    let rows = render_window_lines(&v, &buffer, &Options::default(), Some(f));
    assert_eq!(text(&rows[0]), "     hello  abc123 Mina initial");
    let diagnostics = vec![diagnostic(0, "bad binding")];
    let mut f = focus(None, &diagnostics);
    f.cursor_blame = Some("abc123 Mina initial".to_string());
    let rows = render_window_lines(&v, &buffer, &Options::default(), Some(f));
    assert!(text(&rows[0]).contains("bad binding"));
    assert!(!text(&rows[0]).contains("abc123"));
}

#[test]
fn the_most_severe_diagnostic_on_a_line_wins_and_the_first_of_equals() {
    let buffer = Buffer::from_text("hello\n");
    let v = view((0, 0), 60, 1);
    let mut warn = diagnostic(0, "warned");
    warn.severity = Some(2);
    let diagnostics = vec![warn, diagnostic(0, "first error"), diagnostic(0, "second error")];
    let rows = render_window_lines(&v, &buffer, &Options::default(), Some(focus(None, &diagnostics)));
    assert_eq!(text(&rows[0]), "    Ehello  first error");
    assert_eq!(rows[0].cells[5].hl, hl::DIAG_ERROR);
    assert_eq!(rows[0].cells[6].hl, hl::DEFAULT);
}

#[test]
fn text_stops_where_the_window_ends_and_wide_characters_take_two_cells() {
    let buffer = Buffer::from_text("あいうえお\n");
    let v = view((0, 0), 9, 1);
    let rows = render_window_lines(&v, &buffer, &Options::default(), None);
    assert_eq!(char_width('あ'), 2);
    assert_eq!(text(&rows[0]), "     あい");
    let v = view((0, 0), 10, 1);
    let rows = render_window_lines(&v, &buffer, &Options::default(), None);
    assert_eq!(text(&rows[0]), "     あいう");
}

#[test]
fn a_line_selection_fills_to_the_edge_and_the_cursor_line_is_marked() {
    let buffer = Buffer::from_text("a\nb\nc\n");
    let mut options = numbered();
    options.cursorline = true;
    let v = view((1, 0), 20, 4);
    let mut f = focus(None, &[]);
    f.visual_range = Some(((0, 0), (1, 0)));
    f.visual_kind = Some(Visual::Line);
    let rows = render_window_lines(&v, &buffer, &options, Some(f));
    assert_eq!(rows[0].fill, hl::VISUAL);
    assert_eq!(rows[1].fill, hl::VISUAL);
    assert_eq!(rows[2].fill, hl::DEFAULT);
    assert_eq!(rows[0].cells[5].hl, hl::VISUAL);
    assert_eq!(rows[1].cells[0].hl, hl::CURSOR_LINE_NR);
    assert_eq!(rows[2].cells[0].hl, hl::LINE_NR);
    assert_eq!(text(&rows[1]), "  2  b");
    assert_eq!(rows[3].cells.len(), 1);
    assert_eq!(rows[3].cells[0].text, '~');
    assert_eq!(rows[3].fill, hl::DEFAULT);
}

#[test]
fn tabs_show_as_the_list_character() {
    let buffer = Buffer::from_text("\tx \n");
    let mut options = Options::default();
    options.list = true;
    let v = view((0, 0), 20, 1);
    let rows = render_window_lines(&v, &buffer, &options, None);
    assert_eq!(text(&rows[0]), "     >x-");
    assert_eq!(rows[0].cells[5].hl, hl::NON_TEXT);
    assert_eq!(rows[0].cells[6].hl, hl::DEFAULT);
    assert_eq!(rows[0].cells[7].hl, hl::NON_TEXT);
}
