use nvimglsl::picker::{Outcome, Picker, Source, TreeSource};
use nvimglsl::root_ui::navigation::text_roles;

struct Fixed(Vec<String>);

impl Source for Fixed {
    fn candidates(&self) -> Vec<String> {
        self.0.clone()
    }
    fn label(&self) -> &str {
        "fixed"
    }
}

fn source() -> Fixed {
    Fixed(vec![
        "notes/alpha.md".into(),
        "notes/beta.md".into(),
        "src/main.rs".into(),
        "README.md".into(),
    ])
}

#[test]
fn typing_narrows_and_backspace_widens() {
    let mut picker = Picker::open(&source(), 8);
    assert_eq!(picker.matches(), 4);
    assert_eq!(picker.feed("md"), Outcome::Open);
    assert_eq!(picker.matches(), 3);
    picker.feed("<BS>");
    assert_eq!(picker.matches(), 4);
}

#[test]
fn enter_returns_the_selection_and_escape_returns_nothing() {
    let mut picker = Picker::open(&source(), 8);
    picker.feed("alpha");
    assert_eq!(picker.feed("<CR>"), Outcome::Chose("notes/alpha.md".into()));
    let mut picker = Picker::open(&source(), 8);
    assert_eq!(picker.feed("<Esc>"), Outcome::Cancelled);
}

#[test]
fn control_n_and_p_move_the_selection() {
    let mut picker = Picker::open(&source(), 8);
    let selected = |picker: &Picker| picker.visible().iter().position(|row| row.selected);
    let first = selected(&picker);
    picker.feed("<C-n>");
    assert_ne!(first, selected(&picker));
}

#[test]
fn a_narrowed_row_carries_the_positions_that_matched() {
    let mut picker = Picker::open(&source(), 8);
    picker.feed("alp");
    let rows = picker.visible();
    assert!(
        !rows[0].positions.is_empty(),
        "no match positions reached the surface"
    );
}

#[test]
fn the_visible_window_never_exceeds_the_row_budget() {
    let many: Vec<String> = (0..200).map(|i| format!("file{i}.md")).collect();
    let picker = Picker::open(&Fixed(many), 8);
    assert_eq!(picker.visible().len(), 8);
    assert_eq!(picker.corpus_len(), 200);
}

#[test]
fn narrowing_reports_how_much_of_the_corpus_survived() {
    let mut picker = Picker::open(&source(), 8);
    picker.feed("md");
    assert_eq!((picker.matches(), picker.corpus_len()), (3, 4));
}

#[test]
fn markdown_notes_sort_ahead_of_other_files() {
    let source = TreeSource::new(
        "dir".to_string(),
        vec!["sub/alpha.rs".to_string(), "zeta.md".to_string(), "b.markdown".to_string()],
    );
    let candidates = source.candidates();
    assert_eq!(candidates, vec!["b.markdown", "zeta.md", "sub/alpha.rs"]);
    assert_eq!(source.label(), "dir");
}

#[test]
fn matching_ignores_ascii_case_and_keeps_positions() {
    let mut picker = Picker::open(&source(), 8);
    picker.feed("RDM");
    let rows = picker.visible();
    assert_eq!(rows.len(), 1);
    assert_eq!(rows[0].text, "README.md");
    assert_eq!(rows[0].positions, vec![0, 3, 4]);
    assert!(rows[0].selected);
}

#[test]
fn the_selection_stops_at_the_ends_and_the_window_follows_it() {
    let many: Vec<String> = (0..5).map(|i| format!("f{i}")).collect();
    let mut picker = Picker::open(&Fixed(many), 2);
    assert_eq!(picker.offset(), 0);
    picker.feed("<Up>");
    assert_eq!(picker.offset(), 0);
    picker.feed("<Down><Down><Down>");
    assert_eq!(picker.offset(), 2);
    let rows = picker.visible();
    assert_eq!(rows.len(), 2);
    assert_eq!(rows[1].text, "f3");
    assert!(rows[1].selected);
    picker.feed("<C-n><C-n><C-n>");
    assert_eq!(picker.offset(), 3);
    picker.feed("<C-p>");
    assert_eq!(picker.offset(), 2);
}

#[test]
fn nothing_left_to_choose_cancels() {
    let mut picker = Picker::open(&source(), 0);
    assert_eq!(picker.row_budget(), 1);
    assert_eq!(picker.feed("zzz"), Outcome::Open);
    assert_eq!(picker.matches(), 0);
    assert_eq!(picker.feed("<CR>"), Outcome::Cancelled);
    assert_eq!(picker.query(), "zzz");
    assert_eq!(picker.label(), "fixed");
}

#[test]
fn control_c_cancels_and_stops_reading_keys() {
    let mut picker = Picker::open(&source(), 8);
    assert_eq!(picker.feed("a<C-c>b"), Outcome::Cancelled);
    assert_eq!(picker.query(), "a");
}

#[test]
fn text_roles_cover_rows_query_and_counter() {
    assert_eq!(
        text_roles(2),
        vec!["on_surface", "on_surface", "on_surface", "on_surface_muted"]
    );
}
