use nvimglsl::editcore::buffer::Buffer;
use nvimglsl::editcore::editor::{Editor, Options};
use nvimglsl::keymap::Keymap;
use nvimglsl::luaconf::{Mapping, NvimConfig, Setting};

fn mapping(mode: &str, lhs: &str, rhs: &str) -> Mapping {
    Mapping { mode: mode.into(), lhs: lhs.into(), rhs: rhs.into() }
}

fn config(options: Vec<(&str, Setting)>, globals: Vec<(&str, Setting)>, mappings: Vec<Mapping>) -> NvimConfig {
    NvimConfig {
        path: None,
        options: options.into_iter().map(|(k, v)| (k.to_string(), v)).collect(),
        globals: globals.into_iter().map(|(k, v)| (k.to_string(), v)).collect(),
        mappings,
        error: None,
    }
}

fn dict(entries: &[(&str, &str)]) -> Setting {
    Setting::Dict(entries.iter().map(|(k, v)| (k.to_string(), v.to_string())).collect())
}

#[test]
fn options_come_back_typed() {
    let c = config(
        vec![
            ("shiftwidth", Setting::Number(Some(2))),
            ("expandtab", Setting::Bool(true)),
            ("listchars", dict(&[("tab", "> "), ("trail", ".")])),
        ],
        vec![],
        vec![],
    );
    assert_eq!(c.error, None);
    assert_eq!(c.usize_option("shiftwidth", 8), 2);
    assert!(c.bool_option("expandtab", false));
    assert_eq!(c.option("listchars").unwrap().get("tab"), Some("> "));
}

#[test]
fn both_keymap_spellings_are_recorded() {
    let c = config(vec![], vec![], vec![mapping("n", "Y", "y$"), mapping("n", "H", "^")]);
    assert_eq!(c.mappings.len(), 2);
    assert_eq!(c.for_mode('n')[0].rhs, "y$");
}

#[test]
fn a_table_of_modes_becomes_one_entry_covering_them() {
    let c = config(vec![], vec![], vec![mapping("nx", "gs", "g_")]);
    assert_eq!(c.for_mode('n').len(), 1);
    assert_eq!(c.for_mode('x').len(), 1);
    assert!(c.for_mode('i').is_empty());
}

#[test]
fn longer_left_hand_sides_are_offered_first() {
    let c = config(vec![], vec![], vec![mapping("n", "s", "a"), mapping("n", "ss", "b")]);
    assert_eq!(c.for_mode('n')[0].lhs, "ss");
    let c = config(vec![], vec![], vec![mapping("n", "a", "1"), mapping("n", "bb", "2"), mapping("n", "c", "3")]);
    let order: Vec<&str> = c.for_mode('n').iter().map(|m| m.rhs.as_str()).collect();
    assert_eq!(order, vec!["2", "1", "3"]);
}

#[test]
fn the_leader_is_read_rather_than_assumed() {
    let c = config(vec![], vec![("mapleader", Setting::Text(" ".into()))], vec![]);
    assert_eq!(c.leader(), " ");
    assert_eq!(config(vec![("number", Setting::Bool(true))], vec![], vec![]).leader(), "\\");
    assert_eq!(config(vec![], vec![("mapleader", Setting::Text("".into()))], vec![]).leader(), "\\");
}

#[test]
fn settings_answer_only_for_their_own_kind() {
    assert_eq!(Setting::Bool(true).as_bool(), Some(true));
    assert_eq!(Setting::Number(Some(3)).as_bool(), None);
    assert_eq!(Setting::Number(Some(3)).as_usize(), Some(3));
    assert_eq!(Setting::Number(None).as_usize(), None);
    assert_eq!(Setting::Text("x".into()).get("tab"), None);
    assert_eq!(dict(&[("tab", "a")]).get("trail"), None);
    let c = config(vec![("number", Setting::Text("yes".into()))], vec![], vec![]);
    assert!(!c.bool_option("number", false));
    assert_eq!(c.usize_option("number", 7), 7);
    assert!(c.option("wrap").is_none());
}

#[test]
fn options_from_config_fall_back_to_vims_defaults() {
    let d = Options::from_config(&config(vec![], vec![], vec![]));
    assert_eq!(d, Options::default());
    let c = config(
        vec![
            ("shiftwidth", Setting::Number(Some(0))),
            ("number", Setting::Bool(true)),
            ("listchars", dict(&[("tab", "▸ "), ("trail", "")])),
            ("clipboard", Setting::Text("unnamedplus".into())),
        ],
        vec![],
        vec![],
    );
    let o = Options::from_config(&c);
    assert_eq!(o.shiftwidth, 1);
    assert!(o.number);
    assert_eq!(o.listchar_tab, '▸');
    assert_eq!(o.listchar_trail, '-');
    assert!(o.clipboard_unnamed);
    let list = config(vec![("clipboard", Setting::List(vec!["unnamed".into()]))], vec![], vec![]);
    assert!(!Options::from_config(&list).clipboard_unnamed);
}

#[test]
fn an_editor_follows_its_config() {
    let c = config(
        vec![("shiftwidth", Setting::Number(Some(2)))],
        vec![("mapleader", Setting::Text(",".into()))],
        vec![mapping("n", "<leader>d", "dd")],
    );
    let mut e = Editor::with_config(Buffer::from_text("one\ntwo\n"), &c);
    assert_eq!(e.options.shiftwidth, 2);
    e.feed_str(",d");
    assert_eq!(e.buffer.lines_text(0, e.buffer.line_count()), vec!["two"]);
    assert_eq!(Keymap::from_config(&c).len(), 1);
}
