use nvimglsl::editcore::buffer::Buffer;
use nvimglsl::editcore::editor::{Editor, Mode};
use nvimglsl::editcore::key::{Code, Key, Named};
use nvimglsl::editcore::tree_keys::{delete_step, tree_key, tree_name, TreeAction};

fn ch(c: char) -> Key {
    Key { code: Code::Char(c), ctrl: false, alt: false }
}

#[test]
fn counts_gather_and_a_move_takes_them() {
    assert_eq!(tree_key(ch('3'), None, "a"), Some((TreeAction::Count(3), Some(3))));
    assert_eq!(tree_key(ch('0'), Some(3), "a"), Some((TreeAction::Count(30), Some(30))));
    assert_eq!(tree_key(ch('0'), None, "a"), None);
    assert_eq!(tree_key(ch('j'), Some(30), "a"), Some((TreeAction::Move { down: true, by: 30 }, None)));
    assert_eq!(tree_key(ch('k'), Some(0), "a"), Some((TreeAction::Move { down: false, by: 1 }, None)));
    let down = Key { code: Code::Named(Named::Down), ctrl: false, alt: false };
    assert_eq!(tree_key(down, None, "a"), Some((TreeAction::Move { down: true, by: 1 }, None)));
}

#[test]
fn tree_keys_open_edit_and_delete() {
    let enter = Key { code: Code::Named(Named::Enter), ctrl: false, alt: false };
    assert_eq!(tree_key(enter, Some(2), "a"), Some((TreeAction::Open, Some(2))));
    assert_eq!(tree_key(ch('l'), None, "a"), Some((TreeAction::Expand, None)));
    assert_eq!(tree_key(ch('h'), None, "a"), Some((TreeAction::Collapse, None)));
    assert_eq!(tree_key(ch('a'), None, "a"), Some((TreeAction::Command("TreeNew ".into()), None)));
    assert_eq!(tree_key(ch('r'), None, "main.rs"), Some((TreeAction::Command("TreeRename main.rs".into()), None)));
    assert_eq!(tree_key(ch('d'), None, "a"), Some((TreeAction::Delete, None)));
    assert_eq!(tree_key(ch('R'), None, "a"), Some((TreeAction::Refresh, None)));
    assert_eq!(tree_key(ch('x'), None, "a"), None);
    assert_eq!(tree_key(Key { code: Code::Char('j'), ctrl: true, alt: false }, None, "a"), None);
}

#[test]
fn deleting_takes_a_second_press_on_the_same_entry() {
    assert_eq!(delete_step(&None, "/w/a.txt").unwrap(), "delete /w/a.txt? press d again to confirm");
    assert_eq!(delete_step(&Some("/w/a.txt".into()), "/w/a.txt"), None);
    assert!(delete_step(&Some("/w/b.txt".into()), "/w/a.txt").is_some());
}

#[test]
fn tree_commands_need_a_name() {
    assert_eq!(tree_name("  new.md ", "TreeNew"), Ok("new.md".to_string()));
    assert_eq!(tree_name("   ", "TreeNew"), Err("E471: Argument required: :TreeNew <name>".to_string()));
    assert_eq!(tree_name("", "TreeRename"), Err("E471: Argument required: :TreeRename <name>".to_string()));
    let mut e = Editor::new(Buffer::from_text("x\n"));
    e.start_tree_command("TreeRename é");
    assert_eq!(e.mode, Mode::Cmdline);
    assert_eq!(e.cmdline, "TreeRename é");
    assert_eq!(e.cmdline_cursor, 12);
    assert_eq!(e.cmdline_prefix, ':');
}
