use nvimglsl::notes::{link_at, new_note_file, NotesSource, NotesWalk, Vault};
use nvimglsl::picker::Source;

#[test]
fn the_link_under_the_cursor_is_the_one_the_cursor_is_in() {
    let line = "see [[alpha]] and [[beta]]";
    assert_eq!(link_at(line, 6), Some("alpha".into()));
    assert_eq!(link_at(line, 20), Some("beta".into()));
    assert_eq!(link_at(line, 15), None);
    assert_eq!(link_at("no links here", 3), None);
    assert_eq!(link_at("unclosed [[link", 12), None);
}

fn walked() -> NotesWalk {
    walk(&[Entry::File("index.md"), Entry::Dir("daily", vec![Entry::File("2026-08-03.md")])])
}

#[test]
fn a_wiki_link_resolves_by_path_or_by_name() {
    let vault = Vault::open("/vault".to_string());
    let notes = vault.notes(&walked());
    assert_eq!(notes, vec!["daily/2026-08-03.md".to_string(), "index.md".to_string()]);
    assert_eq!(
        vault.resolve_link("daily/2026-08-03", &notes),
        Some("daily/2026-08-03.md".into())
    );
    assert_eq!(
        vault.resolve_link("2026-08-03", &notes),
        Some("daily/2026-08-03.md".into())
    );
    assert_eq!(
        vault.resolve_link("2026-08-03|today", &notes),
        Some("daily/2026-08-03.md".into())
    );
    assert_eq!(
        vault.resolve_link("2026-08-03#heading", &notes),
        Some("daily/2026-08-03.md".into())
    );
    assert_eq!(vault.resolve_link("nothing", &notes), None);
    assert_eq!(vault.resolve_link("  |alias", &notes), None);
}

#[test]
fn a_new_note_gets_an_extension_and_a_heading() {
    assert_eq!(
        new_note_file("  new idea "),
        Some(("new idea.md".to_string(), "# new idea\n\n".to_string()))
    );
    assert_eq!(
        new_note_file("daily/today.md"),
        Some(("daily/today.md".to_string(), "# today\n\n".to_string()))
    );
    assert_eq!(new_note_file("   "), None);
}

#[test]
fn the_vault_is_named_after_its_directory() {
    assert_eq!(Vault::open("/home/me/repos/obsidian".to_string()).label(), "obsidian");
    assert_eq!(Vault::open("/home/me/repos/obsidian/".to_string()).label(), "obsidian");
    assert_eq!(Vault::open("/".to_string()).label(), "notes");
    let vault = Vault::open("/v".to_string());
    assert_eq!(vault.path_of("a/b.md"), "/v/a/b.md");
    assert_eq!(vault.path_of("/abs.md"), "/abs.md");
    assert_eq!(vault.root(), "/v");
}

#[test]
fn the_notes_source_offers_the_sorted_notes() {
    let vault = Vault::open("/x/vault".to_string());
    let source = NotesSource::new(&vault, &walked());
    assert_eq!(source.label(), "vault");
    assert_eq!(source.candidates(), vec!["daily/2026-08-03.md", "index.md"]);
}

use nvimglsl::notes::is_note_entry;

enum Entry {
    File(&'static str),
    Dir(&'static str, Vec<Entry>),
}

/// The entries of the directory at `path` (components joined by `/`).
fn listing<'a>(tree: &'a [Entry], path: &str) -> &'a [Entry] {
    let mut here = tree;
    for part in path.split('/').filter(|p| !p.is_empty()) {
        here = here
            .iter()
            .find_map(|e| match e {
                Entry::Dir(n, inner) if *n == part => Some(inner.as_slice()),
                _ => None,
            })
            .unwrap();
    }
    here
}

/// Drives a walk over `tree`, listing each directory it asks for.
fn walk(tree: &[Entry]) -> NotesWalk {
    let mut w = NotesWalk::new();
    let mut asked = String::new();
    loop {
        assert!(w.waiting());
        let entries = listing(tree, &asked)
            .iter()
            .map(|e| match e {
                Entry::File(n) => (n.to_string(), false),
                Entry::Dir(n, _) => (n.to_string(), true),
            })
            .collect();
        w.listed(entries);
        match w.step() {
            Some(p) => asked = p,
            None => break,
        }
    }
    w
}

#[test]
fn the_vault_lists_notes_and_skips_its_own_bookkeeping() {
    let tree = vec![
        Entry::File("index.md"),
        Entry::Dir("daily", vec![Entry::File("2026-08-03.md")]),
        Entry::Dir(".obsidian", vec![Entry::File("workspace.json")]),
        Entry::Dir("attachments", vec![Entry::File("a.md")]),
    ];
    let v = Vault::open("/vault".to_string());
    assert_eq!(v.notes(&walk(&tree)), vec!["daily/2026-08-03.md", "index.md"]);
}

#[test]
fn the_walk_keeps_markdown_and_stops_deep_or_full() {
    assert!(is_note_entry("a.markdown", false, 3, 0));
    assert!(!is_note_entry("a.txt", false, 0, 0));
    assert!(!is_note_entry(".hidden.md", false, 0, 0));
    assert!(!is_note_entry("node_modules", true, 0, 0));
    assert!(is_note_entry("sub", true, 7, 20_000));
    assert!(!is_note_entry("sub", true, 8, 0));
    assert!(!is_note_entry("sub", true, 0, 20_001));
    assert!(is_note_entry("attachments.md", false, 0, 0));
}

#[test]
fn the_walk_asks_for_each_directory_it_keeps() {
    let mut w = NotesWalk::new();
    assert!(w.waiting());
    w.listed(vec![
        ("b.md".to_string(), false),
        ("sub".to_string(), true),
        (".git".to_string(), true),
        ("notes.txt".to_string(), false),
    ]);
    assert_eq!(w.step(), Some("sub".to_string()));
    w.listed(vec![("deep".to_string(), true), ("c.markdown".to_string(), false)]);
    assert_eq!(w.step(), Some("sub/deep".to_string()));
    w.listed(vec![("a.md".to_string(), false)]);
    assert_eq!(w.step(), None);
    let v = Vault::open("/v".to_string());
    assert_eq!(v.notes(&w), vec!["b.md", "sub/c.markdown", "sub/deep/a.md"]);
}
