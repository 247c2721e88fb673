use nvimglsl::editcore::buffer::{Buffer, FileRead};
use nvimglsl::editcore::buffers::{BufferId, BufferStore};

#[test]
fn alternate_tracks_the_previous_buffer() {
    let mut store = BufferStore::new(Buffer::from_text("one\n"));
    let scratch = store.scratch("tree".into());
    assert_eq!(store.current_id(), scratch);
    assert_eq!(store.alternate_id(), Some(BufferId(1)));
    assert!(store.entry(scratch).unwrap().scratch_name.is_some());
    assert!(store.list().contains(&BufferId(1)));
    assert!(!store.list().contains(&scratch));
}

#[test]
fn next_prev_and_delete_follow_listed_order() {
    let mut store = BufferStore::new(Buffer::from_text("one\n"));
    let two = store.insert(Buffer::from_text("two\n"), true, None);
    let three = store.insert(Buffer::from_text("three\n"), true, None);
    assert_eq!(store.by_index(1), Some(two));
    assert_eq!(store.next(), Some(BufferId(1)));
    assert_eq!(store.prev(), Some(three));
    assert!(store.delete(two));
    assert_eq!(store.list(), vec![BufferId(1), three]);
}

#[test]
fn opening_the_same_path_reuses_the_buffer() {
    let mut store = BufferStore::new(Buffer::empty());
    let first = store.open_or_reuse("/tmp/one.txt", FileRead::Text("one\n".into())).ok().unwrap();
    let second = store.open_or_reuse("/tmp/one.txt", FileRead::Text("one\n".into())).ok().unwrap();
    assert_eq!(first, second);
    assert_eq!(store.list(), vec![BufferId(1), first]);
    assert_eq!(store.current().line_text(0), "one");
}

#[test]
fn the_last_buffer_cannot_be_deleted_and_a_scratch_has_no_neighbours() {
    let mut store = BufferStore::new(Buffer::empty());
    assert!(!store.delete(BufferId(1)));
    assert!(!store.delete(BufferId(7)));
    let scratch = store.scratch("tree".into());
    assert_eq!(store.next(), None);
    assert_eq!(store.current_id(), scratch);
    assert!(store.set_current(BufferId(1)));
    assert!(!store.set_current(BufferId(9)));
    assert_eq!(store.alternate_id(), Some(scratch));
    assert!(store.delete(scratch));
    assert_eq!(store.alternate_id(), None);
    let e = store.empty();
    assert_eq!(store.current_id(), e);
    assert!(store.delete(e));
    assert_eq!(store.current_id(), BufferId(1));
    assert!(store.get(e).is_none());
    assert!(store.get(BufferId(1)).is_some());
    assert_eq!(store.by_index(5), None);
}

#[test]
fn a_directory_cannot_join_the_store() {
    let mut store = BufferStore::new(Buffer::empty());
    assert!(store.open_or_reuse("/", FileRead::NotAFile).is_err());
    assert_eq!(store.list(), vec![BufferId(1)]);
}

#[test]
fn buffers_are_edited_in_place_through_the_store() {
    let mut store = BufferStore::new(Buffer::from_text("one\n"));
    let two = store.insert(Buffer::from_text("two\n"), true, None);
    store.current_mut().set_lines(vec!["first".to_string()]);
    assert_eq!(store.current().text(), "first\n");
    store.get_mut(two).unwrap().set_lines(vec!["second".to_string()]);
    assert_eq!(store.get(two).unwrap().text(), "second\n");
    assert!(store.get_mut(BufferId(99)).is_none());
}
