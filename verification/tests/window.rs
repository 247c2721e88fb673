use nvimglsl::editcore::window::{Direction, Layout, Rect, Tabs, WindowId, WindowView};
use nvimglsl::editcore::buffers::BufferId;

#[test]
fn grids_start_at_two_and_increase() {
    let mut tabs = Tabs::new(WindowId(1));
    let a = tabs.split_vertical(true);
    assert_eq!(a, WindowId(2));
    assert_eq!(tabs.grid_for_new_window(), 3);
    let b = tabs.split_horizontal(true);
    assert_eq!(b, WindowId(3));
    assert_eq!(tabs.grid_for_new_window(), 4);
}

#[test]
fn rects_return_text_and_chrome_separately() {
    let mut tabs = Tabs::new(WindowId(1));
    let right = tabs.split_vertical(true);
    let rects = tabs.rects(Rect::new(0, 0, 10, 21), true, true);
    assert_eq!(rects.text_of(WindowId(1)).unwrap(), Rect::new(0, 0, 9, 10));
    assert_eq!(rects.text_of(right).unwrap(), Rect::new(0, 11, 9, 10));
    assert_eq!(rects.status.len(), 2);
    assert_eq!(rects.separators, vec![Rect::new(0, 10, 10, 1)]);
}

#[test]
fn focus_uses_rectangles_not_tree_neighbours() {
    let mut tabs = Tabs::new(WindowId(1));
    let right = tabs.split_vertical(true);
    let bottom_right = tabs.split_horizontal(true);
    assert_eq!(tabs.focus(), bottom_right);
    assert_eq!(
        tabs.focus_dir_in(Direction::Up, Rect::new(0, 0, 12, 25), true, true),
        Some(right)
    );
    assert_eq!(
        tabs.focus_dir_in(Direction::Left, Rect::new(0, 0, 12, 25), true, true),
        Some(WindowId(1))
    );
}

#[test]
fn close_and_only_keep_a_valid_focus() {
    let mut tabs = Tabs::new(WindowId(1));
    let second = tabs.split_vertical(true);
    assert_eq!(tabs.focus(), second);
    assert_eq!(tabs.close(), Some(WindowId(1)));
    assert_eq!(tabs.focus(), WindowId(1));
    tabs.split_horizontal(true);
    tabs.only();
    assert!(matches!(tabs.current_layout(), Layout::Leaf(_)));
}

#[test]
fn closing_the_last_window_is_refused() {
    let mut tabs = Tabs::new(WindowId(1));
    assert_eq!(tabs.close(), None);
    assert_eq!(tabs.focus(), WindowId(1));
}

#[test]
fn split_before_puts_the_new_window_first() {
    let mut tabs = Tabs::new(WindowId(1));
    let new = tabs.split_vertical_before();
    assert_eq!(tabs.current_layout().leaves(), vec![new, WindowId(1)]);
    let below = tabs.split_horizontal(false);
    assert_eq!(tabs.current_layout().leaves(), vec![below, new, WindowId(1)]);
}

#[test]
fn splitting_along_a_row_joins_it() {
    let mut tabs = Tabs::new(WindowId(1));
    tabs.split_vertical(true);
    tabs.split_vertical(true);
    match tabs.current_layout() {
        Layout::Row(children) => assert_eq!(children.len(), 3),
        _ => panic!("expected a row"),
    }
}

#[test]
fn cycle_focus_wraps_round() {
    let mut tabs = Tabs::new(WindowId(1));
    tabs.split_vertical(true);
    tabs.split_vertical(true);
    assert_eq!(tabs.focus(), WindowId(3));
    assert_eq!(tabs.cycle_focus(), WindowId(1));
    assert_eq!(tabs.cycle_focus(), WindowId(2));
}

#[test]
fn focus_window_only_takes_windows_of_the_tab() {
    let mut tabs = Tabs::new(WindowId(1));
    tabs.split_vertical(true);
    assert!(tabs.focus_window(WindowId(1)));
    assert_eq!(tabs.focus(), WindowId(1));
    assert!(!tabs.focus_window(WindowId(9)));
    assert_eq!(tabs.focus(), WindowId(1));
}

#[test]
fn focus_dir_without_a_neighbour_stays() {
    let mut tabs = Tabs::new(WindowId(1));
    tabs.split_vertical(true);
    assert_eq!(tabs.focus_dir_in(Direction::Right, Rect::new(0, 0, 10, 40), true, true), None);
    assert_eq!(tabs.focus(), WindowId(2));
    assert_eq!(tabs.focus_dir(Direction::Left), Some(WindowId(1)));
}

#[test]
fn tabs_open_switch_and_close() {
    let mut tabs = Tabs::new(WindowId(1));
    let other = tabs.new_tab();
    assert_eq!(other, WindowId(2));
    assert_eq!(tabs.len(), 2);
    assert_eq!(tabs.current_index(), 1);
    assert_eq!(tabs.next_tab(), WindowId(1));
    assert_eq!(tabs.prev_tab(), other);
    assert_eq!(tabs.close_tab(), Some(vec![other]));
    assert_eq!(tabs.len(), 1);
    assert_eq!(tabs.current_index(), 0);
    assert_eq!(tabs.close_tab(), None);
}

#[test]
fn rows_share_space_and_columns_stack() {
    let mut tabs = Tabs::new(WindowId(1));
    let lower = tabs.split_horizontal(true);
    let rects = tabs.rects(Rect::new(0, 0, 11, 30), true, true);
    assert_eq!(rects.text_of(WindowId(1)).unwrap(), Rect::new(0, 0, 5, 30));
    assert_eq!(rects.text_of(lower).unwrap(), Rect::new(6, 0, 4, 30));
    assert_eq!(rects.status, vec![Rect::new(5, 0, 1, 30), Rect::new(10, 0, 1, 30)]);
    assert!(rects.separators.is_empty());
}

#[test]
fn direction_from_vim_keys() {
    assert_eq!(Direction::from_vim('h'), Some(Direction::Left));
    assert_eq!(Direction::from_vim('j'), Some(Direction::Down));
    assert_eq!(Direction::from_vim('k'), Some(Direction::Up));
    assert_eq!(Direction::from_vim('l'), Some(Direction::Right));
    assert_eq!(Direction::from_vim('x'), None);
}

#[test]
fn a_new_window_view_starts_at_the_top() {
    let view = WindowView::new(WindowId(4), 7, BufferId(2));
    assert_eq!(view.cursor, (0, 0));
    assert_eq!(view.top_line, 0);
    assert_eq!((view.cols, view.rows), (80, 24));
    assert_eq!(view.grid, 7);
}
