use nvimglsl::proto::grid::{encode_row, Cell, GridEvent, GridPainter, RowPart};
use nvimglsl::proto::paint::{RenderCell, RenderRow};

fn cell(text: char, hl: u64) -> Cell {
    Cell { text, hl, continuation: false }
}

#[test]
fn the_first_redraw_clears_and_later_ones_send_only_changed_rows() {
    let mut g = GridPainter::new(2, 4, 3);
    let first = g.diff();
    assert_eq!(first, vec![GridEvent::Clear { grid: 2 }]);
    g.write(1, 0, "ab", 5);
    let events = g.diff();
    assert_eq!(events.len(), 1);
    match &events[0] {
        GridEvent::Line { grid, row, parts } => {
            assert_eq!((*grid, *row), (2, 1));
            assert_eq!(parts[0], RowPart { text: Some('a'), hl: Some(5), repeat: None });
            assert_eq!(parts[1], RowPart { text: Some('b'), hl: None, repeat: None });
            assert_eq!(parts[2], RowPart { text: Some(' '), hl: Some(0), repeat: Some(2) });
        }
        _ => panic!("not a line"),
    }
    g.write(1, 0, "ab", 5);
    assert!(g.diff().is_empty());
}

#[test]
fn wide_characters_take_two_cells_and_writing_stops_at_the_edge() {
    let mut g = GridPainter::new(1, 3, 1);
    let next = g.put(0, 0, '日', 1);
    assert_eq!(next, 2);
    let end = g.write(0, 2, "xyz", 1);
    assert_eq!(end, 3);
    g.diff();
    let mut h = GridPainter::new(1, 3, 1);
    h.put(0, 0, '日', 1);
    h.put(0, 2, 'x', 1);
    assert!(h.diff().len() == 2);
    assert_eq!(g.put(5, 0, 'q', 1), 1);
}

#[test]
fn rows_of_cells_are_encoded_with_runs() {
    let cells = vec![cell('a', 1), cell('a', 1), cell('a', 1), cell('b', 1), Cell { text: ' ', hl: 1, continuation: true }];
    let parts = encode_row(&cells);
    assert_eq!(parts, vec![
        RowPart { text: Some('a'), hl: Some(1), repeat: Some(3) },
        RowPart { text: Some('b'), hl: None, repeat: None },
        RowPart { text: None, hl: None, repeat: None },
    ]);
    assert!(encode_row(&[]).is_empty());
}

#[test]
fn composed_rows_fill_the_rest_of_each_line() {
    let mut g = GridPainter::new(7, 3, 2);
    g.diff();
    let rows = vec![RenderRow { cells: vec![RenderCell { text: '~', hl: 9 }], fill: 4 }];
    g.compose(&rows);
    let events = g.diff();
    assert_eq!(events.len(), 1);
    match &events[0] {
        GridEvent::Line { row, parts, .. } => {
            assert_eq!(*row, 0);
            assert_eq!(parts[0], RowPart { text: Some('~'), hl: Some(9), repeat: None });
            assert_eq!(parts[1], RowPart { text: Some(' '), hl: Some(4), repeat: Some(2) });
        }
        _ => panic!("not a line"),
    }
    g.fill(1, 1, 3);
    g.clear_current();
    g.resize(0, 0);
    assert_eq!((g.cols(), g.rows(), g.grid()), (1, 1, 7));
    assert_eq!(g.diff(), vec![GridEvent::Clear { grid: 7 }]);
}
