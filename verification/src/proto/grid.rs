//! A grid of cells the UI protocol draws, and the redraw that sends only
//! the rows that changed.

use vstd::prelude::*;
use crate::proto::paint::{char_width, width_of, RenderCell, RenderRow};

verus! {

/// One cell of a grid. A wide character owns the cell after it, which
/// carries no text of its own over the protocol.
#[derive(Clone, Copy, Debug, PartialEq, Eq, Structural)]
pub struct Cell {
    pub text: char,
    pub hl: u64,
    pub continuation: bool,
}

/// An empty cell in the default highlight.
pub open spec fn blank() -> Cell {
    Cell { text: ' ', hl: 0, continuation: false }
}

/// One run of a `grid_line` payload: its text (none for the cell after a
/// wide character), its highlight when it differs from the run before or
/// repeats, and its repeat count when more than one.
#[derive(Clone, Copy, Debug, PartialEq, Eq, Structural)]
pub struct RowPart {
    pub text: Option<char>,
    pub hl: Option<u64>,
    pub repeat: Option<u64>,
}

/// What a redraw sends.
#[derive(Clone, Debug, PartialEq, Eq)]
pub enum GridEvent {
    /// `grid_clear`, before the first paint.
    Clear { grid: u64 },
    /// `grid_line`: a row that changed, from column 0.
    Line { grid: u64, row: u64, parts: Vec<RowPart> },
}

/// How many cells from `i` on repeat `cells[i]` (at least one): cells that
/// are no continuation and have its text and highlight.
pub open spec fn run_from(cells: Seq<Cell>, i: int, r: int) -> int
    decreases cells.len() - (i + r),
{
    if r >= 1 && i + r < cells.len() && !cells[i + r].continuation && !cells[i].continuation
        && cells[i + r].text == cells[i].text && cells[i + r].hl == cells[i].hl {
        run_from(cells, i, r + 1)
    } else {
        r
    }
}

/// The runs of `cells` from `i`, with `last` the highlight last sent.
pub open spec fn encode_from(cells: Seq<Cell>, i: int, last: Option<u64>) -> Seq<RowPart>
    decreases cells.len() - i,
{
    if i < 0 || i >= cells.len() {
        Seq::empty()
    } else {
        let c = cells[i];
        let run = run_from(cells, i, 1);
        proof {
            lemma_run_from(cells, i, 1);
        }
        let send_hl = last != Some(c.hl) || run > 1;
        let part = RowPart {
            text: if c.continuation { None } else { Some(c.text) },
            hl: if send_hl { Some(c.hl) } else { None },
            repeat: if run > 1 { Some(run as u64) } else { None },
        };
        seq![part] + encode_from(cells, i + run, if send_hl { Some(c.hl) } else { last })
    }
}

pub proof fn lemma_run_from(cells: Seq<Cell>, i: int, r: int)
    requires
        0 <= i < cells.len(),
        1 <= r,
        i + r <= cells.len(),
    ensures
        r <= run_from(cells, i, r),
        i + run_from(cells, i, r) <= cells.len(),
    decreases cells.len() - (i + r),
{
    if i + r < cells.len() && !cells[i + r].continuation && !cells[i].continuation
        && cells[i + r].text == cells[i].text && cells[i + r].hl == cells[i].hl {
        lemma_run_from(cells, i, r + 1);
    }
}

/// The `grid_line` payload of a row.
pub fn encode_row(cells: &[Cell]) -> (parts: Vec<RowPart>)
    ensures
        parts@ == encode_from(cells@, 0, None),
{
    let mut out: Vec<RowPart> = Vec::new();
    let mut last: Option<u64> = None;
    let mut index: usize = 0;
    let n = cells.len();
    while index < n
        invariant
            n == cells@.len(),
            index <= cells@.len(),
            out@ + encode_from(cells@, index as int, last) == encode_from(cells@, 0, None),
        decreases cells@.len() - index,
    {
        let cell = cells[index];
        let mut run: usize = 1;
        while index + run < n && !cells[index + run].continuation && !cell.continuation
            && cells[index + run].text == cell.text && cells[index + run].hl == cell.hl
            invariant
                n == cells@.len(),
                index < cells@.len(),
                1 <= run,
                index + run <= cells@.len(),
                cell == cells@[index as int],
                run_from(cells@, index as int, 1) == run_from(cells@, index as int, run as int),
            decreases cells@.len() - (index + run),
        {
            run = run + 1;
        }
        proof {
            lemma_run_from(cells@, index as int, run as int);
        }
        let send_hl = match last {
            Some(h) => h != cell.hl,
            None => true,
        } || run > 1;
        let part = RowPart {
            text: if cell.continuation { None } else { Some(cell.text) },
            hl: if send_hl { Some(cell.hl) } else { None },
            repeat: if run > 1 { Some(run as u64) } else { None },
        };
        let ghost before = out@;
        let ghost prev_last = last;
        let ghost at = index as int;
        out.push(part);
        if send_hl {
            last = Some(cell.hl);
        }
        assert(out@ =~= before.push(part));
        index = index + run;
        assert(encode_from(cells@, at, prev_last) == seq![part] + encode_from(cells@, index as int, last));
        assert(out@ + encode_from(cells@, index as int, last) =~= before + encode_from(cells@, at, prev_last));
    }
    assert(encode_from(cells@, index as int, last) =~= Seq::<RowPart>::empty());
    out
}

/// A grid as values.
pub struct GridModel {
    pub grid: u64,
    pub cols: usize,
    pub rows: usize,
    pub previous: Seq<Cell>,
    pub current: Seq<Cell>,
    pub painted: bool,
}

impl GridModel {
    /// At least one row and column, and both pictures of their size.
    pub open spec fn wf(self) -> bool {
        &&& self.cols >= 1 && self.rows >= 1
        &&& self.current.len() == self.cols * self.rows
        &&& self.previous.len() == self.cols * self.rows
    }
}

/// A grid that remembers what it last sent, so that a redraw sends only
/// the rows that changed.
pub struct GridPainter {
    grid: u64,
    cols: usize,
    rows: usize,
    previous: Vec<Cell>,
    current: Vec<Cell>,
    painted: bool,
}

impl View for GridPainter {
    type V = GridModel;

    closed spec fn view(&self) -> GridModel {
        GridModel {
            grid: self.grid,
            cols: self.cols,
            rows: self.rows,
            previous: self.previous@,
            current: self.current@,
            painted: self.painted,
        }
    }
}

/// `n` blank cells.
pub open spec fn blanks(n: int) -> Seq<Cell> {
    Seq::new(if n > 0 { n as nat } else { 0 }, |i: int| blank())
}

/// Character `ch` put at `row`, `col` of `cells` (`cols` wide, `rows`
/// high): the cell takes it, the next one becomes its continuation when it
/// is wide and fits; off the grid nothing changes. The column after it.
pub open spec fn put_cells(cells: Seq<Cell>, cols: usize, rows: usize, row: usize, col: usize, ch: char, hl: u64) -> (Seq<Cell>, int) {
    if row >= rows || col >= cols {
        (cells, col + 1)
    } else {
        let w = width_of(ch);
        let at = row * cols + col;
        let one = cells.update(at, Cell { text: ch, hl, continuation: false });
        (if w == 2 && col + 1 < cols { one.update(at + 1, Cell { text: ' ', hl, continuation: true }) } else { one }, col + w)
    }
}

/// `text` written from `col` on in `row` until the row is full.
pub open spec fn write_cells(cells: Seq<Cell>, cols: usize, rows: usize, row: usize, col: int, text: Seq<char>, hl: u64) -> (Seq<Cell>, int)
    decreases text.len(),
{
    if text.len() == 0 || col >= cols || col < 0 {
        (cells, col)
    } else {
        let (c2, next) = put_cells(cells, cols, rows, row, col as usize, text[0], hl);
        write_cells(c2, cols, rows, row, next, text.drop_first(), hl)
    }
}

/// `row` blanked in highlight `hl` from column `from` to its end.
pub open spec fn fill_cells(cells: Seq<Cell>, cols: usize, row: usize, from: usize, hl: u64) -> Seq<Cell> {
    Seq::new(cells.len(), |i: int| if row * cols + from <= i < row * cols + cols {
        Cell { text: ' ', hl, continuation: false }
    } else {
        cells[i]
    })
}

fn blank_cells(n: usize) -> (v: Vec<Cell>)
    ensures
        v@ == blanks(n as int),
{
    let mut v: Vec<Cell> = Vec::new();
    let mut i: usize = 0;
    while i < n
        invariant
            i <= n,
            v@ == blanks(i as int),
        decreases n - i,
    {
        v.push(Cell { text: ' ', hl: 0, continuation: false });
        i = i + 1;
        assert(v@ =~= blanks(i as int));
    }
    v
}

proof fn lemma_index(row: int, col: int, cols: int, rows: int)
    requires
        0 <= row < rows,
        0 <= col < cols,
    ensures
        0 <= row * cols + col < cols * rows,
        row * cols + cols <= cols * rows,
        0 <= row * cols,
{
    assert(row * cols + col < cols * rows) by (nonlinear_arith)
        requires 0 <= row < rows, 0 <= col < cols;
    assert(row * cols + cols <= cols * rows) by (nonlinear_arith)
        requires 0 <= row < rows, 0 <= col < cols;
    assert(0 <= row * cols) by (nonlinear_arith)
        requires 0 <= row, 0 <= cols;
}

impl GridPainter {
    /// A grid of at least one row and column, all blank, not yet painted.
    pub fn new(grid: u64, cols: usize, rows: usize) -> (g: GridPainter)
        requires
            (if cols > 1 { cols } else { 1 }) * (if rows > 1 { rows } else { 1 }) <= usize::MAX,
        ensures
            g@.wf(),
            g@.grid == grid,
            g@.cols == (if cols > 1 { cols } else { 1 }),
            g@.rows == (if rows > 1 { rows } else { 1 }),
            g@.current == blanks(g@.cols * g@.rows),
            g@.previous == blanks(g@.cols * g@.rows),
            !g@.painted,
    {
        let cols = if cols > 1 { cols } else { 1 };
        let rows = if rows > 1 { rows } else { 1 };
        let n = cols * rows;
        let a = blank_cells(n);
        let b = blank_cells(n);
        GridPainter { grid, cols, rows, previous: a, current: b, painted: false }
    }

    pub fn grid(&self) -> (g: u64)
        ensures
            g == self@.grid,
    {
        self.grid
    }

    pub fn cols(&self) -> (c: usize)
        ensures
            c == self@.cols,
    {
        self.cols
    }

    pub fn rows(&self) -> (r: usize)
        ensures
            r == self@.rows,
    {
        self.rows
    }

    /// A fresh blank grid of the new size, to be painted whole again.
    pub fn resize(&mut self, cols: usize, rows: usize)
        requires
            (if cols > 1 { cols } else { 1 }) * (if rows > 1 { rows } else { 1 }) <= usize::MAX,
        ensures
            final(self)@.wf(),
            final(self)@.grid == old(self)@.grid,
            final(self)@.cols == (if cols > 1 { cols } else { 1 }),
            final(self)@.rows == (if rows > 1 { rows } else { 1 }),
            final(self)@.current == blanks(final(self)@.cols * final(self)@.rows),
            final(self)@.previous == blanks(final(self)@.cols * final(self)@.rows),
            !final(self)@.painted,
    {
        let g = GridPainter::new(self.grid, cols, rows);
        *self = g;
    }

    /// Every cell of the picture being drawn made blank.
    pub fn clear_current(&mut self)
        requires
            old(self)@.wf(),
        ensures
            final(self)@ == (GridModel { current: blanks(old(self)@.current.len() as int), ..old(self)@ }),
            final(self)@.wf(),
    {
        let n = self.current.len();
        self.current = blank_cells(n);
    }

    /// Puts `ch` at `row`, `col`, as `put_cells` says; the column after it.
    pub fn put(&mut self, row: usize, col: usize, ch: char, hl: u64) -> (next: usize)
        requires
            old(self)@.wf(),
            col + 2 <= usize::MAX,
        ensures
            final(self)@.wf(),
            final(self)@ == (GridModel { current: put_cells(old(self)@.current, old(self)@.cols, old(self)@.rows, row, col, ch, hl).0, ..old(self)@ }),
            next == put_cells(old(self)@.current, old(self)@.cols, old(self)@.rows, row, col, ch, hl).1,
    {
        if row >= self.rows || col >= self.cols {
            return col + 1;
        }
        proof {
            lemma_index(row as int, col as int, self.cols as int, self.rows as int);
        }
        let width = char_width(ch);
        let _n = self.current.len();
        let at = row * self.cols + col;
        self.current.set(at, Cell { text: ch, hl, continuation: false });
        if width == 2 && col + 1 < self.cols {
            proof {
                lemma_index(row as int, (col + 1) as int, self.cols as int, self.rows as int);
            }
            self.current.set(at + 1, Cell { text: ' ', hl, continuation: true });
        }
        col + width
    }

    /// Writes `text` from `col` on, as `write_cells` says; the column after it.
    pub fn write(&mut self, row: usize, col: usize, text: &str, hl: u64) -> (next: usize)
        requires
            old(self)@.wf(),
            old(self)@.cols + 2 <= usize::MAX,
        ensures
            final(self)@.wf(),
            final(self)@ == (GridModel { current: write_cells(old(self)@.current, old(self)@.cols, old(self)@.rows, row, col as int, text@, hl).0, ..old(self)@ }),
            next == write_cells(old(self)@.current, old(self)@.cols, old(self)@.rows, row, col as int, text@, hl).1,
    {
        let v = crate::text::chars_of(text);
        let ghost col0 = col;
        let mut col = col;
        let mut i: usize = 0;
        let ghost m0 = self@;
        assert(v@.skip(0) =~= v@);
        while i < v.len()
            invariant
                self@.wf(),
                i <= v@.len(),
                v@ == text@,
                self@.cols == m0.cols && self@.rows == m0.rows,
                self@ == (GridModel { current: self@.current, ..m0 }),
                m0.cols + 2 <= usize::MAX,
                write_cells(m0.current, m0.cols, m0.rows, row, col0 as int, text@, hl)
                    == write_cells(self@.current, m0.cols, m0.rows, row, col as int, v@.skip(i as int), hl),
            ensures
                self@.wf(),
                self@ == (GridModel { current: self@.current, ..m0 }),
                write_cells(m0.current, m0.cols, m0.rows, row, col0 as int, text@, hl)
                    == write_cells(self@.current, m0.cols, m0.rows, row, col as int, v@.skip(i as int), hl),
                i >= v@.len() || col >= m0.cols,
                i <= v@.len(),
            decreases v@.len() - i,
        {
            if col >= self.cols {
                break;
            }
            assert(v@.skip(i as int)[0] == v@[i as int]);
            assert(v@.skip(i as int).drop_first() =~= v@.skip(i + 1));
            col = self.put(row, col, v[i], hl);
            i = i + 1;
        }
        proof {
            if i >= v.len() {
                assert(v@.skip(i as int) =~= Seq::<char>::empty());
            }
        }
        col
    }
}

/// A redraw event as values.
pub enum GridEventView {
    Clear(u64),
    Line(u64, u64, Seq<RowPart>),
}

pub open spec fn event_view(e: GridEvent) -> GridEventView {
    match e {
        GridEvent::Clear { grid } => GridEventView::Clear(grid),
        GridEvent::Line { grid, row, parts } => GridEventView::Line(grid, row, parts@),
    }
}

/// Row `r` of a picture `cols` wide.
pub open spec fn row_of_cells(cells: Seq<Cell>, cols: usize, r: int) -> Seq<Cell> {
    cells.subrange(r * cols, r * cols + cols)
}

/// The `grid_line` events for the rows from `r` on that differ from what
/// was last sent.
pub open spec fn changed_rows(m: GridModel, r: int) -> Seq<GridEventView>
    decreases m.rows - r,
{
    if r < 0 || r >= m.rows {
        Seq::empty()
    } else {
        let now = row_of_cells(m.current, m.cols, r);
        let here = if row_of_cells(m.previous, m.cols, r) != now {
            seq![GridEventView::Line(m.grid, r as u64, encode_from(now, 0, None))]
        } else {
            Seq::empty()
        };
        here + changed_rows(m, r + 1)
    }
}

/// What a redraw sends: a clear before the first paint, then the rows
/// that changed.
pub open spec fn redraw_events(m: GridModel) -> Seq<GridEventView> {
    (if m.painted { Seq::empty() } else { seq![GridEventView::Clear(m.grid)] }) + changed_rows(m, 0)
}

/// The cells of a rendered row put from column `col` on until the row is
/// full; the column after them.
pub open spec fn put_row(cells: Seq<Cell>, cols: usize, rows: usize, row: usize, col: int, rc: Seq<RenderCell>) -> (Seq<Cell>, int)
    decreases rc.len(),
{
    if rc.len() == 0 || col >= cols || col < 0 {
        (cells, col)
    } else {
        let (c2, next) = put_cells(cells, cols, rows, row, col as usize, rc[0].text, rc[0].hl);
        put_row(c2, cols, rows, row, next, rc.drop_first())
    }
}

/// Rendered rows `r..` composed onto the picture: each row's cells from
/// column 0, the rest of the row filled in its fill highlight.
pub open spec fn compose_rows(cells: Seq<Cell>, cols: usize, rows: usize, render: Seq<RenderRow>, r: int) -> Seq<Cell>
    decreases render.len() - r,
{
    if r < 0 || r >= render.len() {
        cells
    } else {
        let (c2, col) = put_row(cells, cols, rows, r as usize, 0, render[r].cells@);
        let c3 = if col >= cols { c2 } else { fill_cells(c2, cols, r as usize, col as usize, render[r].fill) };
        compose_rows(c3, cols, rows, render, r + 1)
    }
}

impl GridPainter {
    /// Blanks `row` in highlight `hl` from column `from` to its end.
    pub fn fill(&mut self, row: usize, from: usize, hl: u64)
        requires
            old(self)@.wf(),
            row < old(self)@.rows || from >= old(self)@.cols,
        ensures
            final(self)@.wf(),
            final(self)@ == (GridModel {
                current: if from >= old(self)@.cols { old(self)@.current } else { fill_cells(old(self)@.current, old(self)@.cols, row, from, hl) },
                ..old(self)@
            }),
    {
        if from >= self.cols {
            return;
        }
        let ghost c0 = self@.current;
        let n = self.current.len();
        let mut col = from;
        proof {
            lemma_index(row as int, from as int, self.cols as int, self.rows as int);
        }
        let base = row * self.cols;
        assert(self@.current =~= Seq::new(c0.len(), |i: int| if base + from <= i < base + col {
            Cell { text: ' ', hl, continuation: false }
        } else {
            c0[i]
        }));
        while col < self.cols
            invariant
                self@.wf(),
                from <= col <= self@.cols,
                n == self@.current.len(),
                base == row * self@.cols,
                row < self@.rows,
                self@ == (GridModel { current: self@.current, ..old(self)@ }),
                c0 == old(self)@.current,
                self@.current == Seq::new(c0.len(), |i: int| if base + from <= i < base + col {
                    Cell { text: ' ', hl, continuation: false }
                } else {
                    c0[i]
                }),
            decreases self@.cols - col,
        {
            proof {
                lemma_index(row as int, col as int, self.cols as int, self.rows as int);
            }
            self.current.set(base + col, Cell { text: ' ', hl, continuation: false });
            col = col + 1;
            assert(self@.current =~= Seq::new(c0.len(), |i: int| if base + from <= i < base + col {
                Cell { text: ' ', hl, continuation: false }
            } else {
                c0[i]
            }));
        }
        assert(self@.current =~= fill_cells(c0, self@.cols, row, from, hl));
    }

    fn row_cells(cells: &Vec<Cell>, from: usize, cols: usize) -> (r: Vec<Cell>)
        requires
            from + cols <= cells@.len(),
        ensures
            r@ == cells@.subrange(from as int, from + cols),
    {
        let mut r: Vec<Cell> = Vec::new();
        let mut k: usize = 0;
        let n = cells.len();
        while k < cols
            invariant
                k <= cols,
                n == cells@.len(),
                from + cols <= cells@.len(),
                r@ == cells@.subrange(from as int, from + k),
            decreases cols - k,
        {
            r.push(cells[from + k]);
            k = k + 1;
            assert(r@ =~= cells@.subrange(from as int, from + k));
        }
        r
    }

    /// The events that bring the client's grid up to the picture drawn, as
    /// `redraw_events` says; the picture is then what was sent.
    pub fn diff(&mut self) -> (events: Vec<GridEvent>)
        requires
            old(self)@.wf(),
        ensures
            final(self)@.wf(),
            events@.map_values(|e: GridEvent| event_view(e)) == redraw_events(old(self)@),
            final(self)@ == (GridModel { previous: old(self)@.current, painted: true, ..old(self)@ }),
    {
        let ghost m = self@;
        let mut events: Vec<GridEvent> = Vec::new();
        if !self.painted {
            self.painted = true;
            events.push(GridEvent::Clear { grid: self.grid });
        }
        let ghost head = events@.map_values(|e: GridEvent| event_view(e));
        assert(head =~= (if m.painted { Seq::<GridEventView>::empty() } else { seq![GridEventView::Clear(m.grid)] }));
        let n = self.current.len();
        let mut row: usize = 0;
        while row < self.rows
            invariant
                m.wf(),
                n == m.current.len(),
                self@ == (GridModel { painted: true, ..m }),
                row <= m.rows,
                head + changed_rows(m, 0) == events@.map_values(|e: GridEvent| event_view(e)) + changed_rows(m, row as int),
            decreases m.rows - row,
        {
            proof {
                lemma_index(row as int, 0, m.cols as int, m.rows as int);
            }
            let from = row * self.cols;
            let prev = GridPainter::row_cells(&self.previous, from, self.cols);
            let now = GridPainter::row_cells(&self.current, from, self.cols);
            let mut same = true;
            let mut k: usize = 0;
            while k < now.len()
                invariant
                    k <= now@.len(),
                    now@.len() == prev@.len(),
                    same == (forall|j: int| 0 <= j < k ==> now@[j] == prev@[j]),
                decreases now@.len() - k,
            {
                if now[k] != prev[k] {
                    same = false;
                }
                k = k + 1;
            }
            proof {
                if same {
                    assert(now@ =~= prev@);
                } else {
                    let j = choose|j: int| 0 <= j < now@.len() && now@[j] != prev@[j];
                    assert(now@[j] != prev@[j]);
                }
            }
            let ghost before = events@.map_values(|e: GridEvent| event_view(e));
            if !same {
                let parts = encode_row(now.as_slice());
                events.push(GridEvent::Line { grid: self.grid, row: row as u64, parts });
                assert(events@.map_values(|e: GridEvent| event_view(e)) =~= before.push(GridEventView::Line(m.grid, row as u64, encode_from(now@, 0, None))));
            }
            assert(changed_rows(m, row as int) == (if !same {
                seq![GridEventView::Line(m.grid, row as u64, encode_from(now@, 0, None))]
            } else {
                Seq::<GridEventView>::empty()
            }) + changed_rows(m, row + 1));
            row = row + 1;
            assert(head + changed_rows(m, 0) =~= events@.map_values(|e: GridEvent| event_view(e)) + changed_rows(m, row as int));
        }
        let copy = GridPainter::row_cells(&self.current, 0, n);
        assert(copy@ =~= m.current);
        self.previous = copy;
        assert(changed_rows(m, row as int) =~= Seq::<GridEventView>::empty());
        assert(events@.map_values(|e: GridEvent| event_view(e)) =~= redraw_events(m));
        events
    }
}

impl GridPainter {
    /// Composes rendered rows onto the picture from its top, as
    /// `compose_rows` says.
    pub fn compose(&mut self, rows: &Vec<RenderRow>)
        requires
            old(self)@.wf(),
            rows@.len() <= old(self)@.rows,
            old(self)@.cols + 2 <= usize::MAX,
        ensures
            final(self)@.wf(),
            final(self)@ == (GridModel {
                current: compose_rows(old(self)@.current, old(self)@.cols, old(self)@.rows, rows@, 0),
                ..old(self)@
            }),
    {
        let ghost m0 = self@;
        let mut r: usize = 0;
        while r < rows.len()
            invariant
                self@.wf(),
                r <= rows@.len(),
                rows@.len() <= m0.rows,
                m0.cols + 2 <= usize::MAX,
                self@ == (GridModel { current: self@.current, ..m0 }),
                compose_rows(m0.current, m0.cols, m0.rows, rows@, 0)
                    == compose_rows(self@.current, m0.cols, m0.rows, rows@, r as int),
            decreases rows@.len() - r,
        {
            let cells = &rows[r].cells;
            let ghost start = self@.current;
            let mut col: usize = 0;
            let mut i: usize = 0;
            assert(cells@.skip(0) =~= cells@);
            while i < cells.len()
                invariant
                    self@.wf(),
                    i <= cells@.len(),
                    r < m0.rows,
                    m0.cols + 2 <= usize::MAX,
                    self@ == (GridModel { current: self@.current, ..m0 }),
                    put_row(start, m0.cols, m0.rows, r, 0, cells@)
                        == put_row(self@.current, m0.cols, m0.rows, r, col as int, cells@.skip(i as int)),
                ensures
                    self@.wf(),
                    self@ == (GridModel { current: self@.current, ..m0 }),
                    put_row(start, m0.cols, m0.rows, r, 0, cells@)
                        == put_row(self@.current, m0.cols, m0.rows, r, col as int, cells@.skip(i as int)),
                    i >= cells@.len() || col >= m0.cols,
                    i <= cells@.len(),
                decreases cells@.len() - i,
            {
                if col >= self.cols {
                    break;
                }
                assert(cells@.skip(i as int)[0] == cells@[i as int]);
                assert(cells@.skip(i as int).drop_first() =~= cells@.skip(i + 1));
                col = self.put(r, col, cells[i].text, cells[i].hl);
                i = i + 1;
            }
            proof {
                if i >= cells@.len() {
                    assert(cells@.skip(i as int) =~= Seq::<RenderCell>::empty());
                }
            }
            let ghost put_done = self@.current;
            self.fill(r, col, rows[r].fill);
            proof {
                assert(put_row(start, m0.cols, m0.rows, r, 0, cells@) == (put_done, col as int));
            }
            r = r + 1;
        }
    }
}

} // verus!
