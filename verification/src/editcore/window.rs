//! Window and tab layout model.

use vstd::prelude::*;
use crate::editcore::buffers::BufferId;

verus! {

#[derive(Clone, Copy, PartialEq, Eq, PartialOrd, Ord, Hash, Debug, Structural)]
pub struct WindowId(pub u64);

#[derive(Clone, Copy, PartialEq, Eq, Debug, Structural)]
pub enum Direction {
    Left,
    Down,
    Up,
    Right,
}

impl Direction {
    pub fn from_vim(ch: char) -> (d: Option<Direction>)
        ensures
            d == if ch == 'h' {
                Some(Direction::Left)
            } else if ch == 'j' {
                Some(Direction::Down)
            } else if ch == 'k' {
                Some(Direction::Up)
            } else if ch == 'l' {
                Some(Direction::Right)
            } else {
                None
            },
    {
        match ch {
            'h' => Some(Direction::Left),
            'j' => Some(Direction::Down),
            'k' => Some(Direction::Up),
            'l' => Some(Direction::Right),
            _ => None,
        }
    }
}

#[derive(Clone, Copy, PartialEq, Eq, Debug, Structural)]
pub enum Axis {
    Horizontal,
    Vertical,
}

#[derive(Debug)]
pub enum Layout {
    Leaf(WindowId),
    Row(Vec<Layout>),
    Col(Vec<Layout>),
}

/// A layout as a mathematical tree.
pub enum LayoutModel {
    Leaf(u64),
    Row(Seq<LayoutModel>),
    Col(Seq<LayoutModel>),
}

#[derive(Clone, Copy, PartialEq, Eq, Debug, Default, Structural)]
pub struct Rect {
    pub row: usize,
    pub col: usize,
    pub rows: usize,
    pub cols: usize,
}

impl Rect {
    pub fn new(row: usize, col: usize, rows: usize, cols: usize) -> (r: Rect)
        ensures
            r == (Rect { row, col, rows, cols }),
    {
        Rect { row, col, rows, cols }
    }
}

/// A rectangle whose edges are representable.
pub open spec fn fits(r: Rect) -> bool {
    r.row + r.rows <= usize::MAX && r.col + r.cols <= usize::MAX
}

#[derive(Clone, PartialEq, Eq, Debug, Default)]
pub struct LayoutRects {
    /// Each window's text area, in layout order.
    pub text: Vec<(WindowId, Rect)>,
    pub status: Vec<Rect>,
    pub separators: Vec<Rect>,
}

/// The rectangle last given to window `id`, if any.
pub open spec fn rect_of(s: Seq<(u64, Rect)>, id: u64) -> Option<Rect>
    decreases s.len(),
{
    if s.len() == 0 {
        None
    } else if s.last().0 == id {
        Some(s.last().1)
    } else {
        rect_of(s.drop_last(), id)
    }
}

proof fn lemma_rect_of_prefix(s: Seq<(u64, Rect)>, id: u64, i: int)
    requires
        0 <= i <= s.len(),
        forall|j: int| i <= j < s.len() ==> (#[trigger] s[j]).0 != id,
    ensures
        rect_of(s, id) == rect_of(s.take(i), id),
    decreases s.len() - i,
{
    if i < s.len() {
        assert(s.drop_last() =~= s.take(s.len() - 1));
        lemma_rect_of_prefix(s.drop_last(), id, i);
        assert(s.drop_last().take(i) =~= s.take(i));
    } else {
        assert(s.take(i) =~= s);
    }
}

impl LayoutRects {
    /// The text area of window `id`.
    pub fn text_of(&self, id: WindowId) -> (r: Option<Rect>)
        ensures
            r == rect_of(rects_of(*self).text, id.0),
    {
        let ghost t = rects_of(*self).text;
        let mut i = self.text.len();
        while i > 0
            invariant
                i <= self.text@.len(),
                t == rects_of(*self).text,
                t.len() == self.text@.len(),
                forall|j: int| i <= j < t.len() ==> (#[trigger] t[j]).0 != id.0,
            decreases i,
        {
            let (w, rect) = self.text[i - 1];
            assert(t[i - 1] == (w.0, rect));
            if w == id {
                proof {
                    lemma_rect_of_prefix(t, id.0, i as int);
                    assert(t.take(i as int).last() == (id.0, rect));
                }
                return Some(rect);
            }
            i = i - 1;
        }
        proof {
            lemma_rect_of_prefix(t, id.0, 0);
        }
        None
    }
}

#[derive(Clone, Copy, PartialEq, Eq, Debug)]
pub struct WindowView {
    pub id: WindowId,
    pub grid: u64,
    pub buffer: BufferId,
    pub cursor: (usize, usize),
    pub desired_col: usize,
    pub top_line: usize,
    pub cols: usize,
    pub rows: usize,
}

impl WindowView {
    pub fn new(id: WindowId, grid: u64, buffer: BufferId) -> (v: WindowView)
        ensures
            v == (WindowView { id, grid, buffer, cursor: (0, 0), desired_col: 0, top_line: 0, cols: 80, rows: 24 }),
    {
        WindowView { id, grid, buffer, cursor: (0, 0), desired_col: 0, top_line: 0, cols: 80, rows: 24 }
    }
}

// ---------------------------------------------------------------------------
// The model
// ---------------------------------------------------------------------------

pub open spec fn layout_model(l: Layout) -> LayoutModel
    decreases l,
{
    match l {
        Layout::Leaf(id) => LayoutModel::Leaf(id.0),
        Layout::Row(cs) => LayoutModel::Row(models(cs@)),
        Layout::Col(cs) => LayoutModel::Col(models(cs@)),
    }
}

pub open spec fn models(s: Seq<Layout>) -> Seq<LayoutModel>
    decreases s,
{
    if s.len() == 0 {
        Seq::empty()
    } else {
        models(s.drop_last()).push(layout_model(s.last()))
    }
}

pub proof fn lemma_models(s: Seq<Layout>)
    ensures
        models(s).len() == s.len(),
        forall|i: int| 0 <= i < s.len() ==> #[trigger] models(s)[i] == layout_model(s[i]),
    decreases s.len(),
{
    if s.len() > 0 {
        lemma_models(s.drop_last());
        assert forall|i: int| 0 <= i < s.len() implies #[trigger] models(s)[i] == layout_model(s[i]) by {
            if i < s.len() - 1 {
                assert(s.drop_last()[i] == s[i]);
            }
        }
    }
}

pub proof fn lemma_models_ext(s: Seq<Layout>, m: Seq<LayoutModel>)
    requires
        m.len() == s.len(),
        forall|i: int| 0 <= i < s.len() ==> #[trigger] m[i] == layout_model(s[i]),
    ensures
        models(s) == m,
{
    lemma_models(s);
    assert(models(s) =~= m);
}

/// The windows of a layout, left to right and top to bottom.
pub open spec fn leaves(l: LayoutModel) -> Seq<u64>
    decreases l, 0int,
{
    match l {
        LayoutModel::Leaf(id) => seq![id],
        LayoutModel::Row(cs) => leaves_from(cs, 0),
        LayoutModel::Col(cs) => leaves_from(cs, 0),
    }
}

/// The windows of children `i..` of a row or column.
pub open spec fn leaves_from(cs: Seq<LayoutModel>, i: int) -> Seq<u64>
    decreases cs, cs.len() - i,
{
    if i < 0 || i >= cs.len() {
        Seq::empty()
    } else {
        leaves(cs[i]) + leaves_from(cs, i + 1)
    }
}

/// The numbers of a sequence of window ids.
pub open spec fn ids(s: Seq<WindowId>) -> Seq<u64> {
    s.map_values(|w: WindowId| w.0)
}

impl Layout {
    /// The windows of the layout, left to right and top to bottom.
    pub fn leaves(&self) -> (r: Vec<WindowId>)
        ensures
            ids(r@) == leaves(layout_model(*self)),
    {
        let mut out: Vec<WindowId> = Vec::new();
        self.push_leaves(&mut out);
        assert(ids(out@) =~= Seq::<u64>::empty() + leaves(layout_model(*self)));
        out
    }

    fn push_leaves(&self, out: &mut Vec<WindowId>)
        ensures
            ids(final(out)@) == ids(old(out)@) + leaves(layout_model(*self)),
        decreases self,
    {
        match self {
            Layout::Leaf(id) => {
                let ghost before = ids(out@);
                out.push(*id);
                assert(ids(out@) =~= before + seq![id.0]);
            },
            Layout::Row(cs) => {
                push_children_leaves(cs, out);
            },
            Layout::Col(cs) => {
                push_children_leaves(cs, out);
            },
        }
    }
}

fn push_children_leaves(cs: &Vec<Layout>, out: &mut Vec<WindowId>)
    ensures
        ids(final(out)@) == ids(old(out)@) + leaves_from(models(cs@), 0),
    decreases cs, 1int,
{
    let ghost m = models(cs@);
    let ghost start = ids(out@);
    proof {
        lemma_models(cs@);
    }
    let mut i: usize = 0;
    while i < cs.len()
        invariant
            i <= cs@.len(),
            m == models(cs@),
            m.len() == cs@.len(),
            forall|j: int| 0 <= j < cs@.len() ==> #[trigger] m[j] == layout_model(cs@[j]),
            ids(out@) + leaves_from(m, i as int) == start + leaves_from(m, 0),
        decreases cs.len() - i,
    {
        let ghost before = ids(out@);
        cs[i].push_leaves(out);
        assert(leaves_from(m, i as int) == leaves(m[i as int]) + leaves_from(m, i + 1));
        assert(ids(out@) + leaves_from(m, i + 1) =~= before + leaves_from(m, i as int));
        i = i + 1;
    }
    assert(ids(out@) =~= ids(out@) + leaves_from(m, i as int));
}

pub open spec fn has_leaf(l: LayoutModel, id: u64) -> bool {
    leaves(l).contains(id)
}

/// The first child that holds `target`, from `i` on; -1 when none does.
pub open spec fn first_holding(cs: Seq<LayoutModel>, target: u64, i: int) -> int
    decreases cs.len() - i,
{
    if i < 0 || i >= cs.len() {
        -1
    } else if has_leaf(cs[i], target) {
        i
    } else {
        first_holding(cs, target, i + 1)
    }
}

pub proof fn lemma_first_holding(cs: Seq<LayoutModel>, target: u64, i: int)
    requires
        0 <= i,
    ensures
        first_holding(cs, target, i) == -1 || (i <= first_holding(cs, target, i) < cs.len()
            && has_leaf(cs[first_holding(cs, target, i)], target)),
    decreases cs.len() - i,
{
    if i < cs.len() && !has_leaf(cs[i], target) {
        lemma_first_holding(cs, target, i + 1);
    }
}

pub open spec fn wrap(axis: Axis, cs: Seq<LayoutModel>) -> LayoutModel {
    match axis {
        Axis::Horizontal => LayoutModel::Row(cs),
        Axis::Vertical => LayoutModel::Col(cs),
    }
}

/// Splitting window `target` to add window `new` beside it along `axis`
/// (after it, or before it). A split along the axis a row or column already
/// runs in joins that row or column; the flag says whether `target` was found.
pub open spec fn split_model(l: LayoutModel, target: u64, new: u64, axis: Axis, after: bool) -> (LayoutModel, bool)
    decreases l,
{
    match l {
        LayoutModel::Leaf(id) => if id == target {
            let pair = if after {
                seq![LayoutModel::Leaf(target), LayoutModel::Leaf(new)]
            } else {
                seq![LayoutModel::Leaf(new), LayoutModel::Leaf(target)]
            };
            (wrap(axis, pair), true)
        } else {
            (l, false)
        },
        LayoutModel::Row(cs) => {
            let k = first_holding(cs, target, 0);
            if k < 0 || k >= cs.len() {
                (l, false)
            } else if axis is Horizontal && cs[k] == LayoutModel::Leaf(target) {
                (LayoutModel::Row(cs.insert(if after { k + 1 } else { k }, LayoutModel::Leaf(new))), true)
            } else {
                let child_axis = if axis is Horizontal {
                    if cs[k] is Row { Axis::Horizontal } else { Axis::Vertical }
                } else {
                    axis
                };
                (LayoutModel::Row(cs.update(k, split_model(cs[k], target, new, child_axis, after).0)), split_model(cs[k], target, new, child_axis, after).1)
            }
        },
        LayoutModel::Col(cs) => {
            let k = first_holding(cs, target, 0);
            if k < 0 || k >= cs.len() {
                (l, false)
            } else if axis is Vertical && cs[k] == LayoutModel::Leaf(target) {
                (LayoutModel::Col(cs.insert(if after { k + 1 } else { k }, LayoutModel::Leaf(new))), true)
            } else {
                let child_axis = if axis is Vertical {
                    if cs[k] is Row { Axis::Horizontal } else { Axis::Vertical }
                } else {
                    axis
                };
                (LayoutModel::Col(cs.update(k, split_model(cs[k], target, new, child_axis, after).0)), split_model(cs[k], target, new, child_axis, after).1)
            }
        },
    }
}

/// Removing window `target`: the flag says the node itself is that window
/// and its parent drops it.
pub open spec fn remove_model(l: LayoutModel, target: u64) -> (LayoutModel, bool)
    decreases l, 0int,
{
    match l {
        LayoutModel::Leaf(id) => (l, id == target),
        LayoutModel::Row(cs) => (LayoutModel::Row(remove_from(cs, target, 0)), false),
        LayoutModel::Col(cs) => (LayoutModel::Col(remove_from(cs, target, 0)), false),
    }
}

/// Children `i..` with `target` removed from each and dropped where they are it.
pub open spec fn remove_from(cs: Seq<LayoutModel>, target: u64, i: int) -> Seq<LayoutModel>
    decreases cs, cs.len() - i,
{
    if i < 0 || i >= cs.len() {
        Seq::empty()
    } else {
        let rest = remove_from(cs, target, i + 1);
        let (c, gone) = remove_model(cs[i], target);
        if gone {
            rest
        } else {
            seq![c] + rest
        }
    }
}

/// A row or column left with one child becomes that child.
pub open spec fn collapse_model(l: LayoutModel) -> LayoutModel
    decreases l, 0int,
{
    match l {
        LayoutModel::Leaf(_) => l,
        LayoutModel::Row(cs) => {
            let cs2 = collapse_from(cs, 0);
            if cs2.len() == 1 { cs2[0] } else { LayoutModel::Row(cs2) }
        },
        LayoutModel::Col(cs) => {
            let cs2 = collapse_from(cs, 0);
            if cs2.len() == 1 { cs2[0] } else { LayoutModel::Col(cs2) }
        },
    }
}

pub open spec fn collapse_from(cs: Seq<LayoutModel>, i: int) -> Seq<LayoutModel>
    decreases cs, cs.len() - i,
{
    if i < 0 || i >= cs.len() {
        Seq::empty()
    } else {
        seq![collapse_model(cs[i])] + collapse_from(cs, i + 1)
    }
}

// ---------------------------------------------------------------------------
// Rectangles
// ---------------------------------------------------------------------------

pub open spec fn sat(x: int) -> usize {
    if x > usize::MAX { usize::MAX } else if x < 0 { 0 } else { x as usize }
}

/// The size of part `index` when `total` cells are shared by `parts`: the
/// first `total % parts` parts get one cell more.
pub open spec fn split_size(total: int, parts: int, index: int) -> int {
    total / parts + if index < total % parts { 1int } else { 0int }
}

/// What a layout draws in an area: each window's text rectangle, the status
/// lines, and the separators between side-by-side windows, in layout order.
pub struct RectsModel {
    pub text: Seq<(u64, Rect)>,
    pub status: Seq<Rect>,
    pub separators: Seq<Rect>,
}

pub open spec fn no_rects() -> RectsModel {
    RectsModel { text: Seq::empty(), status: Seq::empty(), separators: Seq::empty() }
}

pub open spec fn concat(a: RectsModel, b: RectsModel) -> RectsModel {
    RectsModel { text: a.text + b.text, status: a.status + b.status, separators: a.separators + b.separators }
}

pub open spec fn rects_model(l: LayoutModel, area: Rect) -> RectsModel
    decreases l, 0int,
{
    match l {
        LayoutModel::Leaf(id) => {
            let text_rows: usize = if area.rows > 1 { (area.rows - 1) as usize } else { 1 };
            RectsModel {
                text: seq![(id, Rect { row: area.row, col: area.col, rows: text_rows, cols: area.cols })],
                status: if area.rows > 1 {
                    seq![Rect { row: sat(area.row + text_rows), col: area.col, rows: 1, cols: area.cols }]
                } else {
                    Seq::empty()
                },
                separators: Seq::empty(),
            }
        },
        LayoutModel::Row(cs) => if cs.len() == 0 {
            no_rects()
        } else {
            let seps = cs.len() - 1;
            let available = if area.cols >= seps { area.cols - seps } else { 0 };
            row_rects(cs, area, 0, area.col as int, available)
        },
        LayoutModel::Col(cs) => if cs.len() == 0 {
            no_rects()
        } else {
            col_rects(cs, area, 0, area.row as int)
        },
    }
}

pub open spec fn row_rects(cs: Seq<LayoutModel>, area: Rect, i: int, col: int, available: int) -> RectsModel
    decreases cs, cs.len() - i,
{
    if i < 0 || i >= cs.len() {
        no_rects()
    } else {
        let width = split_size(available, cs.len() as int, i);
        let child = rects_model(cs[i], Rect { row: area.row, col: sat(col), rows: area.rows, cols: sat(width) });
        let after = sat(sat(col) + sat(width));
        let sep = if i + 1 < cs.len() {
            seq![Rect { row: area.row, col: after, rows: area.rows, cols: 1 }]
        } else {
            Seq::empty()
        };
        let next = if i + 1 < cs.len() { sat(after + 1) as int } else { after as int };
        concat(
            RectsModel { separators: child.separators + sep, ..child },
            row_rects(cs, area, i + 1, next, available),
        )
    }
}

pub open spec fn col_rects(cs: Seq<LayoutModel>, area: Rect, i: int, row: int) -> RectsModel
    decreases cs, cs.len() - i,
{
    if i < 0 || i >= cs.len() {
        no_rects()
    } else {
        let height = split_size(area.rows as int, cs.len() as int, i);
        let child = rects_model(cs[i], Rect { row: sat(row), col: area.col, rows: sat(height), cols: area.cols });
        concat(child, col_rects(cs, area, i + 1, sat(sat(row) + sat(height)) as int))
    }
}

pub open spec fn right(r: Rect) -> int {
    r.col + r.cols
}

pub open spec fn bottom(r: Rect) -> int {
    r.row + r.rows
}

pub open spec fn in_direction(current: Rect, candidate: Rect, dir: Direction) -> bool {
    match dir {
        Direction::Left => right(candidate) <= current.col,
        Direction::Right => candidate.col >= right(current),
        Direction::Up => bottom(candidate) <= current.row,
        Direction::Down => candidate.row >= bottom(current),
    }
}

pub open spec fn abs_diff(a: int, b: int) -> int {
    if a >= b { a - b } else { b - a }
}

/// How far a candidate is: the gap along the direction, then how far its
/// centre is off across it.
pub open spec fn distance(current: Rect, candidate: Rect, dir: Direction) -> (int, int) {
    let primary = match dir {
        Direction::Left => if current.col >= right(candidate) { current.col - right(candidate) } else { 0 },
        Direction::Right => if candidate.col >= right(current) { candidate.col - right(current) } else { 0 },
        Direction::Up => if current.row >= bottom(candidate) { current.row - bottom(candidate) } else { 0 },
        Direction::Down => if candidate.row >= bottom(current) { candidate.row - bottom(current) } else { 0 },
    };
    let secondary = match dir {
        Direction::Left | Direction::Right => abs_diff(2 * current.row + current.rows, 2 * candidate.row + candidate.rows),
        Direction::Up | Direction::Down => abs_diff(2 * current.col + current.cols, 2 * candidate.col + candidate.cols),
    };
    (primary, secondary)
}

/// `a` comes before `b`: nearer, then better aligned, then the lower id.
pub open spec fn nearer(a: (u64, Rect), b: (u64, Rect), current: Rect, dir: Direction) -> bool {
    let da = distance(current, a.1, dir);
    let db = distance(current, b.1, dir);
    da.0 < db.0 || (da.0 == db.0 && (da.1 < db.1 || (da.1 == db.1 && a.0 <= b.0)))
}

pub open spec fn is_candidate(c: (u64, Rect), focus: u64, current: Rect, dir: Direction) -> bool {
    c.0 != focus && in_direction(current, c.1, dir)
}

pub open spec fn rects_of(r: LayoutRects) -> RectsModel {
    RectsModel {
        text: r.text@.map_values(|p: (WindowId, Rect)| (p.0.0, p.1)),
        status: r.status@,
        separators: r.separators@,
    }
}

proof fn lemma_concat_assoc(a: RectsModel, b: RectsModel, c: RectsModel)
    ensures
        concat(concat(a, b), c) == concat(a, concat(b, c)),
        concat(a, no_rects()) == a,
{
    assert(concat(concat(a, b), c).text =~= concat(a, concat(b, c)).text);
    assert(concat(concat(a, b), c).status =~= concat(a, concat(b, c)).status);
    assert(concat(concat(a, b), c).separators =~= concat(a, concat(b, c)).separators);
    assert(concat(a, no_rects()).text =~= a.text);
    assert(concat(a, no_rects()).status =~= a.status);
    assert(concat(a, no_rects()).separators =~= a.separators);
}

fn split_size_exec(total: usize, parts: usize, index: usize) -> (r: usize)
    requires
        parts > 0,
    ensures
        r == split_size(total as int, parts as int, index as int),
{
    let extra: usize = if index < total % parts { 1 } else { 0 };
    proof {
        if extra == 1 {
            assert(total / parts < total) by (nonlinear_arith)
                requires
                    parts > 0,
                    total % parts > 0,
                    total % parts < parts,
            {
                assert(total == parts * (total / parts) + total % parts);
                if parts == 1 {
                    assert(total % parts == 0);
                }
            }
        }
    }
    total / parts + extra
}

fn layout_rects(layout: &Layout, area: Rect, out: &mut LayoutRects)
    ensures
        rects_of(*final(out)) == concat(rects_of(*old(out)), rects_model(layout_model(*layout), area)),
    decreases layout,
{
    let ghost start = rects_of(*out);
    match layout {
        Layout::Leaf(id) => {
            let text_rows: usize = if area.rows > 1 { area.rows - 1 } else { 1 };
            out.text.push((*id, Rect::new(area.row, area.col, text_rows, area.cols)));
            if area.rows > 1 {
                out.status.push(Rect::new(area.row.saturating_add(text_rows), area.col, 1, area.cols));
            }
            let ghost want = rects_model(layout_model(*layout), area);
            assert(rects_of(*out).text =~= start.text + want.text);
            assert(rects_of(*out).status =~= start.status + want.status);
            assert(rects_of(*out).separators =~= start.separators + want.separators);
        },
        Layout::Row(cs) => {
            row_layout_rects(cs, area, out);
        },
        Layout::Col(cs) => {
            col_layout_rects(cs, area, out);
        },
    }
}

fn row_layout_rects(cs: &Vec<Layout>, area: Rect, out: &mut LayoutRects)
    ensures
        rects_of(*final(out)) == concat(rects_of(*old(out)), rects_model(LayoutModel::Row(models(cs@)), area)),
    decreases cs, 1int,
{
    let ghost start = rects_of(*out);
    let ghost m = models(cs@);
    proof {
        lemma_models(cs@);
    }
    let n = cs.len();
    if n == 0 {
        proof {
            lemma_concat_assoc(start, no_rects(), no_rects());
        }
        return;
    }
    let available = area.cols.saturating_sub(n - 1);
    let mut col = area.col;
    let mut index: usize = 0;
    proof {
        lemma_concat_assoc(start, no_rects(), no_rects());
    }
    while index < n
        invariant
            n == cs@.len(),
            n > 0,
            index <= n,
            m == models(cs@),
            m.len() == n,
            forall|j: int| 0 <= j < n ==> #[trigger] m[j] == layout_model(cs@[j]),
            available == (if area.cols >= n - 1 { area.cols - (n - 1) } else { 0 }),
            concat(rects_of(*out), row_rects(m, area, index as int, col as int, available as int))
                == concat(start, row_rects(m, area, 0, area.col as int, available as int)),
        decreases n - index,
    {
        let ghost before = rects_of(*out);
        let width = split_size_exec(available, n, index);
        let child_area = Rect::new(area.row, col, area.rows, width);
        layout_rects(&cs[index], child_area, out);
        let ghost child = rects_model(m[index as int], child_area);
        let ghost after_child = rects_of(*out);
        col = col.saturating_add(width);
        if index + 1 < n {
            out.separators.push(Rect::new(area.row, col, area.rows, 1));
            col = col.saturating_add(1);
        }
        proof {
            let sep = if index + 1 < n {
                seq![Rect { row: area.row, col: sat(child_area.col + child_area.cols), rows: area.rows, cols: 1 }]
            } else {
                Seq::empty()
            };
            let piece = RectsModel { separators: child.separators + sep, ..child };
            let rest = row_rects(m, area, index + 1, col as int, available as int);
            assert(row_rects(m, area, index as int, child_area.col as int, available as int) == concat(piece, rest));
            assert(rects_of(*out).text =~= concat(before, piece).text);
            assert(rects_of(*out).status =~= concat(before, piece).status);
            assert(rects_of(*out).separators =~= concat(before, piece).separators);
            lemma_concat_assoc(before, piece, rest);
        }
        index = index + 1;
    }
    proof {
        lemma_concat_assoc(rects_of(*out), no_rects(), no_rects());
    }
}

fn col_layout_rects(cs: &Vec<Layout>, area: Rect, out: &mut LayoutRects)
    ensures
        rects_of(*final(out)) == concat(rects_of(*old(out)), rects_model(LayoutModel::Col(models(cs@)), area)),
    decreases cs, 1int,
{
    let ghost start = rects_of(*out);
    let ghost m = models(cs@);
    proof {
        lemma_models(cs@);
        lemma_concat_assoc(start, no_rects(), no_rects());
    }
    let n = cs.len();
    if n == 0 {
        return;
    }
    let mut row = area.row;
    let mut index: usize = 0;
    while index < n
        invariant
            n == cs@.len(),
            n > 0,
            index <= n,
            m == models(cs@),
            m.len() == n,
            forall|j: int| 0 <= j < n ==> #[trigger] m[j] == layout_model(cs@[j]),
            concat(rects_of(*out), col_rects(m, area, index as int, row as int))
                == concat(start, col_rects(m, area, 0, area.row as int)),
        decreases n - index,
    {
        let ghost before = rects_of(*out);
        let height = split_size_exec(area.rows, n, index);
        let child_area = Rect::new(row, area.col, height, area.cols);
        layout_rects(&cs[index], child_area, out);
        let ghost child = rects_model(m[index as int], child_area);
        row = row.saturating_add(height);
        proof {
            let rest = col_rects(m, area, index + 1, row as int);
            assert(col_rects(m, area, index as int, child_area.row as int) == concat(child, rest));
            lemma_concat_assoc(before, child, rest);
        }
        index = index + 1;
    }
    proof {
        lemma_concat_assoc(rects_of(*out), no_rects(), no_rects());
    }
}

impl Layout {
    /// Whether window `target` is in the layout.
    fn holds(&self, target: WindowId) -> (r: bool)
        ensures
            r == has_leaf(layout_model(*self), target.0),
    {
        let all = self.leaves();
        let mut i: usize = 0;
        while i < all.len()
            invariant
                i <= all@.len(),
                ids(all@) == leaves(layout_model(*self)),
                forall|j: int| 0 <= j < i ==> (#[trigger] all@[j]).0 != target.0,
            decreases all.len() - i,
        {
            if all[i].0 == target.0 {
                assert(ids(all@)[i as int] == target.0);
                return true;
            }
            i = i + 1;
        }
        assert forall|j: int| 0 <= j < ids(all@).len() implies #[trigger] ids(all@)[j] != target.0 by {
            assert(ids(all@)[j] == all@[j].0);
        }
        false
    }
}

/// The first child that holds `target`, or the number of children.
fn first_holding_exec(cs: &Vec<Layout>, target: WindowId) -> (k: usize)
    ensures
        k == (if first_holding(models(cs@), target.0, 0) < 0 { cs@.len() as int } else { first_holding(models(cs@), target.0, 0) }),
{
    let ghost m = models(cs@);
    proof {
        lemma_models(cs@);
    }
    let mut i: usize = 0;
    while i < cs.len()
        invariant
            i <= cs@.len(),
            m == models(cs@),
            m.len() == cs@.len(),
            forall|j: int| 0 <= j < cs@.len() ==> #[trigger] m[j] == layout_model(cs@[j]),
            first_holding(m, target.0, 0) == first_holding(m, target.0, i as int),
        decreases cs.len() - i,
    {
        if cs[i].holds(target) {
            return i;
        }
        i = i + 1;
    }
    i
}

fn split_layout(l: Layout, target: WindowId, new: WindowId, axis: Axis, after: bool) -> (r: (Layout, bool))
    ensures
        (layout_model(r.0), r.1) == split_model(layout_model(l), target.0, new.0, axis, after),
    decreases l, 0int,
{
    match l {
        Layout::Leaf(id) => {
            if id == target {
                let pair = if after {
                    vec![Layout::Leaf(target), Layout::Leaf(new)]
                } else {
                    vec![Layout::Leaf(new), Layout::Leaf(target)]
                };
                proof {
                    let want = if after {
                        seq![LayoutModel::Leaf(target.0), LayoutModel::Leaf(new.0)]
                    } else {
                        seq![LayoutModel::Leaf(new.0), LayoutModel::Leaf(target.0)]
                    };
                    lemma_models_ext(pair@, want);
                }
                let node = match axis {
                    Axis::Horizontal => Layout::Row(pair),
                    Axis::Vertical => Layout::Col(pair),
                };
                (node, true)
            } else {
                (Layout::Leaf(id), false)
            }
        },
        Layout::Row(cs) => {
            let (cs2, found) = split_children(cs, true, target, new, axis, after);
            (Layout::Row(cs2), found)
        },
        Layout::Col(cs) => {
            let (cs2, found) = split_children(cs, false, target, new, axis, after);
            (Layout::Col(cs2), found)
        },
    }
}

fn split_children(cs: Vec<Layout>, is_row: bool, target: WindowId, new: WindowId, axis: Axis, after: bool) -> (r: (Vec<Layout>, bool))
    ensures
        ({
            let l = if is_row { LayoutModel::Row(models(cs@)) } else { LayoutModel::Col(models(cs@)) };
            let s = split_model(l, target.0, new.0, axis, after);
            if is_row {
                (LayoutModel::Row(models(r.0@)), r.1) == s
            } else {
                (LayoutModel::Col(models(r.0@)), r.1) == s
            }
        }),
    decreases cs, 1int,
{
    let ghost m = models(cs@);
    proof {
        lemma_models(cs@);
    }
    let k = first_holding_exec(&cs, target);
    if k >= cs.len() {
        proof {
            lemma_first_holding(m, target.0, 0);
        }
        return (cs, false);
    }
    proof {
        lemma_first_holding(m, target.0, 0);
    }
    let along = match axis {
        Axis::Horizontal => is_row,
        Axis::Vertical => !is_row,
    };
    let is_target_leaf = match &cs[k] {
        Layout::Leaf(id) => *id == target,
        _ => false,
    };
    let mut cs = cs;
    if along && is_target_leaf {
        let at = if after { k + 1 } else { k };
        cs.insert(at, Layout::Leaf(new));
        proof {
            lemma_models_ext(cs@, m.insert(at as int, LayoutModel::Leaf(new.0)));
        }
        (cs, true)
    } else {
        let child_axis = if along {
            match &cs[k] {
                Layout::Row(_) => Axis::Horizontal,
                _ => Axis::Vertical,
            }
        } else {
            axis
        };
        let child = cs.remove(k);
        assert(layout_model(child) == m[k as int]);
        let (c2, found) = split_layout(child, target, new, child_axis, after);
        cs.insert(k, c2);
        proof {
            lemma_models_ext(cs@, m.update(k as int, layout_model(c2)));
        }
        (cs, found)
    }
}

fn remove_layout(l: Layout, target: WindowId) -> (r: (Layout, bool))
    ensures
        (layout_model(r.0), r.1) == remove_model(layout_model(l), target.0),
    decreases l, 0int,
{
    match l {
        Layout::Leaf(id) => {
            let gone = id == target;
            (Layout::Leaf(id), gone)
        },
        Layout::Row(cs) => (Layout::Row(remove_children(cs, target)), false),
        Layout::Col(cs) => (Layout::Col(remove_children(cs, target)), false),
    }
}

#[verifier::loop_isolation(false)]
fn remove_children(cs: Vec<Layout>, target: WindowId) -> (r: Vec<Layout>)
    ensures
        models(r@) == remove_from(models(cs@), target.0, 0),
    decreases cs, 1int,
{
    let ghost orig = cs@;
    let ghost m = models(cs@);
    proof {
        lemma_models(cs@);
    }
    let n = cs.len();
    let mut rest = cs;
    let mut out: Vec<Layout> = Vec::new();
    let mut i: usize = 0;
    proof {
        lemma_models_ext(out@, Seq::empty());
    }
    while i < n
        invariant
            n == orig.len(),
            i <= n,
            rest@ == orig.subrange(i as int, n as int),
            m == models(orig),
            m.len() == n,
            forall|j: int| 0 <= j < n ==> #[trigger] m[j] == layout_model(orig[j]),
            models(out@) + remove_from(m, target.0, i as int) == remove_from(m, target.0, 0),
        decreases n - i,
    {
        let c = rest.remove(0);
        assert(c == orig[i as int]);
        proof {
            lemma_models(out@);
        }
        let ghost before = models(out@);
        let (c2, gone) = remove_layout(c, target);
        if !gone {
            out.push(c2);
            proof {
                lemma_models(out@);
                lemma_models_ext(out@, before.push(layout_model(c2)));
                assert(before.push(layout_model(c2)) + remove_from(m, target.0, i + 1)
                    =~= before + remove_from(m, target.0, i as int));
            }
        }
        assert(rest@ =~= orig.subrange(i + 1, n as int));
        i = i + 1;
    }
    assert(models(out@) =~= models(out@) + remove_from(m, target.0, i as int));
    out
}

fn collapse_layout(l: Layout) -> (r: Layout)
    ensures
        layout_model(r) == collapse_model(layout_model(l)),
    decreases l, 0int,
{
    match l {
        Layout::Leaf(id) => {
            assert(collapse_model(LayoutModel::Leaf(id.0)) == LayoutModel::Leaf(id.0));
            Layout::Leaf(id)
        },
        Layout::Row(cs) => {
            let ghost m = models(cs@);
            let mut cs2 = collapse_children(cs);
            proof {
                lemma_models(cs2@);
            }
            if cs2.len() == 1 {
                let ghost m2 = models(cs2@);
                let only = cs2.remove(0);
                assert(layout_model(only) == m2[0]);
                assert(collapse_model(LayoutModel::Row(m)) == m2[0]);
                only
            } else {
                assert(collapse_model(LayoutModel::Row(m)) == LayoutModel::Row(models(cs2@)));
                Layout::Row(cs2)
            }
        },
        Layout::Col(cs) => {
            let ghost m = models(cs@);
            let mut cs2 = collapse_children(cs);
            proof {
                lemma_models(cs2@);
            }
            if cs2.len() == 1 {
                let ghost m2 = models(cs2@);
                let only = cs2.remove(0);
                assert(layout_model(only) == m2[0]);
                assert(collapse_model(LayoutModel::Col(m)) == m2[0]);
                only
            } else {
                assert(collapse_model(LayoutModel::Col(m)) == LayoutModel::Col(models(cs2@)));
                Layout::Col(cs2)
            }
        },
    }
}

#[verifier::loop_isolation(false)]
fn collapse_children(cs: Vec<Layout>) -> (r: Vec<Layout>)
    ensures
        models(r@) == collapse_from(models(cs@), 0),
    decreases cs, 1int,
{
    let ghost orig = cs@;
    let ghost m = models(cs@);
    proof {
        lemma_models(cs@);
    }
    let n = cs.len();
    let mut rest = cs;
    let mut out: Vec<Layout> = Vec::new();
    let mut i: usize = 0;
    proof {
        lemma_models_ext(out@, Seq::empty());
    }
    while i < n
        invariant
            n == orig.len(),
            i <= n,
            rest@ == orig.subrange(i as int, n as int),
            m == models(orig),
            m.len() == n,
            forall|j: int| 0 <= j < n ==> #[trigger] m[j] == layout_model(orig[j]),
            models(out@) + collapse_from(m, i as int) == collapse_from(m, 0),
        decreases n - i,
    {
        let c = rest.remove(0);
        assert(c == orig[i as int]);
        proof {
            lemma_models(out@);
        }
        let ghost before = models(out@);
        let c2 = collapse_layout(c);
        out.push(c2);
        proof {
            lemma_models(out@);
            lemma_models_ext(out@, before.push(layout_model(c2)));
            assert(before.push(layout_model(c2)) + collapse_from(m, i + 1)
                =~= before + collapse_from(m, i as int));
        }
        assert(rest@ =~= orig.subrange(i + 1, n as int));
        i = i + 1;
    }
    assert(models(out@) =~= models(out@) + collapse_from(m, i as int));
    out
}

// ---------------------------------------------------------------------------
// What the tree operations do to the windows
// ---------------------------------------------------------------------------

/// Keeps every window but `t`.
pub open spec fn other_than(t: u64) -> spec_fn(u64) -> bool {
    |x: u64| x != t
}

proof fn lemma_leaves_shift(a: Seq<LayoutModel>, b: Seq<LayoutModel>, j: int)
    requires
        0 <= j <= b.len(),
    ensures
        leaves_from(a + b, a.len() + j) == leaves_from(b, j),
    decreases b.len() - j,
{
    if j < b.len() {
        lemma_leaves_shift(a, b, j + 1);
        assert((a + b)[a.len() + j] == b[j]);
    }
}

proof fn lemma_leaves_add(a: Seq<LayoutModel>, b: Seq<LayoutModel>, i: int)
    requires
        0 <= i <= a.len(),
    ensures
        leaves_from(a + b, i) == leaves_from(a, i) + leaves_from(b, 0),
    decreases a.len() - i,
{
    if i == a.len() {
        lemma_leaves_shift(a, b, 0);
        assert(leaves_from(a + b, i) =~= leaves_from(a, i) + leaves_from(b, 0));
    } else {
        lemma_leaves_add(a, b, i + 1);
        assert((a + b)[i] == a[i]);
        assert(leaves_from(a + b, i) =~= leaves_from(a, i) + leaves_from(b, 0));
    }
}

proof fn lemma_leaves_single(x: LayoutModel)
    ensures
        leaves_from(seq![x], 0) == leaves(x),
{
    assert(leaves_from(seq![x], 1) == Seq::<u64>::empty());
    assert(leaves_from(seq![x], 0) =~= leaves(x));
}

/// The windows around child `k` when it is replaced.
proof fn lemma_leaves_update(cs: Seq<LayoutModel>, k: int, c: LayoutModel)
    requires
        0 <= k < cs.len(),
    ensures
        leaves_from(cs.update(k, c), 0) == leaves_from(cs.take(k), 0) + leaves(c) + leaves_from(cs.skip(k + 1), 0),
        leaves_from(cs, 0) == leaves_from(cs.take(k), 0) + leaves(cs[k]) + leaves_from(cs.skip(k + 1), 0),
{
    let a = cs.take(k);
    let b = cs.skip(k + 1);
    assert(cs.update(k, c) =~= a + (seq![c] + b));
    assert(cs =~= a + (seq![cs[k]] + b));
    lemma_leaves_add(a, seq![c] + b, 0);
    lemma_leaves_add(seq![c], b, 0);
    lemma_leaves_single(c);
    lemma_leaves_add(a, seq![cs[k]] + b, 0);
    lemma_leaves_add(seq![cs[k]], b, 0);
    lemma_leaves_single(cs[k]);
    assert(leaves_from(cs.update(k, c), 0) =~= leaves_from(a, 0) + leaves(c) + leaves_from(b, 0));
    assert(leaves_from(cs, 0) =~= leaves_from(a, 0) + leaves(cs[k]) + leaves_from(b, 0));
}

/// The windows when a child is inserted at `j`.
proof fn lemma_leaves_insert(cs: Seq<LayoutModel>, j: int, x: LayoutModel)
    requires
        0 <= j <= cs.len(),
    ensures
        leaves_from(cs.insert(j, x), 0) == leaves_from(cs.take(j), 0) + leaves(x) + leaves_from(cs.skip(j), 0),
        leaves_from(cs, 0) == leaves_from(cs.take(j), 0) + leaves_from(cs.skip(j), 0),
{
    let a = cs.take(j);
    let b = cs.skip(j);
    assert(cs.insert(j, x) =~= a + (seq![x] + b));
    assert(cs =~= a + b);
    lemma_leaves_add(a, seq![x] + b, 0);
    lemma_leaves_add(seq![x], b, 0);
    lemma_leaves_single(x);
    lemma_leaves_add(a, b, 0);
    assert(leaves_from(cs.insert(j, x), 0) =~= leaves_from(a, 0) + leaves(x) + leaves_from(b, 0));
}

proof fn lemma_holding_found(cs: Seq<LayoutModel>, t: u64, i: int)
    requires
        0 <= i,
        leaves_from(cs, i).contains(t),
    ensures
        0 <= first_holding(cs, t, i) < cs.len(),
    decreases cs.len() - i,
{
    if i >= cs.len() {
        assert(leaves_from(cs, i).len() == 0);
    } else if !has_leaf(cs[i], t) {
        let whole = leaves_from(cs, i);
        let head = leaves(cs[i]);
        let tail = leaves_from(cs, i + 1);
        assert(whole == head + tail);
        let k = choose|k: int| 0 <= k < whole.len() && whole[k] == t;
        if k < head.len() {
            assert(head[k] == t);
        } else {
            assert(tail[k - head.len()] == t);
        }
        lemma_holding_found(cs, t, i + 1);
    }
}

/// Splitting puts the new window beside the split one and keeps the others
/// in order; a window that is in the layout is always found.
proof fn lemma_split_leaves(l: LayoutModel, t: u64, new: u64, axis: Axis, after: bool) -> (p: int)
    ensures
        split_model(l, t, new, axis, after).1 ==> 0 <= p <= leaves(l).len()
            && leaves(split_model(l, t, new, axis, after).0) == leaves(l).insert(p, new),
        !split_model(l, t, new, axis, after).1 ==> leaves(split_model(l, t, new, axis, after).0) == leaves(l),
        has_leaf(l, t) ==> split_model(l, t, new, axis, after).1,
    decreases l,
{
    match l {
        LayoutModel::Leaf(id) => {
            if id == t {
                let pair = if after {
                    seq![LayoutModel::Leaf(t), LayoutModel::Leaf(new)]
                } else {
                    seq![LayoutModel::Leaf(new), LayoutModel::Leaf(t)]
                };
                assert(leaves_from(pair, 2) == Seq::<u64>::empty());
                assert(leaves_from(pair, 1) =~= leaves(pair[1]));
                assert(leaves_from(pair, 0) =~= leaves(pair[0]) + leaves(pair[1]));
                if after {
                    assert(leaves_from(pair, 0) =~= seq![t].insert(1, new));
                    1
                } else {
                    assert(leaves_from(pair, 0) =~= seq![t].insert(0, new));
                    0
                }
            } else {
                0
            }
        },
        LayoutModel::Row(cs) => lemma_split_children(cs, true, t, new, axis, after),
        LayoutModel::Col(cs) => lemma_split_children(cs, false, t, new, axis, after),
    }
}

proof fn lemma_split_children(cs: Seq<LayoutModel>, is_row: bool, t: u64, new: u64, axis: Axis, after: bool) -> (p: int)
    ensures
        ({
            let l = if is_row { LayoutModel::Row(cs) } else { LayoutModel::Col(cs) };
            let r = split_model(l, t, new, axis, after);
            &&& r.1 ==> 0 <= p <= leaves(l).len() && leaves(r.0) == leaves(l).insert(p, new)
            &&& !r.1 ==> leaves(r.0) == leaves(l)
            &&& has_leaf(l, t) ==> r.1
        }),
    decreases cs, 0int,
{
    let l = if is_row { LayoutModel::Row(cs) } else { LayoutModel::Col(cs) };
    let k = first_holding(cs, t, 0);
    lemma_first_holding(cs, t, 0);
    if has_leaf(l, t) {
        lemma_holding_found(cs, t, 0);
    }
    if k < 0 || k >= cs.len() {
        0
    } else {
        let along = if is_row { axis is Horizontal } else { axis is Vertical };
        if along && cs[k] == LayoutModel::Leaf(t) {
            let j = if after { k + 1 } else { k };
            let x = LayoutModel::Leaf(new);
            lemma_leaves_insert(cs, j, x);
            let a = leaves_from(cs.take(j), 0);
            let b = leaves_from(cs.skip(j), 0);
            assert(leaves(x) == seq![new]);
            assert(a + leaves(x) + b =~= (a + b).insert(a.len() as int, new));
            a.len() as int
        } else {
            let child_axis = if along {
                if cs[k] is Row { Axis::Horizontal } else { Axis::Vertical }
            } else {
                axis
            };
            let q = lemma_split_leaves(cs[k], t, new, child_axis, after);
            let c = split_model(cs[k], t, new, child_axis, after).0;
            lemma_leaves_update(cs, k, c);
            let a = leaves_from(cs.take(k), 0);
            let b = leaves_from(cs.skip(k + 1), 0);
            if split_model(cs[k], t, new, child_axis, after).1 {
                assert(a + leaves(c) + b =~= (a + leaves(cs[k]) + b).insert(a.len() + q, new));
            }
            a.len() + q
        }
    }
}

proof fn lemma_filter_empty(p: spec_fn(u64) -> bool)
    ensures
        Seq::<u64>::empty().filter(p) == Seq::<u64>::empty(),
{
    reveal(Seq::filter);
}

/// Removing a window leaves the others, in order.
proof fn lemma_remove_leaves(l: LayoutModel, t: u64)
    ensures
        remove_model(l, t).1 ==> leaves(l).filter(other_than(t)) == Seq::<u64>::empty(),
        !remove_model(l, t).1 ==> leaves(remove_model(l, t).0) == leaves(l).filter(other_than(t)),
    decreases l, 0int,
{
    match l {
        LayoutModel::Leaf(id) => {
            lemma_filter_empty(other_than(t));
            Seq::<u64>::empty().lemma_filter_prepend(id, other_than(t));
            assert(seq![id] =~= seq![id] + Seq::<u64>::empty());
            assert(leaves(l).filter(other_than(t)) =~= (if id != t { seq![id] } else { Seq::<u64>::empty() }));
        },
        LayoutModel::Row(cs) => {
            lemma_remove_from_leaves(cs, t, 0);
        },
        LayoutModel::Col(cs) => {
            lemma_remove_from_leaves(cs, t, 0);
        },
    }
}

proof fn lemma_remove_from_leaves(cs: Seq<LayoutModel>, t: u64, i: int)
    requires
        0 <= i,
    ensures
        leaves_from(remove_from(cs, t, i), 0) == leaves_from(cs, i).filter(other_than(t)),
    decreases cs, cs.len() - i,
{
    let p = other_than(t);
    if i >= cs.len() {
        lemma_filter_empty(p);
        assert(leaves_from(Seq::<LayoutModel>::empty(), 0) == Seq::<u64>::empty());
    } else {
        let rest = remove_from(cs, t, i + 1);
        lemma_remove_from_leaves(cs, t, i + 1);
        lemma_remove_leaves(cs[i], t);
        let (c, gone) = remove_model(cs[i], t);
        Seq::filter_distributes_over_add(leaves(cs[i]), leaves_from(cs, i + 1), p);
        if gone {
            assert(leaves_from(cs, i).filter(p) =~= leaves_from(rest, 0));
        } else {
            lemma_leaves_add(seq![c], rest, 0);
            lemma_leaves_single(c);
        }
    }
}

/// Collapsing keeps the windows and their order.
proof fn lemma_collapse_leaves(l: LayoutModel)
    ensures
        leaves(collapse_model(l)) == leaves(l),
    decreases l, 0int,
{
    match l {
        LayoutModel::Leaf(_) => {},
        LayoutModel::Row(cs) => {
            lemma_collapse_from_leaves(cs, 0);
            let cs2 = collapse_from(cs, 0);
            if cs2.len() == 1 {
                lemma_leaves_single(cs2[0]);
                assert(cs2 =~= seq![cs2[0]]);
            }
        },
        LayoutModel::Col(cs) => {
            lemma_collapse_from_leaves(cs, 0);
            let cs2 = collapse_from(cs, 0);
            if cs2.len() == 1 {
                lemma_leaves_single(cs2[0]);
                assert(cs2 =~= seq![cs2[0]]);
            }
        },
    }
}

proof fn lemma_collapse_from_leaves(cs: Seq<LayoutModel>, i: int)
    requires
        0 <= i,
    ensures
        leaves_from(collapse_from(cs, i), 0) == leaves_from(cs, i),
    decreases cs, cs.len() - i,
{
    if i < cs.len() {
        lemma_collapse_from_leaves(cs, i + 1);
        lemma_collapse_leaves(cs[i]);
        let c = collapse_model(cs[i]);
        lemma_leaves_add(seq![c], collapse_from(cs, i + 1), 0);
        lemma_leaves_single(c);
    } else {
        assert(leaves_from(Seq::<LayoutModel>::empty(), 0) == Seq::<u64>::empty());
    }
}

pub open spec fn rect_ids(s: Seq<(u64, Rect)>) -> Seq<u64> {
    s.map_values(|p: (u64, Rect)| p.0)
}

proof fn lemma_rect_ids_add(a: Seq<(u64, Rect)>, b: Seq<(u64, Rect)>)
    ensures
        rect_ids(a + b) == rect_ids(a) + rect_ids(b),
{
    assert(rect_ids(a + b) =~= rect_ids(a) + rect_ids(b));
}

/// Every window gets exactly one text rectangle, in layout order.
proof fn lemma_rects_ids(l: LayoutModel, area: Rect)
    ensures
        rect_ids(rects_model(l, area).text) == leaves(l),
    decreases l, 0int,
{
    match l {
        LayoutModel::Leaf(id) => {
            assert(rect_ids(rects_model(l, area).text) =~= seq![id]);
        },
        LayoutModel::Row(cs) => {
            if cs.len() == 0 {
                assert(rect_ids(Seq::empty()) =~= Seq::<u64>::empty());
            } else {
                let seps = cs.len() - 1;
                let available = if area.cols >= seps { area.cols - seps } else { 0 };
                lemma_row_rects_ids(cs, area, 0, area.col as int, available);
            }
        },
        LayoutModel::Col(cs) => {
            if cs.len() == 0 {
                assert(rect_ids(Seq::empty()) =~= Seq::<u64>::empty());
            } else {
                lemma_col_rects_ids(cs, area, 0, area.row as int);
            }
        },
    }
}

proof fn lemma_row_rects_ids(cs: Seq<LayoutModel>, area: Rect, i: int, col: int, available: int)
    requires
        0 <= i,
    ensures
        rect_ids(row_rects(cs, area, i, col, available).text) == leaves_from(cs, i),
    decreases cs, cs.len() - i,
{
    if i >= cs.len() {
        assert(rect_ids(Seq::empty()) =~= Seq::<u64>::empty());
    } else {
        let width = split_size(available, cs.len() as int, i);
        let child_area = Rect { row: area.row, col: sat(col), rows: area.rows, cols: sat(width) };
        let after = sat(sat(col) + sat(width));
        let next = if i + 1 < cs.len() { sat(after + 1) as int } else { after as int };
        lemma_rects_ids(cs[i], child_area);
        lemma_row_rects_ids(cs, area, i + 1, next, available);
        lemma_rect_ids_add(rects_model(cs[i], child_area).text, row_rects(cs, area, i + 1, next, available).text);
    }
}

proof fn lemma_col_rects_ids(cs: Seq<LayoutModel>, area: Rect, i: int, row: int)
    requires
        0 <= i,
    ensures
        rect_ids(col_rects(cs, area, i, row).text) == leaves_from(cs, i),
    decreases cs, cs.len() - i,
{
    if i >= cs.len() {
        assert(rect_ids(Seq::empty()) =~= Seq::<u64>::empty());
    } else {
        let height = split_size(area.rows as int, cs.len() as int, i);
        let child_area = Rect { row: sat(row), col: area.col, rows: sat(height), cols: area.cols };
        let next = sat(sat(row) + sat(height)) as int;
        lemma_rects_ids(cs[i], child_area);
        lemma_col_rects_ids(cs, area, i + 1, next);
        lemma_rect_ids_add(rects_model(cs[i], child_area).text, col_rects(cs, area, i + 1, next).text);
    }
}

proof fn lemma_filter_no_dup(s: Seq<u64>, p: spec_fn(u64) -> bool)
    requires
        s.no_duplicates(),
    ensures
        s.filter(p).no_duplicates(),
    decreases s.len(),
{
    reveal(Seq::filter);
    if s.len() > 0 {
        let rest = s.drop_last();
        assert(rest.no_duplicates());
        lemma_filter_no_dup(rest, p);
        let sub = rest.filter(p);
        if p(s.last()) {
            if sub.contains(s.last()) {
                rest.lemma_filter_contains_rev(p, s.last());
                let k = choose|k: int| 0 <= k < rest.len() && rest[k] == s.last();
                assert(s[k] == s[s.len() - 1]);
            }
            assert(sub.push(s.last()).no_duplicates()) by {
                assert forall|a: int, b: int| 0 <= a < sub.len() + 1 && 0 <= b < sub.len() + 1 && a != b
                    implies sub.push(s.last())[a] != sub.push(s.last())[b] by {
                    if a < sub.len() && b < sub.len() {
                    } else if a == sub.len() {
                        assert(sub.contains(sub[b]));
                    } else {
                        assert(sub.contains(sub[a]));
                    }
                }
            }
        }
    }
}

proof fn lemma_insert_no_dup(s: Seq<u64>, p: int, x: u64)
    requires
        s.no_duplicates(),
        !s.contains(x),
        0 <= p <= s.len(),
    ensures
        s.insert(p, x).no_duplicates(),
        s.insert(p, x).contains(x),
        forall|y: u64| s.contains(y) ==> s.insert(p, x).contains(y),
        forall|y: u64| #[trigger] s.insert(p, x).contains(y) ==> y == x || s.contains(y),
{
    let r = s.insert(p, x);
    assert(r[p] == x);
    assert forall|a: int, b: int| 0 <= a < r.len() && 0 <= b < r.len() && a != b implies r[a] != r[b] by {
        if a == p {
            if b < p { assert(s.contains(s[b])); } else { assert(s.contains(s[b - 1])); }
        } else if b == p {
            if a < p { assert(s.contains(s[a])); } else { assert(s.contains(s[a - 1])); }
        } else {
            let sa = if a < p { a } else { a - 1 };
            let sb = if b < p { b } else { b - 1 };
            assert(r[a] == s[sa]);
            assert(r[b] == s[sb]);
        }
    }
    assert forall|y: u64| s.contains(y) implies r.contains(y) by {
        let k = choose|k: int| 0 <= k < s.len() && s[k] == y;
        if k < p { assert(r[k] == y); } else { assert(r[k + 1] == y); }
    }
    assert forall|y: u64| #[trigger] r.contains(y) implies y == x || s.contains(y) by {
        let k = choose|k: int| 0 <= k < r.len() && r[k] == y;
        if k < p { assert(s[k] == y); } else if k > p { assert(s[k - 1] == y); }
    }
}

// ---------------------------------------------------------------------------
// Tabs
// ---------------------------------------------------------------------------

struct Tab {
    layout: Layout,
    focus: WindowId,
}

/// The tab pages, each with its own layout and focused window, and the
/// counters that number new windows and their grids.
pub struct Tabs {
    tabs: Vec<Tab>,
    current: usize,
    next_window: u64,
    next_grid: u64,
    last_area: Rect,
    last_splitbelow: bool,
    last_splitright: bool,
}

pub struct TabsModel {
    /// Each tab's layout and focused window.
    pub tabs: Seq<(LayoutModel, u64)>,
    pub current: int,
    pub next_window: u64,
    pub next_grid: u64,
    pub last_area: Rect,
    pub last_splitbelow: bool,
    pub last_splitright: bool,
}

/// A tab whose focus is one of its windows, whose windows are distinct, and
/// whose window numbers are all below `next`.
pub open spec fn tab_ok(tab: (LayoutModel, u64), next: u64) -> bool {
    &&& leaves(tab.0).contains(tab.1)
    &&& leaves(tab.0).no_duplicates()
    &&& forall|i: int| 0 <= i < leaves(tab.0).len() ==> #[trigger] leaves(tab.0)[i] < next
}

impl TabsModel {
    pub open spec fn wf(self) -> bool {
        &&& self.tabs.len() > 0
        &&& 0 <= self.current < self.tabs.len()
        &&& self.next_grid >= 3
        &&& forall|t: int| 0 <= t < self.tabs.len() ==> tab_ok(#[trigger] self.tabs[t], self.next_window)
    }

    pub open spec fn layout(self) -> LayoutModel {
        self.tabs[self.current].0
    }

    pub open spec fn focus(self) -> u64 {
        self.tabs[self.current].1
    }

    /// The current tab given a new layout and focus.
    pub open spec fn with_current(self, layout: LayoutModel, focus: u64) -> TabsModel {
        TabsModel { tabs: self.tabs.update(self.current, (layout, focus)), ..self }
    }

    pub open spec fn with_focus(self, focus: u64) -> TabsModel {
        self.with_current(self.layout(), focus)
    }

    pub open spec fn with_geometry(self, area: Rect, splitbelow: bool, splitright: bool) -> TabsModel {
        TabsModel { last_area: area, last_splitbelow: splitbelow, last_splitright: splitright, ..self }
    }

    /// After splitting the focused window along `axis` with a new window.
    pub open spec fn after_split(self, axis: Axis, after: bool) -> TabsModel {
        let id = self.next_window;
        TabsModel {
            next_window: (self.next_window + 1) as u64,
            next_grid: (self.next_grid + 1) as u64,
            ..self.with_current(split_model(self.layout(), self.focus(), id, axis, after).0, id)
        }
    }
}

/// The first position of `x` in `s` from `i` on, or -1.
pub open spec fn position_from(s: Seq<u64>, x: u64, i: int) -> int
    decreases s.len() - i,
{
    if i < 0 || i >= s.len() {
        -1
    } else if s[i] == x {
        i
    } else {
        position_from(s, x, i + 1)
    }
}

/// What moving the focus towards `dir` does, with `area` as the screen: the
/// nearest window in that direction, by gap, then by how far its centre is
/// off, then by the lower number, takes the focus; the geometry is remembered
/// either way.
pub open spec fn focus_moved(old: TabsModel, dir: Direction, area: Rect, splitbelow: bool, splitright: bool, r: Option<WindowId>, new: TabsModel) -> bool {
    let g = old.with_geometry(area, splitbelow, splitright);
    let text = rects_model(old.layout(), area).text;
    match rect_of(text, old.focus()) {
        None => r is None && new == g,
        Some(cur) => match r {
            None => new == g && forall|j: int| 0 <= j < text.len() ==> !is_candidate(#[trigger] text[j], old.focus(), cur, dir),
            Some(id) => new == g.with_focus(id.0) && exists|i: int| 0 <= i < text.len() && text[i].0 == id.0
                && is_candidate(text[i], old.focus(), cur, dir)
                && forall|j: int| 0 <= j < text.len() && is_candidate(#[trigger] text[j], old.focus(), cur, dir)
                    ==> nearer(text[i], text[j], cur, dir),
        },
    }
}

impl View for Tabs {
    type V = TabsModel;

    closed spec fn view(&self) -> TabsModel {
        TabsModel {
            tabs: self.tabs@.map_values(|t: Tab| (layout_model(t.layout), t.focus.0)),
            current: self.current as int,
            next_window: self.next_window,
            next_grid: self.next_grid,
            last_area: self.last_area,
            last_splitbelow: self.last_splitbelow,
            last_splitright: self.last_splitright,
        }
    }
}

proof fn lemma_tab_ok_grows(tabs: Seq<(LayoutModel, u64)>, next: u64, more: u64)
    requires
        next <= more,
        forall|t: int| 0 <= t < tabs.len() ==> tab_ok(#[trigger] tabs[t], next),
    ensures
        forall|t: int| 0 <= t < tabs.len() ==> tab_ok(#[trigger] tabs[t], more),
{
    assert forall|t: int| 0 <= t < tabs.len() implies tab_ok(#[trigger] tabs[t], more) by {
        assert(tab_ok(tabs[t], next));
    }
}

fn distance_exec(current: Rect, candidate: Rect, dir: Direction) -> (r: (usize, u128))
    ensures
        r.0 == distance(current, candidate, dir).0,
        r.1 == distance(current, candidate, dir).1,
{
    let cur_right = current.col as u128 + current.cols as u128;
    let cur_bottom = current.row as u128 + current.rows as u128;
    let cand_right = candidate.col as u128 + candidate.cols as u128;
    let cand_bottom = candidate.row as u128 + candidate.rows as u128;
    let primary: u128 = match dir {
        Direction::Left => if current.col as u128 >= cand_right { current.col as u128 - cand_right } else { 0 },
        Direction::Right => if candidate.col as u128 >= cur_right { candidate.col as u128 - cur_right } else { 0 },
        Direction::Up => if current.row as u128 >= cand_bottom { current.row as u128 - cand_bottom } else { 0 },
        Direction::Down => if candidate.row as u128 >= cur_bottom { candidate.row as u128 - cur_bottom } else { 0 },
    };
    let (a, b) = match dir {
        Direction::Left | Direction::Right => (
            2 * (current.row as u128) + current.rows as u128,
            2 * (candidate.row as u128) + candidate.rows as u128,
        ),
        Direction::Up | Direction::Down => (
            2 * (current.col as u128) + current.cols as u128,
            2 * (candidate.col as u128) + candidate.cols as u128,
        ),
    };
    let secondary = if a >= b { a - b } else { b - a };
    (primary as usize, secondary)
}

fn in_direction_exec(current: Rect, candidate: Rect, dir: Direction) -> (r: bool)
    ensures
        r == in_direction(current, candidate, dir),
{
    match dir {
        Direction::Left => candidate.col as u128 + candidate.cols as u128 <= current.col as u128,
        Direction::Right => candidate.col as u128 >= current.col as u128 + current.cols as u128,
        Direction::Up => candidate.row as u128 + candidate.rows as u128 <= current.row as u128,
        Direction::Down => candidate.row as u128 >= current.row as u128 + current.rows as u128,
    }
}

proof fn lemma_view_with_current(a: Tabs, b: Tabs, t: Tab)
    requires
        a.current < a.tabs@.len(),
        b.tabs@ == a.tabs@.update(a.current as int, t),
        b.current == a.current,
        b.next_window == a.next_window,
        b.next_grid == a.next_grid,
        b.last_area == a.last_area,
        b.last_splitbelow == a.last_splitbelow,
        b.last_splitright == a.last_splitright,
    ensures
        b@ == a@.with_current(layout_model(t.layout), t.focus.0),
{
    assert(b@.tabs =~= a@.tabs.update(a.current as int, (layout_model(t.layout), t.focus.0)));
}

impl Tabs {
    /// Takes the current tab out; `put_current` puts one back in its place.
    fn take_current(&mut self) -> (t: Tab)
        requires
            old(self).current < old(self).tabs@.len(),
        ensures
            t == old(self).tabs@[old(self).current as int],
            final(self).tabs@ == old(self).tabs@.remove(old(self).current as int),
            final(self).current == old(self).current,
            final(self).next_window == old(self).next_window,
            final(self).next_grid == old(self).next_grid,
            final(self).last_area == old(self).last_area,
            final(self).last_splitbelow == old(self).last_splitbelow,
            final(self).last_splitright == old(self).last_splitright,
    {
        let cur = self.current;
        self.tabs.remove(cur)
    }

    fn put_current(&mut self, t: Tab)
        requires
            old(self).current <= old(self).tabs@.len(),
        ensures
            final(self).tabs@ == old(self).tabs@.insert(old(self).current as int, t),
            final(self).current == old(self).current,
            final(self).next_window == old(self).next_window,
            final(self).next_grid == old(self).next_grid,
            final(self).last_area == old(self).last_area,
            final(self).last_splitbelow == old(self).last_splitbelow,
            final(self).last_splitright == old(self).last_splitright,
    {
        let cur = self.current;
        self.tabs.insert(cur, t);
    }

    /// Gives the current tab a new layout and focus.
    fn replace_current(&mut self, layout: Layout, focus: WindowId)
        requires
            old(self)@.wf(),
        ensures
            final(self)@ == old(self)@.with_current(layout_model(layout), focus.0),
    {
        let ghost orig: Tabs = *self;
        let _gone = self.take_current();
        let t = Tab { layout, focus };
        self.put_current(t);
        proof {
            assert(self.tabs@ =~= orig.tabs@.update(orig.current as int, t));
            lemma_view_with_current(orig, *self, t);
        }
    }

    /// Moves the focus of the current tab.
    fn set_focus(&mut self, focus: WindowId)
        requires
            old(self)@.wf(),
        ensures
            final(self)@ == old(self)@.with_focus(focus.0),
    {
        let ghost orig: Tabs = *self;
        let t = self.take_current();
        assert(layout_model(t.layout) == orig@.layout());
        let t2 = Tab { layout: t.layout, focus };
        self.put_current(t2);
        proof {
            assert(self.tabs@ =~= orig.tabs@.update(orig.current as int, t2));
            lemma_view_with_current(orig, *self, t2);
        }
    }

    pub fn new(first: WindowId) -> (r: Tabs)
        requires
            first.0 < u64::MAX,
        ensures
            r@ == (TabsModel {
                tabs: seq![(LayoutModel::Leaf(first.0), first.0)],
                current: 0,
                next_window: (first.0 + 1) as u64,
                next_grid: 3,
                last_area: Rect { row: 0, col: 0, rows: 24, cols: 80 },
                last_splitbelow: true,
                last_splitright: true,
            }),
            r@.wf(),
    {
        let r = Tabs {
            tabs: vec![Tab { layout: Layout::Leaf(first), focus: first }],
            current: 0,
            next_window: first.0 + 1,
            next_grid: 3,
            last_area: Rect::new(0, 0, 24, 80),
            last_splitbelow: true,
            last_splitright: true,
        };
        assert(r@.tabs =~= seq![(LayoutModel::Leaf(first.0), first.0)]);
        assert(leaves(LayoutModel::Leaf(first.0)) == seq![first.0]);
        assert(leaves(LayoutModel::Leaf(first.0))[0] == first.0);
        r
    }

    /// The focused window of the current tab.
    pub fn focus(&self) -> (r: WindowId)
        requires
            self@.wf(),
        ensures
            r.0 == self@.focus(),
    {
        self.tabs[self.current].focus
    }

    pub fn current_layout(&self) -> (r: &Layout)
        requires
            self@.wf(),
        ensures
            layout_model(*r) == self@.layout(),
    {
        &self.tabs[self.current].layout
    }

    pub fn len(&self) -> (r: usize)
        ensures
            r == self@.tabs.len(),
    {
        self.tabs.len()
    }

    pub fn current_index(&self) -> (r: usize)
        ensures
            r == self@.current,
    {
        self.current
    }

    pub fn remember_geometry(&mut self, area: Rect, splitbelow: bool, splitright: bool)
        ensures
            final(self)@ == old(self)@.with_geometry(area, splitbelow, splitright),
    {
        self.last_area = area;
        self.last_splitbelow = splitbelow;
        self.last_splitright = splitright;
    }

    /// Where the current tab's windows, status lines and separators go in
    /// `area`.
    pub fn rects(&self, area: Rect, splitbelow: bool, splitright: bool) -> (r: LayoutRects)
        requires
            self@.wf(),
        ensures
            rects_of(r) == rects_model(self@.layout(), area),
    {
        let mut out = LayoutRects { text: Vec::new(), status: Vec::new(), separators: Vec::new() };
        proof {
            assert(rects_of(out).text =~= Seq::empty());
            assert(rects_of(out) == no_rects());
        }
        layout_rects(self.current_layout(), area, &mut out);
        proof {
            let x = rects_model(self@.layout(), area);
            assert(concat(no_rects(), x).text =~= x.text);
            assert(concat(no_rects(), x).status =~= x.status);
            assert(concat(no_rects(), x).separators =~= x.separators);
        }
        out
    }

    fn alloc_window(&mut self) -> (id: WindowId)
        requires
            old(self).next_window < u64::MAX,
            old(self).next_grid < u64::MAX,
        ensures
            id.0 == old(self).next_window,
            final(self).next_window == old(self).next_window + 1,
            final(self).next_grid == old(self).next_grid + 1,
            final(self).tabs == old(self).tabs,
            final(self).current == old(self).current,
            final(self).last_area == old(self).last_area,
            final(self).last_splitbelow == old(self).last_splitbelow,
            final(self).last_splitright == old(self).last_splitright,
    {
        let id = WindowId(self.next_window);
        self.next_window = self.next_window + 1;
        self.next_grid = self.next_grid + 1;
        id
    }

    fn split(&mut self, axis: Axis, after: bool) -> (id: WindowId)
        requires
            old(self)@.wf(),
            old(self)@.next_window < u64::MAX,
            old(self)@.next_grid < u64::MAX,
        ensures
            id.0 == old(self)@.next_window,
            final(self)@ == old(self)@.after_split(axis, after),
            final(self)@.wf(),
    {
        let ghost before = self@;
        let id = self.alloc_window();
        let focus = self.focus();
        let ghost mid: Tabs = *self;
        let t = self.take_current();
        let (layout, _found) = split_layout(t.layout, focus, id, axis, after);
        let t2 = Tab { layout, focus: id };
        self.put_current(t2);
        proof {
            assert(self.tabs@ =~= mid.tabs@.update(mid.current as int, t2));
            lemma_view_with_current(mid, *self, t2);
            assert(mid@.tabs == before.tabs);
            let old_tab = before.tabs[before.current];
            assert(tab_ok(old_tab, before.next_window));
            let p = lemma_split_leaves(before.layout(), focus.0, id.0, axis, after);
            let ls = leaves(before.layout());
            assert(!ls.contains(id.0)) by {
                if ls.contains(id.0) {
                    let k = choose|k: int| 0 <= k < ls.len() && ls[k] == id.0;
                    assert(ls[k] < before.next_window);
                }
            }
            lemma_insert_no_dup(ls, p, id.0);
            let nl = ls.insert(p, id.0);
            assert forall|i: int| 0 <= i < nl.len() implies #[trigger] nl[i] < self@.next_window by {
                assert(nl.contains(nl[i]));
                if nl[i] != id.0 {
                    let k = choose|k: int| 0 <= k < ls.len() && ls[k] == nl[i];
                    assert(ls[k] < before.next_window);
                }
            }
            lemma_tab_ok_grows(before.tabs, before.next_window, self@.next_window);
            assert forall|t: int| 0 <= t < self@.tabs.len() implies tab_ok(#[trigger] self@.tabs[t], self@.next_window) by {
                if t != before.current {
                    assert(self@.tabs[t] == before.tabs[t]);
                }
            }
        }
        id
    }

    /// Splits the focused window into two, one above the other; the new one
    /// takes the focus.
    pub fn split_horizontal(&mut self, splitbelow: bool) -> (id: WindowId)
        requires
            old(self)@.wf(),
            old(self)@.next_window < u64::MAX,
            old(self)@.next_grid < u64::MAX,
        ensures
            id.0 == old(self)@.next_window,
            final(self)@ == old(self)@.after_split(Axis::Vertical, splitbelow),
            final(self)@.wf(),
    {
        self.split(Axis::Vertical, splitbelow)
    }

    /// Splits the focused window into two, side by side; the new one takes
    /// the focus.
    pub fn split_vertical(&mut self, splitright: bool) -> (id: WindowId)
        requires
            old(self)@.wf(),
            old(self)@.next_window < u64::MAX,
            old(self)@.next_grid < u64::MAX,
        ensures
            id.0 == old(self)@.next_window,
            final(self)@ == old(self)@.after_split(Axis::Horizontal, splitright),
            final(self)@.wf(),
    {
        self.split(Axis::Horizontal, splitright)
    }

    pub fn split_vertical_before(&mut self) -> (id: WindowId)
        requires
            old(self)@.wf(),
            old(self)@.next_window < u64::MAX,
            old(self)@.next_grid < u64::MAX,
        ensures
            id.0 == old(self)@.next_window,
            final(self)@ == old(self)@.after_split(Axis::Horizontal, false),
            final(self)@.wf(),
    {
        self.split(Axis::Horizontal, false)
    }

    /// Focuses window `id` when it is in the current tab.
    pub fn focus_window(&mut self, id: WindowId) -> (r: bool)
        requires
            old(self)@.wf(),
        ensures
            r == leaves(old(self)@.layout()).contains(id.0),
            r ==> final(self)@ == old(self)@.with_focus(id.0),
            !r ==> final(self)@ == old(self)@,
            final(self)@.wf(),
    {
        if self.current_layout().holds(id) {
            let ghost before = self@;
            self.set_focus(id);
            proof {
                assert forall|t: int| 0 <= t < self@.tabs.len() implies tab_ok(#[trigger] self@.tabs[t], self@.next_window) by {
                    assert(tab_ok(before.tabs[t], before.next_window));
                }
            }
            true
        } else {
            false
        }
    }

    /// Whether another window (and its grid) can still be numbered.
    pub fn has_room(&self) -> (r: bool)
        ensures
            r == (self@.next_window < u64::MAX && self@.next_grid < u64::MAX),
    {
        self.next_window < u64::MAX && self.next_grid < u64::MAX
    }

    pub fn grid_for_new_window(&self) -> (r: u64)
        requires
            self@.wf(),
        ensures
            r == self@.next_grid - 1,
    {
        self.next_grid - 1
    }
}

/// A sequence of distinct windows with more than one window keeps one when
/// `t` is removed.
proof fn lemma_other_remains(s: Seq<u64>, t: u64)
    requires
        s.no_duplicates(),
        s.len() > 1,
    ensures
        s.filter(other_than(t)).len() > 0,
{
    let k: int = if s[0] != t { 0 } else { 1 };
    assert(s[0] != s[1]);
    s.lemma_filter_contains(other_than(t), k);
}

impl Tabs {
    /// Closes the focused window unless it is the only one; the first
    /// remaining window takes the focus.
    pub fn close(&mut self) -> (r: Option<WindowId>)
        requires
            old(self)@.wf(),
        ensures
            leaves(old(self)@.layout()).len() <= 1 ==> r is None && final(self)@ == old(self)@ && *final(self) == *old(self),
            leaves(old(self)@.layout()).len() > 1 ==> ({
                let l = collapse_model(remove_model(old(self)@.layout(), old(self)@.focus()).0);
                &&& leaves(l).len() > 0
                &&& r == Some(WindowId(leaves(l)[0]))
                &&& final(self)@ == old(self)@.with_current(l, leaves(l)[0])
            }),
            final(self)@.wf(),
    {
        let focus = self.focus();
        let all = self.current_layout().leaves();
        if all.len() <= 1 {
            return None;
        }
        let ghost before = self@;
        let ghost mid: Tabs = *self;
        let t = self.take_current();
        let (removed, _gone) = remove_layout(t.layout, focus);
        let layout = collapse_layout(removed);
        let rest = layout.leaves();
        proof {
            let ls = leaves(before.layout());
            assert(tab_ok(before.tabs[before.current], before.next_window));
            lemma_remove_leaves(before.layout(), focus.0);
            if remove_model(before.layout(), focus.0).1 {
                assert(before.layout() is Leaf);
                assert(ls.len() == 1);
            }
            lemma_collapse_leaves(remove_model(before.layout(), focus.0).0);
            lemma_other_remains(ls, focus.0);
        }
        let next_focus = rest[0];
        let t2 = Tab { layout, focus: next_focus };
        self.put_current(t2);
        proof {
            assert(self.tabs@ =~= mid.tabs@.update(mid.current as int, t2));
            lemma_view_with_current(mid, *self, t2);
            let ls = leaves(before.layout());
            let nl = ls.filter(other_than(focus.0));
            assert(nl == leaves(layout_model(layout)));
            assert(ids(rest@)[0] == rest@[0].0);
            lemma_filter_no_dup(ls, other_than(focus.0));
            assert(nl.contains(nl[0]));
            assert forall|i: int| 0 <= i < nl.len() implies #[trigger] nl[i] < self@.next_window by {
                assert(nl.contains(nl[i]));
                ls.lemma_filter_contains_rev(other_than(focus.0), nl[i]);
                let k = choose|k: int| 0 <= k < ls.len() && ls[k] == nl[i];
                assert(ls[k] < before.next_window);
            }
            assert forall|t: int| 0 <= t < self@.tabs.len() implies tab_ok(#[trigger] self@.tabs[t], self@.next_window) by {
                if t != before.current {
                    assert(tab_ok(before.tabs[t], before.next_window));
                }
            }
        }
        Some(next_focus)
    }

    /// Keeps only the focused window in the current tab.
    pub fn only(&mut self)
        requires
            old(self)@.wf(),
        ensures
            final(self)@ == old(self)@.with_current(LayoutModel::Leaf(old(self)@.focus()), old(self)@.focus()),
            final(self)@.wf(),
    {
        let focus = self.focus();
        let ghost before = self@;
        self.replace_current(Layout::Leaf(focus), focus);
        proof {
            assert(tab_ok(before.tabs[before.current], before.next_window));
            let ls = leaves(before.layout());
            let k = choose|k: int| 0 <= k < ls.len() && ls[k] == focus.0;
            assert(ls[k] < before.next_window);
            assert(leaves(LayoutModel::Leaf(focus.0)) == seq![focus.0]);
            assert(leaves(LayoutModel::Leaf(focus.0))[0] == focus.0);
            assert forall|t: int| 0 <= t < self@.tabs.len() implies tab_ok(#[trigger] self@.tabs[t], self@.next_window) by {
                if t != before.current {
                    assert(tab_ok(before.tabs[t], before.next_window));
                }
            }
        }
    }

    /// Moves the focus to the nearest window towards `dir`, with the screen
    /// last remembered.
    pub fn focus_dir(&mut self, dir: Direction) -> (r: Option<WindowId>)
        requires
            old(self)@.wf(),
        ensures
            focus_moved(old(self)@, dir, old(self)@.last_area, old(self)@.last_splitbelow, old(self)@.last_splitright, r, final(self)@),
            final(self)@.wf(),
    {
        let area = self.last_area;
        let below = self.last_splitbelow;
        let right = self.last_splitright;
        self.focus_dir_in(dir, area, below, right)
    }

    /// Moves the focus to the nearest window towards `dir` when the current
    /// tab fills `area`, and remembers that geometry.
    pub fn focus_dir_in(&mut self, dir: Direction, area: Rect, splitbelow: bool, splitright: bool) -> (r: Option<WindowId>)
        requires
            old(self)@.wf(),
        ensures
            focus_moved(old(self)@, dir, area, splitbelow, splitright, r, final(self)@),
            final(self)@.wf(),
    {
        let ghost before = self@;
        self.remember_geometry(area, splitbelow, splitright);
        let rects = self.rects(area, splitbelow, splitright);
        let focus = self.focus();
        let ghost text = rects_of(rects).text;
        let current = match rects.text_of(focus) {
            Some(rect) => rect,
            None => {
                return None;
            },
        };
        let mut best: Option<usize> = None;
        let mut best_key: (usize, u128, u64) = (0, 0, 0);
        let mut j: usize = 0;
        while j < rects.text.len()
            invariant
                j <= rects.text@.len(),
                text == rects_of(rects).text,
                text.len() == rects.text@.len(),
                match best {
                    None => forall|k: int| 0 <= k < j ==> !is_candidate(#[trigger] text[k], focus.0, current, dir),
                    Some(b) => {
                        &&& b < j
                        &&& is_candidate(text[b as int], focus.0, current, dir)
                        &&& best_key.0 == distance(current, text[b as int].1, dir).0
                        &&& best_key.1 == distance(current, text[b as int].1, dir).1
                        &&& best_key.2 == text[b as int].0
                        &&& forall|k: int| 0 <= k < j && is_candidate(#[trigger] text[k], focus.0, current, dir)
                            ==> nearer(text[b as int], text[k], current, dir)
                    },
                },
            decreases rects.text.len() - j,
        {
            let (w, rect) = rects.text[j];
            assert(text[j as int] == (w.0, rect));
            if w != focus && in_direction_exec(current, rect, dir) {
                let d = distance_exec(current, rect, dir);
                let better = match best {
                    None => true,
                    Some(_) => d.0 < best_key.0 || (d.0 == best_key.0 && (d.1 < best_key.1
                        || (d.1 == best_key.1 && w.0 < best_key.2))),
                };
                if better {
                    best = Some(j);
                    best_key = (d.0, d.1, w.0);
                }
            }
            j = j + 1;
        }
        match best {
            None => None,
            Some(b) => {
                let id = rects.text[b].0;
                let ghost mid = self@;
                proof {
                    lemma_rects_ids(before.layout(), area);
                    assert(rect_ids(text)[b as int] == text[b as int].0);
                    assert(leaves(before.layout()).contains(id.0));
                }
                self.set_focus(id);
                proof {
                    assert forall|t: int| 0 <= t < self@.tabs.len() implies tab_ok(#[trigger] self@.tabs[t], self@.next_window) by {
                        assert(tab_ok(before.tabs[t], before.next_window));
                    }
                }
                Some(id)
            },
        }
    }

    /// Moves the focus to the next window of the current tab, round to the
    /// first.
    pub fn cycle_focus(&mut self) -> (r: WindowId)
        requires
            old(self)@.wf(),
        ensures
            ({
                let ls = leaves(old(self)@.layout());
                let at = position_from(ls, old(self)@.focus(), 0);
                let at = if at < 0 { 0 } else { at };
                &&& r.0 == ls[(at + 1) % ls.len() as int]
                &&& final(self)@ == old(self)@.with_focus(r.0)
            }),
            final(self)@.wf(),
    {
        let ghost before = self@;
        let focus = self.focus();
        let all = self.current_layout().leaves();
        let ghost ls = leaves(before.layout());
        proof {
            assert(tab_ok(before.tabs[before.current], before.next_window));
            assert(ls.len() > 0);
        }
        let found = position_of(&all, focus);
        let at: usize = match found {
            Some(k) => k,
            None => 0,
        };
        let next = all[(at + 1) % all.len()];
        proof {
            assert(ids(all@)[(at + 1) % all.len() as int] == next.0);
            assert(ls.contains(next.0));
        }
        self.set_focus(next);
        proof {
            assert forall|t: int| 0 <= t < self@.tabs.len() implies tab_ok(#[trigger] self@.tabs[t], self@.next_window) by {
                assert(tab_ok(before.tabs[t], before.next_window));
            }
        }
        next
    }

    pub fn next_tab(&mut self) -> (r: WindowId)
        requires
            old(self)@.wf(),
        ensures
            final(self)@ == (TabsModel { current: (old(self)@.current + 1) % old(self)@.tabs.len() as int, ..old(self)@ }),
            r.0 == final(self)@.focus(),
            final(self)@.wf(),
    {
        proof {
            assert(self.current < self.tabs@.len());
        }
        let n = self.tabs.len();
        self.current = (self.current + 1) % n;
        self.focus()
    }

    pub fn prev_tab(&mut self) -> (r: WindowId)
        requires
            old(self)@.wf(),
        ensures
            final(self)@ == (TabsModel {
                current: (old(self)@.current + old(self)@.tabs.len() - 1) % old(self)@.tabs.len() as int,
                ..old(self)@
            }),
            r.0 == final(self)@.focus(),
            final(self)@.wf(),
    {
        proof {
            assert(self.current < self.tabs@.len());
        }
        let n = self.tabs.len();
        let c = self.current;
        self.current = if c == 0 { n - 1 } else { c - 1 };
        proof {
            let x: int = c + n - 1;
            if c == 0 {
                vstd::arithmetic::div_mod::lemma_small_mod((n - 1) as nat, n as nat);
            } else {
                vstd::arithmetic::div_mod::lemma_mod_add_multiples_vanish(c - 1, n as int);
                vstd::arithmetic::div_mod::lemma_small_mod((c - 1) as nat, n as nat);
                assert(n + (c - 1) == x);
                assert(x % (n as int) == c - 1);
            }
        }
        self.focus()
    }

    /// Opens a new tab with one new window and makes it current.
    pub fn new_tab(&mut self) -> (id: WindowId)
        requires
            old(self)@.wf(),
            old(self)@.next_window < u64::MAX,
            old(self)@.next_grid < u64::MAX,
        ensures
            id.0 == old(self)@.next_window,
            final(self)@ == (TabsModel {
                tabs: old(self)@.tabs.push((LayoutModel::Leaf(id.0), id.0)),
                current: old(self)@.tabs.len() as int,
                next_window: (old(self)@.next_window + 1) as u64,
                next_grid: (old(self)@.next_grid + 1) as u64,
                ..old(self)@
            }),
            final(self)@.wf(),
    {
        let ghost before = self@;
        let id = self.alloc_window();
        let t = Tab { layout: Layout::Leaf(id), focus: id };
        self.tabs.push(t);
        self.current = self.tabs.len() - 1;
        proof {
            assert(self@.tabs =~= before.tabs.push((LayoutModel::Leaf(id.0), id.0)));
            assert(leaves(LayoutModel::Leaf(id.0)) == seq![id.0]);
            assert(leaves(LayoutModel::Leaf(id.0))[0] == id.0);
            lemma_tab_ok_grows(before.tabs, before.next_window, self@.next_window);
            assert forall|t: int| 0 <= t < self@.tabs.len() implies tab_ok(#[trigger] self@.tabs[t], self@.next_window) by {
                if t < before.tabs.len() {
                    assert(self@.tabs[t] == before.tabs[t]);
                }
            }
        }
        id
    }

    /// Closes the current tab unless it is the last; gives the windows it had.
    pub fn close_tab(&mut self) -> (r: Option<Vec<WindowId>>)
        requires
            old(self)@.wf(),
        ensures
            old(self)@.tabs.len() <= 1 ==> r is None && final(self)@ == old(self)@,
            old(self)@.tabs.len() > 1 ==> ({
                let tabs = old(self)@.tabs.remove(old(self)@.current);
                &&& r matches Some(v) && ids(v@) == leaves(old(self)@.layout())
                &&& final(self)@ == (TabsModel {
                    tabs,
                    current: if old(self)@.current >= tabs.len() { tabs.len() - 1 } else { old(self)@.current },
                    ..old(self)@
                })
            }),
            final(self)@.wf(),
    {
        if self.tabs.len() <= 1 {
            return None;
        }
        let ghost before = self@;
        let t = self.tabs.remove(self.current);
        let removed = t.layout.leaves();
        if self.current >= self.tabs.len() {
            self.current = self.tabs.len() - 1;
        }
        proof {
            assert(self@.tabs =~= before.tabs.remove(before.current));
            assert forall|k: int| 0 <= k < self@.tabs.len() implies tab_ok(#[trigger] self@.tabs[k], self@.next_window) by {
                if k < before.current {
                    assert(self@.tabs[k] == before.tabs[k]);
                } else {
                    assert(self@.tabs[k] == before.tabs[k + 1]);
                }
            }
        }
        Some(removed)
    }
}

/// Where `x` first stands in `all`.
fn position_of(all: &Vec<WindowId>, x: WindowId) -> (r: Option<usize>)
    ensures
        match r {
            Some(k) => k == position_from(ids(all@), x.0, 0) && k < all@.len(),
            None => position_from(ids(all@), x.0, 0) < 0,
        },
{
    let ghost ls = ids(all@);
    let mut i: usize = 0;
    while i < all.len()
        invariant
            ls == ids(all@),
            i <= all@.len(),
            position_from(ls, x.0, 0) == position_from(ls, x.0, i as int),
        decreases all.len() - i,
    {
        assert(ls[i as int] == all@[i as int].0);
        if all[i] == x {
            return Some(i);
        }
        i = i + 1;
    }
    None
}

} // verus!
