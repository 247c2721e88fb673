//! The editor's windows, tabs and buffers: what each window shows, and
//! moving the focus between them.

use vstd::prelude::*;
use crate::editcore::buffer::{Buffer, BufferModel, FileRead, OpenError};
use crate::editcore::buffers::{contains_id, index_of, lemma_index_of, BufferId, EntryModel, StoreModel};
use crate::editcore::editor::{
    clamp, find_view, message, same_typing, scroll, view_pos, view_pos_from, Editor, Message, Mode,
};
use crate::editcore::window::{Direction, Rect, WindowId, WindowView};

verus! {

/// Changing what one entry holds keeps which buffers are listed.
pub proof fn lemma_listed_ids_update(entries: Seq<EntryModel>, k: int, e: EntryModel)
    requires
        0 <= k < entries.len(),
        e.id == entries[k].id,
        e.listed == entries[k].listed,
    ensures
        crate::editcore::buffers::listed_ids(entries.update(k, e)) == crate::editcore::buffers::listed_ids(entries),
    decreases entries.len(),
{
    let u = entries.update(k, e);
    if k < entries.len() - 1 {
        assert(u.drop_last() =~= entries.drop_last().update(k, e));
        lemma_listed_ids_update(entries.drop_last(), k, e);
    } else {
        assert(u.drop_last() =~= entries.drop_last());
    }
}

/// The store with its current entry holding `buffer`.
pub open spec fn stored(store: StoreModel, buffer: BufferModel) -> StoreModel {
    let k = index_of(store.entries, store.current);
    StoreModel { entries: store.entries.update(k, EntryModel { buffer, ..store.entries[k] }), ..store }
}

/// The views with the focused window's one holding the editor's cursor,
/// scroll, height and buffer.
pub open spec fn saved_views(e: Editor) -> Seq<WindowView> {
    saved_views_of(e.views@, e)
}

/// `views` with the focused window's one holding `e`'s cursor, scroll,
/// height and current buffer.
pub open spec fn saved_views_of(views: Seq<WindowView>, e: Editor) -> Seq<WindowView> {
    let p = view_pos(views, e.tabs@.focus());
    if p >= 0 {
        views.update(p, WindowView {
            cursor: e.cursor,
            desired_col: e.desired_col,
            top_line: e.top_line,
            rows: e.view_rows,
            buffer: crate::editcore::buffers::BufferId(e.buffers@.current),
            ..views[p]
        })
    } else {
        views
    }
}

/// The views after the first `n` window areas of `text` were given to the
/// first view of each window, at least one cell each way.
pub open spec fn sized_views(views: Seq<WindowView>, text: Seq<(u64, Rect)>, n: int) -> Seq<WindowView>
    decreases n,
{
    if n <= 0 {
        views
    } else {
        let v = sized_views(views, text, n - 1);
        let (id, r) = text[n - 1];
        let p = view_pos(v, id);
        if p >= 0 {
            v.update(p, WindowView {
                cols: if r.cols >= 1 { r.cols } else { 1 },
                rows: if r.rows >= 1 { r.rows } else { 1 },
                ..v[p]
            })
        } else {
            v
        }
    }
}

/// The cursor line is on screen, and the focused window's view records
/// where the cursor and the scroll are.
pub open spec fn cursor_shown(e: Editor) -> bool {
    &&& e.top_line <= e.cursor.0 < e.top_line + e.view_rows
    &&& view_pos(e.views@, e.tabs@.focus()) >= 0 ==> {
        let v = e.views@[view_pos(e.views@, e.tabs@.focus())];
        v.cursor == e.cursor && v.top_line == e.top_line
    }
}

/// Changing the first view of a window, keeping its id, keeps it first.
pub proof fn lemma_view_pos_update(views: Seq<WindowView>, id: u64, v: WindowView, i: int)
    requires
        0 <= i <= view_pos(views, id),
        view_pos(views, id) < views.len(),
        view_pos_from(views, id, i) == view_pos(views, id),
        v.id == views[view_pos(views, id)].id,
    ensures
        view_pos_from(views.update(view_pos(views, id), v), id, i) == view_pos(views, id),
    decreases views.len() - i,
{
    let p = view_pos(views, id);
    let u = views.update(p, v);
    crate::editcore::editor::lemma_view_pos_from(views, id, i);
    if i < p {
        assert(views[i].id.0 != id);
        assert(u[i] == views[i]);
        lemma_view_pos_update(views, id, v, i + 1);
    } else {
        assert(u[p].id.0 == id);
    }
}

/// Scrolling to the cursor puts it on screen.
pub proof fn lemma_scrolled_shows(top: usize, cursor_line: usize, rows: usize, line_count: int)
    requires
        rows >= 1,
        cursor_line < line_count,
    ensures
        ({
            let t = crate::editcore::editor::scrolled(top, cursor_line, rows, line_count);
            t <= cursor_line < t + rows
        }),
{
}

/// The focused window's state taken up: its buffer made current and
/// edited, its cursor (kept on the text), scroll and height; without a view
/// only the cursor is kept on the text.
pub open spec fn loaded(e0: Editor, e1: Editor) -> bool {
    loaded_from(
        e0.views@,
        e0.tabs@.focus(),
        e0.buffers@,
        e0.buffer@,
        (e0.cursor, e0.desired_col, e0.top_line, e0.view_rows),
        e0.mode,
        e1,
    )
}

/// `loaded` from the parts of the state it reads: the views, the focused
/// window, the store, the edited buffer, cursor, desired column, scroll and
/// height, and the mode.
pub open spec fn loaded_from(
    views: Seq<WindowView>,
    focus: u64,
    store: StoreModel,
    buffer: BufferModel,
    at: ((usize, usize), usize, usize, usize),
    mode: Mode,
    e1: Editor,
) -> bool {
    let p = view_pos(views, focus);
    let (cursor, desired_col, top_line, view_rows) = at;
    if p >= 0 {
        let v = views[p];
        let entries = store.entries;
        &&& e1.buffers@ == store.after_set_current(v.buffer.0).0
        &&& e1.buffer@ == if contains_id(entries, v.buffer.0) {
            entries[index_of(entries, v.buffer.0)].buffer
        } else {
            buffer
        }
        &&& e1.cursor == crate::editcore::editor::clamped(e1.buffer@.lines, v.cursor, mode)
        &&& e1.desired_col == v.desired_col
        &&& e1.top_line == v.top_line
        &&& e1.view_rows == if v.rows >= 1 { v.rows } else { 1 }
    } else {
        &&& e1.buffers@ == store
        &&& e1.buffer@ == buffer
        &&& e1.cursor == crate::editcore::editor::clamped(buffer.lines, cursor, mode)
        &&& e1.desired_col == desired_col
        &&& e1.top_line == top_line
        &&& e1.view_rows == view_rows
    }
}

/// `e1` is `e0` with the focused window's state written back into its view
/// and into the store, and nothing else changed.
pub open spec fn saved(e0: Editor, e1: Editor) -> bool {
    &&& e1.views@ == saved_views(e0)
    &&& e1.buffers@ == stored(e0.buffers@, e0.buffer@)
    &&& e1 == (Editor { views: e1.views, buffers: e1.buffers, ..e0 })
}

/// The focused window's state written back, the tabs then `tabs` and the
/// views `views`, and the state of the window focused in them taken up:
/// its buffer, cursor, scroll and height. Nothing else changes.
pub open spec fn switched(
    e0: Editor,
    e1: Editor,
    tabs: crate::editcore::window::TabsModel,
    views: Seq<WindowView>,
) -> bool {
    &&& e1.tabs@ == tabs
    &&& e1.views@ == views
    &&& loaded_from(
        views,
        tabs.focus(),
        stored(e0.buffers@, e0.buffer@),
        e0.buffer@,
        (e0.cursor, e0.desired_col, e0.top_line, e0.view_rows),
        e0.mode,
        e1,
    )
    &&& e1 == (Editor {
        tabs: e1.tabs,
        views: e1.views,
        buffers: e1.buffers,
        buffer: e1.buffer,
        cursor: e1.cursor,
        desired_col: e1.desired_col,
        top_line: e1.top_line,
        view_rows: e1.view_rows,
        ..e0
    })
}

/// The view a split gives its new window: the focused window's view as
/// saved (or one made from the editor's state), under the next window id
/// and grid.
pub open spec fn split_view(e0: Editor) -> WindowView {
    let sv = saved_views(e0);
    let p = view_pos(sv, e0.tabs@.focus());
    let base = if p >= 0 {
        sv[p]
    } else {
        WindowView {
            id: WindowId(e0.tabs@.focus()),
            grid: 2,
            buffer: BufferId(stored(e0.buffers@, e0.buffer@).current),
            cursor: e0.cursor,
            desired_col: e0.desired_col,
            top_line: e0.top_line,
            cols: 80,
            rows: e0.view_rows,
        }
    };
    WindowView { id: WindowId(e0.tabs@.next_window), grid: e0.tabs@.next_grid, ..base }
}

/// `views` without window `id`'s view.
pub open spec fn without_view(views: Seq<WindowView>, id: u64) -> Seq<WindowView> {
    if view_pos(views, id) >= 0 {
        views.remove(view_pos(views, id))
    } else {
        views
    }
}

/// The views of window `id` in `views`, in order.
pub open spec fn views_of(views: Seq<WindowView>, id: u64) -> Seq<WindowView>
    decreases views.len(),
{
    if views.len() == 0 {
        Seq::empty()
    } else {
        let rest = views_of(views.drop_last(), id);
        if views.last().id.0 == id {
            rest.push(views.last())
        } else {
            rest
        }
    }
}

/// The focus moved to window `focus`, the state saved before and taken up
/// after.
pub open spec fn refocused(e0: Editor, e1: Editor, focus: u64) -> bool {
    &&& e1.views@ == saved_views(e0)
    &&& loaded_from(
        saved_views(e0),
        focus,
        stored(e0.buffers@, e0.buffer@),
        e0.buffer@,
        (e0.cursor, e0.desired_col, e0.top_line, e0.view_rows),
        e0.mode,
        e1,
    )
}

/// `:bnext` (`forward`) or `:bprevious`: with the edited buffer stored,
/// the listed buffer after (before) the current one, wrapping, becomes the
/// one edited; `r` says whether the current buffer is listed at all.
pub open spec fn cycled_to(e0: Editor, e1: Editor, r: bool, forward: bool) -> bool {
    let st = stored(e0.buffers@, e0.buffer@);
    let listed = crate::editcore::buffers::listed_ids(st.entries);
    let at = crate::editcore::buffers::pos_of(listed, st.current);
    &&& r == (at >= 0)
    &&& if at >= 0 {
        let target = if forward {
            listed[(at + 1) % (listed.len() as int)]
        } else {
            listed[(at + listed.len() - 1) % (listed.len() as int)]
        };
        &&& e1.buffers@.current == target
        &&& e1.buffer@ == st.entries[index_of(st.entries, target)].buffer
    } else {
        &&& e1.buffers@ == st
        &&& e1.buffer == e0.buffer
    }
}

/// The tabs after `<C-w>c`: the focused window is taken out of the tab's
/// layout, which collapses, and the first window left takes the focus; the
/// tab's last window stays.
pub open spec fn closed_tabs(t0: crate::editcore::window::TabsModel) -> crate::editcore::window::TabsModel {
    if crate::editcore::window::leaves(t0.layout()).len() <= 1 {
        t0
    } else {
        let l = crate::editcore::window::collapse_model(crate::editcore::window::remove_model(t0.layout(), t0.focus()).0);
        t0.with_current(l, crate::editcore::window::leaves(l)[0])
    }
}


/// Views with the same windows in the same places find each window at the
/// same place.
proof fn lemma_view_pos_same_ids(a: Seq<WindowView>, b: Seq<WindowView>, id: u64, i: int)
    requires
        a.len() == b.len(),
        forall|k: int| 0 <= k < a.len() ==> (#[trigger] a[k]).id == b[k].id,
    ensures
        view_pos_from(a, id, i) == view_pos_from(b, id, i),
    decreases a.len() - i,
{
    if 0 <= i < a.len() {
        assert(a[i].id == b[i].id);
        lemma_view_pos_same_ids(a, b, id, i + 1);
    }
}

/// Saving keeps which window each view is of.
proof fn lemma_saved_views_ids(e: Editor)
    ensures
        saved_views(e).len() == e.views@.len(),
        forall|k: int| 0 <= k < e.views@.len() ==> (#[trigger] saved_views(e)[k]).id == e.views@[k].id,
        forall|id: u64| view_pos(saved_views(e), id) == view_pos(e.views@, id),
{
    let p = view_pos(e.views@, e.tabs@.focus());
    crate::editcore::editor::lemma_view_pos_from(e.views@, e.tabs@.focus(), 0);
    assert forall|id: u64| view_pos(saved_views(e), id) == view_pos(e.views@, id) by {
        lemma_view_pos_same_ids(saved_views(e), e.views@, id, 0);
    }
}

/// Storing the buffer the store already holds as current changes nothing.
proof fn lemma_stored_same(st: StoreModel)
    requires
        st.wf(),
    ensures
        stored(st, st.entries[index_of(st.entries, st.current)].buffer) == st,
{
    lemma_index_of(st.entries, st.current);
    let k = index_of(st.entries, st.current);
    assert(st.entries.update(k, EntryModel { buffer: st.entries[k].buffer, ..st.entries[k] }) =~= st.entries);
}

/// Each window keeps its own place: the focus moved from a window with a
/// view to another window and then back, the editor shows the buffer,
/// cursor, desired column and scroll it showed before.
pub proof fn law_window_keeps_its_place(
    e0: Editor,
    e1: Editor,
    e2: Editor,
    t1: crate::editcore::window::TabsModel,
    t2: crate::editcore::window::TabsModel,
)
    requires
        e0.buffers@.wf(),
        view_pos(e0.views@, e0.tabs@.focus()) >= 0,
        t1.focus() != e0.tabs@.focus(),
        t2.focus() == e0.tabs@.focus(),
        switched(e0, e1, t1, saved_views(e0)),
        switched(e1, e2, t2, saved_views(e1)),
    ensures
        e2.buffer@ == e0.buffer@,
        e2.cursor == crate::editcore::editor::clamped(e0.buffer@.lines, e0.cursor, e0.mode),
        e2.desired_col == e0.desired_col,
        e2.top_line == e0.top_line,
{
    let f0 = e0.tabs@.focus();
    let f1 = t1.focus();
    let sv0 = saved_views(e0);
    let st0 = stored(e0.buffers@, e0.buffer@);
    lemma_saved_views_ids(e0);
    let p0 = view_pos(e0.views@, f0);
    crate::editcore::editor::lemma_view_pos_from(e0.views@, f0, 0);
    lemma_index_of(e0.buffers@.entries, e0.buffers@.current);
    let k0 = index_of(e0.buffers@.entries, e0.buffers@.current);
    // The store after the first save: the edited buffer at the current entry.
    assert(st0.entries.len() == e0.buffers@.entries.len());
    assert forall|i: int| 0 <= i < st0.entries.len() implies (#[trigger] st0.entries[i]).id == e0.buffers@.entries[i].id by {}
    assert forall|i: int, j: int| 0 <= i < j < st0.entries.len() implies #[trigger] st0.entries[i].id < #[trigger] st0.entries[j].id by {
        assert(e0.buffers@.entries[i].id < e0.buffers@.entries[j].id);
    }
    crate::editcore::buffers::lemma_index_unique(st0.entries, e0.buffers@.current, k0);
    assert(sv0[p0].buffer.0 == e0.buffers@.current);
    assert(sv0[p0].cursor == e0.cursor);
    // What the second save writes back leaves the store as the first left it.
    let st1 = e1.buffers@;
    let p1 = view_pos(sv0, f1);
    crate::editcore::editor::lemma_view_pos_from(sv0, f1, 0);
    lemma_index_of(st0.entries, st1.current);
    assert(st1.entries == st0.entries);
    if p1 >= 0 {
        let b = sv0[p1].buffer.0;
        if contains_id(st0.entries, b) {
            lemma_index_of(st0.entries, b);
            assert(st1.current == b);
            assert(e1.buffer@ == st0.entries[index_of(st0.entries, b)].buffer);
        } else {
            assert(st1 == st0);
            assert(e1.buffer@ == e0.buffer@);
            assert(st0.entries[k0].buffer == e0.buffer@);
        }
    } else {
        assert(st1 == st0);
        assert(st0.entries[k0].buffer == e0.buffer@);
    }
    assert(st1.current == st0.current || contains_id(st0.entries, st1.current));
    assert(e1.buffer@ == st1.entries[index_of(st1.entries, st1.current)].buffer);
    assert(stored(st1, e1.buffer@).entries =~= st0.entries);
    // The window is found again at the same place, its view as first saved.
    lemma_saved_views_ids(e1);
    let sv1 = saved_views(e1);
    assert(e1.views@ == sv0);
    assert(view_pos(sv1, f0) == p0);
    let q1 = view_pos(sv0, e1.tabs@.focus());
    assert(e1.tabs@.focus() == f1);
    if q1 >= 0 {
        assert(q1 != p0);
    }
    assert(sv1[p0] == sv0[p0]);
    assert(contains_id(st0.entries, e0.buffers@.current));
}

impl Editor {
    /// Writes the focused window's state back: the cursor and scroll into its
    /// view, the edited buffer into the store.
    pub fn save_focused_view(&mut self)
        requires
            old(self).wf(),
        ensures
            final(self).wf(),
            final(self).buffers@ == stored(old(self).buffers@, old(self).buffer@),
            final(self).views@.len() == old(self).views@.len(),
            final(self).views@ == saved_views(*old(self)),
            final(self).buffer == old(self).buffer,
            final(self).cursor == old(self).cursor,
            final(self).desired_col == old(self).desired_col,
            final(self).top_line == old(self).top_line,
            final(self).view_rows == old(self).view_rows,
            final(self).tabs == old(self).tabs,
            final(self).vcs == old(self).vcs,
            same_typing(*old(self), *final(self)),
            saved(*old(self), *final(self)),
    {
        let focus = self.tabs.focus();
        let id = self.buffers.current_id();
        if let Some(k) = find_view(&self.views, focus) {
            let mut view = self.views[k];
            view.cursor = self.cursor;
            view.desired_col = self.desired_col;
            view.top_line = self.top_line;
            view.rows = self.view_rows;
            view.buffer = id;
            self.views.set(k, view);
        }
        proof {
            lemma_index_of(self.buffers@.entries, self.buffers@.current);
        }
        let copy = self.buffer.clone();
        self.buffers.put(id, copy);
    }

    /// Takes the focused window's state up: its buffer becomes the one
    /// edited, and its cursor and scroll the editor's.
    pub fn load_focused_view(&mut self)
        requires
            old(self).wf(),
        ensures
            final(self).wf(),
            loaded(*old(self), *final(self)),
            final(self).tabs == old(self).tabs,
            final(self).views == old(self).views,
            final(self).vcs == old(self).vcs,
            same_typing(*old(self), *final(self)),
            *final(self) == (Editor {
                buffers: final(self).buffers,
                buffer: final(self).buffer,
                cursor: final(self).cursor,
                desired_col: final(self).desired_col,
                top_line: final(self).top_line,
                view_rows: final(self).view_rows,
                ..*old(self)
            }),
    {
        let focus = self.tabs.focus();
        if let Some(k) = find_view(&self.views, focus) {
            let view = self.views[k];
            self.buffers.set_current(view.buffer);
            if let Some(buffer) = self.buffers.get(view.buffer) {
                self.buffer = buffer.clone();
                proof {
                    lemma_index_of(old(self).buffers@.entries, view.buffer.0);
                    let st = self.buffers@;
                    assert(st.entries == old(self).buffers@.entries);
                    let i = index_of(st.entries, view.buffer.0);
                    assert(st.entries[i].buffer.wf());
                }
            }
            self.cursor = view.cursor;
            self.desired_col = view.desired_col;
            self.top_line = view.top_line;
            self.view_rows = if view.rows >= 1 { view.rows } else { 1 };
        }
        clamp(&mut self.cursor, &self.buffer, self.mode);
    }

    pub fn set_cursor(&mut self, cursor: (usize, usize))
        requires
            old(self).wf(),
        ensures
            final(self).wf(),
            final(self).cursor == crate::editcore::editor::clamped(old(self).buffer@.lines, cursor, old(self).mode),
            final(self).desired_col == cursor.1,
            final(self).buffer@ == old(self).buffer@,
    {
        self.cursor = cursor;
        self.desired_col = cursor.1;
        clamp(&mut self.cursor, &self.buffer, self.mode);
        self.save_focused_view();
    }

    /// The top line moved so that the cursor is in view.
    pub fn scroll_into_view(&mut self)
        requires
            old(self).wf(),
        ensures
            final(self).wf(),
            final(self).top_line == crate::editcore::editor::scrolled(
                old(self).top_line,
                old(self).cursor.0,
                old(self).view_rows,
                old(self).buffer@.lines.len() as int,
            ),
            final(self).buffer == old(self).buffer,
            final(self).cursor == old(self).cursor,
            final(self).views == old(self).views,
            final(self).tabs == old(self).tabs,
            final(self).buffers == old(self).buffers,
            final(self).view_rows == old(self).view_rows,
            final(self).desired_col == old(self).desired_col,
            final(self).vcs == old(self).vcs,
            same_typing(*old(self), *final(self)),
            *final(self) == (Editor { top_line: final(self).top_line, ..*old(self) }),
    {
        scroll(&mut self.top_line, self.cursor.0, self.view_rows, &self.buffer);
    }

    pub fn set_screen(&mut self, cols: usize, rows: usize)
        requires
            old(self).wf(),
        ensures
            final(self).wf(),
            final(self).view_rows == if rows >= 1 { rows } else { 1 },
            final(self).buffer@ == old(self).buffer@,
    {
        self.view_rows = if rows >= 1 { rows } else { 1 };
        let cols = if cols >= 1 { cols } else { 1 };
        if let Some(k) = find_view(&self.views, self.tabs.focus()) {
            let mut view = self.views[k];
            view.cols = cols;
            view.rows = self.view_rows;
            self.views.set(k, view);
        }
        self.tabs.remember_geometry(
            Rect::new(0, 0, self.view_rows, cols),
            self.options.splitbelow,
            self.options.splitright,
        );
        self.scroll_into_view();
        self.save_focused_view();
    }

    /// Gives every window of the current tab its share of a screen of
    /// `cols` by `rows` cells starting at row `row_offset`.
    pub fn set_layout_screen(&mut self, cols: usize, rows: usize, row_offset: usize)
        requires
            old(self).wf(),
        ensures
            final(self).wf(),
            final(self).buffer@ == old(self).buffer@,
            ({
                let area = Rect {
                    row: row_offset,
                    col: 0,
                    rows: if rows >= 1 { rows } else { 1 },
                    cols: if cols >= 1 { cols } else { 1 },
                };
                let text = crate::editcore::window::rects_model(old(self).tabs@.layout(), area).text;
                let sized = sized_views(old(self).views@, text, text.len() as int);
                let p = view_pos(sized, old(self).tabs@.focus());
                &&& final(self).tabs@ == old(self).tabs@.with_geometry(
                    area,
                    old(self).options.splitbelow,
                    old(self).options.splitright,
                )
                &&& final(self).view_rows == if p >= 0 {
                    if sized[p].rows >= 1 { sized[p].rows } else { 1 }
                } else {
                    old(self).view_rows
                }
                &&& final(self).views@ == saved_views_of(sized, *final(self))
            }),
            final(self).cursor == old(self).cursor,
            cursor_shown(*final(self)),
    {
        let area = Rect::new(
            row_offset,
            0,
            if rows >= 1 { rows } else { 1 },
            if cols >= 1 { cols } else { 1 },
        );
        self.tabs.remember_geometry(area, self.options.splitbelow, self.options.splitright);
        let rects = self.tabs.rects(area, self.options.splitbelow, self.options.splitright);
        let ghost text = crate::editcore::window::rects_of(rects).text;
        let ghost views0 = self.views@;
        let ghost tabs1 = self.tabs@;
        assert(tabs1.layout() == old(self).tabs@.layout());
        let mut i: usize = 0;
        while i < rects.text.len()
            invariant
                self.wf(),
                self.buffer@ == old(self).buffer@,
                self.cursor == old(self).cursor,
                self.tabs@ == tabs1,
                self.view_rows == old(self).view_rows,
                self.buffers == old(self).buffers,
                text == rects.text@.map_values(|q: (WindowId, Rect)| (q.0.0, q.1)),
                i <= rects.text@.len(),
                self.views@ == sized_views(views0, text, i as int),
            decreases rects.text@.len() - i,
        {
            let (id, rect) = rects.text[i];
            proof {
                assert(text[i as int] == (id.0, rect));
            }
            if let Some(k) = find_view(&self.views, id) {
                let mut view = self.views[k];
                view.cols = if rect.cols >= 1 { rect.cols } else { 1 };
                view.rows = if rect.rows >= 1 { rect.rows } else { 1 };
                self.views.set(k, view);
            }
            i = i + 1;
        }
        if let Some(k) = find_view(&self.views, self.tabs.focus()) {
            let rows = self.views[k].rows;
            self.view_rows = if rows >= 1 { rows } else { 1 };
        }
        self.scroll_into_view();
        proof {
            lemma_scrolled_shows(self.top_line, self.cursor.0, self.view_rows, self.buffer@.lines.len() as int);
        }
        let ghost before = *self;
        self.save_focused_view();
        proof {
            let p = view_pos(before.views@, before.tabs@.focus());
            if p >= 0 {
                crate::editcore::editor::lemma_view_pos_from(before.views@, before.tabs@.focus(), 0);
                lemma_view_pos_update(before.views@, before.tabs@.focus(), self.views@[p], 0);
            }
        }
    }

    pub fn set_view_rows(&mut self, rows: usize)
        requires
            old(self).wf(),
        ensures
            final(self).wf(),
            final(self).view_rows == if rows >= 1 { rows } else { 1 },
    {
        let cols = match find_view(&self.views, self.tabs.focus()) {
            Some(k) => self.views[k].cols,
            None => 80,
        };
        self.set_screen(cols, rows);
    }
}


impl Editor {
    /// The focused window's view, or one made from the editor's own state
    /// when the window has none.
    fn focused_view_or_current(&self) -> (v: WindowView)
        requires
            self.wf(),
        ensures
            v == if view_pos(self.views@, self.tabs@.focus()) >= 0 {
                self.views@[view_pos(self.views@, self.tabs@.focus())]
            } else {
                WindowView {
                    id: WindowId(self.tabs@.focus()),
                    grid: 2,
                    buffer: crate::editcore::buffers::BufferId(self.buffers@.current),
                    cursor: self.cursor,
                    desired_col: self.desired_col,
                    top_line: self.top_line,
                    cols: 80,
                    rows: self.view_rows,
                }
            },
    {
        match find_view(&self.views, self.tabs.focus()) {
            Some(k) => self.views[k],
            None => WindowView {
                id: self.tabs.focus(),
                grid: 2,
                buffer: self.buffers.current_id(),
                cursor: self.cursor,
                desired_col: self.desired_col,
                top_line: self.top_line,
                cols: 80,
                rows: self.view_rows,
            },
        }
    }

    /// Splits the focused window; the new window shows what it showed and
    /// takes the focus.
    pub fn split_window(&mut self, vertical: bool)
        requires
            old(self).wf(),
        ensures
            final(self).wf(),
            (old(self).tabs@.next_window < u64::MAX && old(self).tabs@.next_grid < u64::MAX) ==> final(self).tabs@
                == old(self).tabs@.after_split(
                if vertical {
                    crate::editcore::window::Axis::Horizontal
                } else {
                    crate::editcore::window::Axis::Vertical
                },
                if vertical {
                    old(self).options.splitright
                } else {
                    old(self).options.splitbelow
                },
            ),
            (old(self).tabs@.next_window < u64::MAX && old(self).tabs@.next_grid < u64::MAX) ==> final(self).views@.len()
                == old(self).views@.len() + 1,
            !(old(self).tabs@.next_window < u64::MAX && old(self).tabs@.next_grid < u64::MAX) ==> final(self).tabs
                == old(self).tabs,
            same_typing(*old(self), *final(self)),
            final(self).vcs == old(self).vcs,
            final(self).buffers@.next == old(self).buffers@.next,
            (old(self).tabs@.next_window < u64::MAX && old(self).tabs@.next_grid < u64::MAX) ==> switched(
                *old(self),
                *final(self),
                final(self).tabs@,
                saved_views(*old(self)).push(split_view(*old(self))),
            ),
            !(old(self).tabs@.next_window < u64::MAX && old(self).tabs@.next_grid < u64::MAX) ==> saved(*old(self), *final(self)),
    {
        self.save_focused_view();
        if !self.tabs.has_room() {
            return;
        }
        let mut view = self.focused_view_or_current();
        let id = if vertical {
            self.tabs.split_vertical(self.options.splitright)
        } else {
            self.tabs.split_horizontal(self.options.splitbelow)
        };
        view.id = id;
        view.grid = self.tabs.grid_for_new_window();
        self.views.push(view);
        self.load_focused_view();
    }

    /// Makes buffer `id` the focused window's; with `reset_view` the cursor
    /// and scroll go back to the top.
    pub fn switch_focused_to_buffer(&mut self, id: BufferId, reset_view: bool) -> (r: bool)
        requires
            old(self).wf(),
        ensures
            final(self).wf(),
            r == contains_id(old(self).buffers@.entries, id.0),
            r ==> final(self).buffers@.current == id.0,
            r ==> final(self).buffer@ == old(self).buffers@.entries[index_of(old(self).buffers@.entries, id.0)].buffer,
            !r ==> final(self).buffers@ == old(self).buffers@ && final(self).buffer == old(self).buffer,
            r && reset_view ==> final(self).cursor == (0usize, 0usize) && final(self).desired_col == 0,
            final(self).tabs == old(self).tabs,
            same_typing(*old(self), *final(self)),
    {
        if !self.buffers.set_current(id) {
            return false;
        }
        if let Some(buffer) = self.buffers.get(id) {
            self.buffer = buffer.clone();
            proof {
                lemma_index_of(self.buffers@.entries, id.0);
                assert(self.buffers@.entries == old(self).buffers@.entries);
            }
        }
        self.vcs.clear();
        if reset_view {
            self.cursor = (0, 0);
            self.desired_col = 0;
            self.top_line = 0;
        }
        if let Some(k) = find_view(&self.views, self.tabs.focus()) {
            let mut view = self.views[k];
            view.buffer = id;
            if reset_view {
                view.cursor = self.cursor;
                view.desired_col = self.desired_col;
                view.top_line = self.top_line;
            }
            self.views.set(k, view);
        }
        clamp(&mut self.cursor, &self.buffer, self.mode);
        let ghost shown = self.buffer@;
        self.save_focused_view();
        proof {
            lemma_index_of(old(self).buffers@.entries, id.0);
        }
        true
    }

    /// Splits off a window showing a new unlisted buffer named `name` that
    /// holds `lines`.
    pub fn scratch_split(&mut self, name: String, lines: Vec<String>, vertical: bool)
        requires
            old(self).wf(),
        ensures
            final(self).wf(),
            (old(self).tabs@.next_window < u64::MAX && old(self).tabs@.next_grid < u64::MAX) ==> final(self).tabs@
                == old(self).tabs@.after_split(
                if vertical {
                    crate::editcore::window::Axis::Horizontal
                } else {
                    crate::editcore::window::Axis::Vertical
                },
                if vertical {
                    old(self).options.splitright
                } else {
                    old(self).options.splitbelow
                },
            ),
            old(self).buffers@.next < u64::MAX ==> {
                &&& final(self).buffers@.current == old(self).buffers@.next
                &&& final(self).buffer@.lines == crate::editcore::buffer::at_least_one(
                    lines@.map_values(|t: String| t@),
                )
                &&& final(self).buffer@.path is None
                &&& final(self).cursor == (0usize, 0usize)
                &&& final(self).desired_col == 0
            },
    {
        self.split_window(vertical);
        if !self.buffers.has_room() {
            return;
        }
        let id = self.buffers.scratch(name);
        proof {
            lemma_index_of(self.buffers@.entries, id.0);
        }
        if let Some(stored) = self.buffers.get(id) {
            let mut filled = stored.clone();
            filled.set_lines(lines);
            self.buffers.put(id, filled);
        }
        let top = self.top_line;
        if let Some(k) = find_view(&self.views, self.tabs.focus()) {
            let mut view = self.views[k];
            view.buffer = id;
            view.cursor = (0, 0);
            view.desired_col = 0;
            view.top_line = top;
            self.views.set(k, view);
        }
        proof {
            lemma_index_of(self.buffers@.entries, id.0);
        }
        if let Some(shown) = self.buffers.get(id) {
            self.buffer = shown.clone();
            self.cursor = (0, 0);
        }
        clamp(&mut self.cursor, &self.buffer, self.mode);
        self.desired_col = 0;
        self.vcs.clear();
        self.save_focused_view();
    }

    /// `<C-w>n`: a new window on a new empty buffer.
    pub fn new_window(&mut self)
        requires
            old(self).wf(),
        ensures
            final(self).wf(),
            (old(self).tabs@.next_window < u64::MAX && old(self).tabs@.next_grid < u64::MAX) ==> final(self).tabs@
                == old(self).tabs@.after_split(crate::editcore::window::Axis::Vertical, old(self).options.splitbelow),
            !(old(self).tabs@.next_window < u64::MAX && old(self).tabs@.next_grid < u64::MAX) ==> final(self).tabs
                == old(self).tabs,
            old(self).buffers@.next < u64::MAX ==> {
                &&& final(self).buffers@.current == old(self).buffers@.next
                &&& final(self).buffer@.lines == seq![Seq::<char>::empty()]
                &&& final(self).buffer@.path is None
                &&& final(self).cursor == (0usize, 0usize)
            },
    {
        self.split_window(false);
        if !self.buffers.has_room() {
            return;
        }
        let id = self.buffers.empty();
        proof {
            let e = self.buffers@.entries;
            crate::editcore::buffers::lemma_index_unique(e, id.0, e.len() - 1);
        }
        self.switch_focused_to_buffer(id, true);
    }

    fn remove_view(&mut self, id: WindowId)
        ensures
            final(self).views@ == if view_pos(old(self).views@, id.0) >= 0 {
                old(self).views@.remove(view_pos(old(self).views@, id.0))
            } else {
                old(self).views@
            },
            final(self).tabs == old(self).tabs,
            final(self).buffer == old(self).buffer,
            final(self).buffers == old(self).buffers,
            final(self).cursor == old(self).cursor,
            final(self).view_rows == old(self).view_rows,
            final(self).vcs == old(self).vcs,
            same_typing(*old(self), *final(self)),
            *final(self) == (Editor { views: final(self).views, ..*old(self) }),
    {
        if let Some(k) = find_view(&self.views, id) {
            self.views.remove(k);
        }
    }

    /// `<C-w>c`: closes the focused window unless it is the tab's last.
    pub fn close_window(&mut self) -> (closed: bool)
        requires
            old(self).wf(),
        ensures
            final(self).wf(),
            closed == (crate::editcore::window::leaves(old(self).tabs@.layout()).len() > 1),
            final(self).tabs@ == closed_tabs(old(self).tabs@),
            same_typing(*old(self), *final(self)),
            closed ==> switched(
                *old(self),
                *final(self),
                closed_tabs(old(self).tabs@),
                without_view(saved_views(*old(self)), old(self).tabs@.focus()),
            ),
            !closed ==> saved(*old(self), *final(self)),
    {
        self.save_focused_view();
        let old = self.tabs.focus();
        if self.tabs.close().is_some() {
            self.remove_view(old);
            self.load_focused_view();
            return true;
        }
        false
    }

    /// `<C-w>o`: the focused window is the tab's only one.
    pub fn only_window(&mut self)
        requires
            old(self).wf(),
        ensures
            final(self).wf(),
            final(self).tabs@ == old(self).tabs@.with_current(
                crate::editcore::window::LayoutModel::Leaf(old(self).tabs@.focus()),
                old(self).tabs@.focus(),
            ),
            forall|i: int| 0 <= i < final(self).views@.len() ==> (#[trigger] final(self).views@[i]).id.0
                == old(self).tabs@.focus(),
            same_typing(*old(self), *final(self)),
            switched(
                *old(self),
                *final(self),
                final(self).tabs@,
                views_of(saved_views(*old(self)), old(self).tabs@.focus()),
            ),
    {
        self.save_focused_view();
        let focus = self.tabs.focus();
        self.tabs.only();
        let mut kept: Vec<WindowView> = Vec::new();
        let mut i: usize = 0;
        while i < self.views.len()
            invariant
                i <= self.views@.len(),
                forall|j: int| 0 <= j < kept@.len() ==> (#[trigger] kept@[j]).id == focus,
                kept@ == views_of(self.views@.take(i as int), focus.0),
            decreases self.views@.len() - i,
        {
            proof {
                assert(self.views@.take(i + 1).drop_last() =~= self.views@.take(i as int));
            }
            if self.views[i].id == focus {
                kept.push(self.views[i]);
            }
            i = i + 1;
        }
        proof {
            assert(self.views@.take(self.views@.len() as int) =~= self.views@);
        }
        self.views = kept;
        self.load_focused_view();
    }

    /// `<C-w>h` and the like: the focus moves to the nearest window that way.
    pub fn focus_window_dir(&mut self, dir: Direction) -> (moved: bool)
        requires
            old(self).wf(),
        ensures
            final(self).wf(),
            same_typing(*old(self), *final(self)),
            crate::editcore::window::focus_moved(
                old(self).tabs@,
                dir,
                old(self).tabs@.last_area,
                old(self).tabs@.last_splitbelow,
                old(self).tabs@.last_splitright,
                if moved { Some(WindowId(final(self).tabs@.focus())) } else { None },
                final(self).tabs@,
            ),
            refocused(*old(self), *final(self), final(self).tabs@.focus()),
            switched(*old(self), *final(self), final(self).tabs@, saved_views(*old(self))),
    {
        self.save_focused_view();
        let r = self.tabs.focus_dir(dir);
        let moved = r.is_some();
        proof {
            if let Some(w) = r {
                assert(self.tabs@.focus() == w.0);
                assert(r == Some(WindowId(self.tabs@.focus())));
            }
        }
        self.load_focused_view();
        moved
    }

    /// `<C-w>w`: the focus moves to the next window in layout order.
    pub fn cycle_window_focus(&mut self)
        requires
            old(self).wf(),
        ensures
            final(self).wf(),
            same_typing(*old(self), *final(self)),
            ({
                let ls = crate::editcore::window::leaves(old(self).tabs@.layout());
                let at = crate::editcore::window::position_from(ls, old(self).tabs@.focus(), 0);
                let at = if at < 0 { 0 } else { at };
                final(self).tabs@ == old(self).tabs@.with_focus(ls[(at + 1) % ls.len() as int])
            }),
            refocused(*old(self), *final(self), final(self).tabs@.focus()),
            switched(*old(self), *final(self), final(self).tabs@, saved_views(*old(self))),
    {
        self.save_focused_view();
        self.tabs.cycle_focus();
        self.load_focused_view();
    }

    pub fn next_tab(&mut self)
        requires
            old(self).wf(),
        ensures
            final(self).wf(),
            final(self).tabs@.current == (old(self).tabs@.current + 1) % old(self).tabs@.tabs.len() as int,
            same_typing(*old(self), *final(self)),
            switched(
                *old(self),
                *final(self),
                crate::editcore::window::TabsModel {
                    current: (old(self).tabs@.current + 1) % old(self).tabs@.tabs.len() as int,
                    ..old(self).tabs@
                },
                saved_views(*old(self)),
            ),
    {
        self.save_focused_view();
        self.tabs.next_tab();
        self.load_focused_view();
    }

    pub fn prev_tab(&mut self)
        requires
            old(self).wf(),
        ensures
            final(self).wf(),
            final(self).tabs@.current == (old(self).tabs@.current + old(self).tabs@.tabs.len() - 1)
                % old(self).tabs@.tabs.len() as int,
            same_typing(*old(self), *final(self)),
            switched(
                *old(self),
                *final(self),
                crate::editcore::window::TabsModel {
                    current: (old(self).tabs@.current + old(self).tabs@.tabs.len() - 1) % old(self).tabs@.tabs.len() as int,
                    ..old(self).tabs@
                },
                saved_views(*old(self)),
            ),
    {
        self.save_focused_view();
        self.tabs.prev_tab();
        self.load_focused_view();
    }

    /// A new tab with one window on a new empty buffer.
    pub fn new_tab(&mut self)
        requires
            old(self).wf(),
        ensures
            final(self).wf(),
            (old(self).tabs@.next_window < u64::MAX && old(self).tabs@.next_grid < u64::MAX && old(self).buffers@.next
                < u64::MAX) ==> final(self).tabs@.tabs.len() == old(self).tabs@.tabs.len() + 1,
    {
        self.save_focused_view();
        if !self.tabs.has_room() || !self.buffers.has_room() {
            return;
        }
        let current = self.focused_view_or_current();
        let id = self.tabs.new_tab();
        let buffer = self.buffers.empty();
        let mut view = WindowView::new(id, self.tabs.grid_for_new_window(), buffer);
        view.cols = current.cols;
        view.rows = current.rows;
        self.views.push(view);
        self.switch_focused_to_buffer(buffer, true);
    }

    /// Closes the current tab and its windows, unless it is the last.
    pub fn close_tab(&mut self) -> (closed: bool)
        requires
            old(self).wf(),
        ensures
            final(self).wf(),
            closed == (old(self).tabs@.tabs.len() > 1),
            same_typing(*old(self), *final(self)),
    {
        self.save_focused_view();
        match self.tabs.close_tab() {
            None => false,
            Some(removed) => {
                let mut i: usize = 0;
                while i < removed.len()
                    invariant
                        self.wf(),
                        same_typing(*old(self), *self),
                    decreases removed@.len() - i,
                {
                    self.remove_view(removed[i]);
                    i = i + 1;
                }
                self.load_focused_view();
                true
            },
        }
    }

    /// `:bnext`: the next listed buffer, wrapping.
    pub fn next_buffer(&mut self) -> (r: bool)
        requires
            old(self).wf(),
        ensures
            final(self).wf(),
            same_typing(*old(self), *final(self)),
            cycled_to(*old(self), *final(self), r, true),
    {
        self.save_focused_view();
        proof {
            crate::editcore::buffers::lemma_listed_in_entries(self.buffers@.entries);
            let st = old(self).buffers@;
            lemma_index_of(st.entries, st.current);
            let k = index_of(st.entries, st.current);
            lemma_listed_ids_update(st.entries, k, EntryModel { buffer: old(self).buffer@, ..st.entries[k] });
        }
        match self.buffers.next() {
            None => false,
            Some(id) => self.switch_focused_to_buffer(id, true),
        }
    }

    /// `:bprevious`: the previous listed buffer, wrapping.
    pub fn prev_buffer(&mut self) -> (r: bool)
        requires
            old(self).wf(),
        ensures
            final(self).wf(),
            same_typing(*old(self), *final(self)),
            cycled_to(*old(self), *final(self), r, false),
    {
        self.save_focused_view();
        proof {
            crate::editcore::buffers::lemma_listed_in_entries(self.buffers@.entries);
            let st = old(self).buffers@;
            lemma_index_of(st.entries, st.current);
            let k = index_of(st.entries, st.current);
            lemma_listed_ids_update(st.entries, k, EntryModel { buffer: old(self).buffer@, ..st.entries[k] });
        }
        match self.buffers.prev() {
            None => false,
            Some(id) => self.switch_focused_to_buffer(id, true),
        }
    }

    /// The listed buffer at `index`, counting from zero.
    pub fn switch_buffer_index(&mut self, index: usize) -> (r: bool)
        requires
            old(self).wf(),
        ensures
            final(self).wf(),
            r == (index < crate::editcore::buffers::listed_ids(old(self).buffers@.entries).len()),
            same_typing(*old(self), *final(self)),
    {
        self.save_focused_view();
        proof {
            let st = old(self).buffers@;
            lemma_index_of(st.entries, st.current);
            let k = index_of(st.entries, st.current);
            lemma_listed_ids_update(st.entries, k, EntryModel { buffer: old(self).buffer@, ..st.entries[k] });
        }
        match self.buffers.by_index(index) {
            None => false,
            Some(id) => {
                proof {
                    crate::editcore::buffers::lemma_listed_in_entries(self.buffers@.entries);
                }
                self.switch_focused_to_buffer(id, true)
            },
        }
    }

    /// `:bdelete`: the current buffer goes unless it is the only one; the
    /// windows that showed it show what is current afterwards, from the top.
    pub fn delete_current_buffer(&mut self) -> (r: bool)
        requires
            old(self).wf(),
        ensures
            final(self).wf(),
            r == (old(self).buffers@.entries.len() > 1),
            same_typing(*old(self), *final(self)),
    {
        self.save_focused_view();
        let deleting = self.buffers.current_id();
        proof {
            lemma_index_of(old(self).buffers@.entries, old(self).buffers@.current);
            assert(self.buffers@.entries.len() == old(self).buffers@.entries.len());
            assert(contains_id(self.buffers@.entries, self.buffers@.current));
        }
        if !self.buffers.delete(deleting) {
            return false;
        }
        let replacement = self.buffers.current_id();
        let mut i: usize = 0;
        while i < self.views.len()
            invariant
                self.wf(),
                same_typing(*old(self), *self),
            decreases self.views@.len() - i,
        {
            let mut view = self.views[i];
            if view.buffer == deleting {
                view.buffer = replacement;
                view.cursor = (0, 0);
                view.desired_col = 0;
                view.top_line = 0;
                self.views.set(i, view);
            }
            i = i + 1;
        }
        self.load_focused_view();
        true
    }

    /// Opens the file at `path`, whose contents the host read as `read`, in
    /// the focused window; a buffer already holding it is reused.
    pub fn open(&mut self, path: &str, read: FileRead) -> (r: Result<(), OpenError>)
        requires
            old(self).wf(),
        ensures
            final(self).wf(),
            r is Ok ==> final(self).buffer@.path == Some(path@) && final(self).cursor == (0usize, 0usize)
                && final(self).mode == Mode::Normal,
            r is Ok <==> (old(self).buffers@.next < u64::MAX && (crate::editcore::buffers::path_open(
                stored(old(self).buffers@, old(self).buffer@).entries,
                path@,
            ) || read is Text || read is Missing)),
            old(self).buffers@.next < u64::MAX ==> (r matches Err(e) ==> crate::editcore::buffers::open_refused(read, e)),
            r is Ok ==> (!crate::editcore::buffers::path_open(stored(old(self).buffers@, old(self).buffer@).entries, path@)
                ==> final(self).buffer@.lines == crate::editcore::buffers::read_lines(read)),
    {
        self.save_focused_view();
        if !self.buffers.has_room() {
            return Err(OpenError::Failed("too many buffers".to_string()));
        }
        let id = match self.buffers.open_or_reuse(path, read) {
            Ok(id) => id,
            Err(e) => return Err(e),
        };
        self.buffers.set_current(id);
        proof {
            lemma_index_of(self.buffers@.entries, id.0);
        }
        if let Some(buffer) = self.buffers.get(id) {
            self.buffer = buffer.clone();
        }
        self.cursor = (0, 0);
        self.desired_col = 0;
        self.top_line = 0;
        self.mode = Mode::Normal;
        self.vcs.clear();
        if let Some(k) = find_view(&self.views, self.tabs.focus()) {
            let mut view = self.views[k];
            view.buffer = id;
            self.views.set(k, view);
        }
        self.save_focused_view();
        Ok(())
    }

    /// One wording for a failed open, wherever the attempt came from.
    pub fn report_open_failure(&mut self, path: &str, error: &str)
        ensures
            final(self).message matches Some(m) && m.error && m.text@ == "E484: Can't open file "@ + path@
                + ": "@ + error@,
    {
        let head = crate::text::concat("E484: Can't open file ", path);
        let head = crate::text::concat(head.as_str(), ": ");
        let text = crate::text::concat(head.as_str(), error);
        self.message = Some(Message { text, error: true });
    }
}


/// `s` right-aligned in three columns.
pub open spec fn pad3(s: Seq<char>) -> Seq<char> {
    if s.len() >= 3 {
        s
    } else {
        Seq::new((3 - s.len()) as nat, |i: int| ' ') + s
    }
}

pub open spec fn buffer_name(b: BufferModel) -> Seq<char> {
    match b.path {
        Some(p) => p,
        None => "[No Name]"@,
    }
}

/// One line of `:ls`: the position from one, `%` on the current buffer, and
/// the buffer's name.
pub open spec fn list_line(position: int, e: EntryModel, current: u64) -> Seq<char> {
    pad3(crate::text::decimal((position + 1) as nat)) + (if e.id == current { seq!['%'] } else { seq![' '] })
        + seq![' '] + buffer_name(e.buffer)
}

pub open spec fn list_lines(ids: Seq<u64>, entries: Seq<EntryModel>, current: u64) -> Seq<Seq<char>> {
    Seq::new(ids.len(), |i: int| list_line(i, entries[index_of(entries, ids[i])], current))
}

fn append_chars(out: &mut Vec<char>, s: &[char])
    ensures
        final(out)@ == old(out)@ + s@,
{
    let ghost start = out@;
    let mut i: usize = 0;
    while i < s.len()
        invariant
            i <= s@.len(),
            out@ == start + s@.take(i as int),
        decreases s@.len() - i,
    {
        out.push(s[i]);
        i = i + 1;
        assert(out@ =~= start + s@.take(i as int));
    }
    assert(s@.take(s@.len() as int) =~= s@);
}

impl Editor {
    /// What `:ls` shows: one line per listed buffer.
    pub fn buffer_list_message(&self) -> (s: String)
        requires
            self.wf(),
        ensures
            s@ == crate::editcore::buffer::join_with(
                list_lines(
                    crate::editcore::buffers::listed_ids(self.buffers@.entries),
                    self.buffers@.entries,
                    self.buffers@.current,
                ),
                seq!['\n'],
            ),
    {
        let current = self.buffers.current_id();
        let ids = self.buffers.list();
        let ghost listed = crate::editcore::buffers::listed_ids(self.buffers@.entries);
        let ghost lines = list_lines(listed, self.buffers@.entries, self.buffers@.current);
        proof {
            crate::editcore::buffers::lemma_listed_in_entries(self.buffers@.entries);
            assert(ids@.len() == listed.len()) by {
                assert(ids@.map_values(|b: BufferId| b.0).len() == ids@.len());
            }
        }
        let mut out: Vec<char> = Vec::new();
        let mut i: usize = 0;
        while i < ids.len()
            invariant
                self.wf(),
                current.0 == self.buffers@.current,
                ids@.map_values(|b: BufferId| b.0) == listed,
                listed == crate::editcore::buffers::listed_ids(self.buffers@.entries),
                lines == list_lines(listed, self.buffers@.entries, self.buffers@.current),
                ids@.len() == listed.len(),
                forall|j: int| 0 <= j < listed.len() ==> contains_id(self.buffers@.entries, #[trigger] listed[j]),
                i <= ids@.len(),
                out@ == crate::editcore::buffer::join_with(lines.take(i as int), seq!['\n']),
            decreases ids@.len() - i,
        {
            let id = ids[i];
            assert(listed[i as int] == id.0);
            match self.buffers.entry(id) {
                Some(entry) => {
                    let mut line: Vec<char> = Vec::new();
                    let number = crate::text::decimal_text(i + 1);
                    let digits = crate::text::chars_of(number.as_str());
                    while line.len() + digits.len() < 3
                        invariant
                            line@.len() + digits@.len() <= 3 || line@.len() == 0,
                            forall|k: int| 0 <= k < line@.len() ==> #[trigger] line@[k] == ' ',
                        decreases 3 - line@.len(),
                    {
                        line.push(' ');
                    }
                    append_chars(&mut line, digits.as_slice());
                    assert(line@ =~= pad3(crate::text::decimal((i + 1) as nat)));
                    line.push(if entry.id == current { '%' } else { ' ' });
                    line.push(' ');
                    let name = entry.buffer.name();
                    let name_chars = crate::text::chars_of(name.as_str());
                    append_chars(&mut line, name_chars.as_slice());
                    proof {
                        lemma_index_of(self.buffers@.entries, id.0);
                        assert(line@ =~= lines[i as int]);
                        let t = lines.take(i + 1);
                        if i > 0 {
                            assert(t.drop_last() =~= lines.take(i as int));
                        }
                    }
                    if i > 0 {
                        out.push('\n');
                    }
                    append_chars(&mut out, line.as_slice());
                    proof {
                        let t = lines.take(i + 1);
                        if i > 0 {
                            assert(t.drop_last() =~= lines.take(i as int));
                            assert(t.last() == lines[i as int]);
                        } else {
                            assert(lines.take(0).len() == 0);
                        }
                    }
                },
                None => {
                    proof {
                        assert(contains_id(self.buffers@.entries, listed[i as int]));
                    }
                },
            }
            i = i + 1;
        }
        proof {
            assert(lines.take(ids@.len() as int) =~= lines);
        }
        crate::text::string_of(out.as_slice())
    }
}

} // verus!
