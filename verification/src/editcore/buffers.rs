//! The buffers the editing core owns, in the order they were opened.

use vstd::prelude::*;
use crate::editcore::buffer::{Buffer, BufferModel, FileRead, OpenError};

verus! {

#[derive(Clone, Copy, PartialEq, Eq, PartialOrd, Ord, Hash, Debug, Structural)]
pub struct BufferId(pub u64);

pub struct BufferEntry {
    pub id: BufferId,
    pub buffer: Buffer,
    pub listed: bool,
    pub scratch_name: Option<String>,
}

/// One entry as mathematical values.
pub struct EntryModel {
    pub id: u64,
    pub buffer: BufferModel,
    pub listed: bool,
    pub scratch_name: Option<Seq<char>>,
}

pub struct StoreModel {
    pub next: u64,
    pub current: u64,
    pub alternate: Option<u64>,
    /// In the order the buffers were opened.
    pub entries: Seq<EntryModel>,
}

pub open spec fn opt_chars(o: Option<String>) -> Option<Seq<char>> {
    match o {
        Some(s) => Some(s@),
        None => None,
    }
}

impl BufferEntry {
    pub open spec fn model(&self) -> EntryModel {
        EntryModel {
            id: self.id.0,
            buffer: self.buffer@,
            listed: self.listed,
            scratch_name: opt_chars(self.scratch_name),
        }
    }
}

/// The position of the entry with `id`, or -1.
pub open spec fn index_of(entries: Seq<EntryModel>, id: u64) -> int
    decreases entries.len(),
{
    if entries.len() == 0 {
        -1
    } else if entries.last().id == id {
        entries.len() - 1
    } else {
        index_of(entries.drop_last(), id)
    }
}

pub open spec fn contains_id(entries: Seq<EntryModel>, id: u64) -> bool {
    exists|i: int| 0 <= i < entries.len() && #[trigger] entries[i].id == id
}

/// The listed buffers' ids, in order.
pub open spec fn listed_ids(entries: Seq<EntryModel>) -> Seq<u64>
    decreases entries.len(),
{
    if entries.len() == 0 {
        Seq::empty()
    } else if entries.last().listed {
        listed_ids(entries.drop_last()).push(entries.last().id)
    } else {
        listed_ids(entries.drop_last())
    }
}

impl StoreModel {
    pub open spec fn wf(self) -> bool {
        &&& self.entries.len() >= 1
        &&& forall|i: int, j: int| 0 <= i < j < self.entries.len() ==> #[trigger] self.entries[i].id < #[trigger] self.entries[j].id
        &&& forall|i: int| 0 <= i < self.entries.len() ==> #[trigger] self.entries[i].id < self.next
        &&& forall|i: int| 0 <= i < self.entries.len() ==> (#[trigger] self.entries[i]).buffer.wf()
        &&& contains_id(self.entries, self.current)
        &&& (self.alternate matches Some(a) ==> contains_id(self.entries, a))
    }

    /// Making `id` current: the previous current becomes the alternate when
    /// it changes; an unknown id changes nothing.
    pub open spec fn after_set_current(self, id: u64) -> (StoreModel, bool) {
        if !contains_id(self.entries, id) {
            (self, false)
        } else if self.current != id {
            (StoreModel { alternate: Some(self.current), current: id, ..self }, true)
        } else {
            (self, true)
        }
    }

    /// A new entry at the end, made current.
    pub open spec fn after_insert(self, buffer: BufferModel, listed: bool, scratch_name: Option<Seq<char>>) -> StoreModel {
        let id = self.next;
        let with = StoreModel {
            next: (self.next + 1) as u64,
            entries: self.entries.push(EntryModel { id, buffer, listed, scratch_name }),
            ..self
        };
        with.after_set_current(id).0
    }

    /// The entry removed; the alternate is forgotten if it was that entry, and
    /// the first entry left becomes current if it was the current one.
    pub open spec fn after_delete(self, id: u64) -> StoreModel {
        let k = index_of(self.entries, id);
        let entries = self.entries.remove(k);
        StoreModel {
            entries,
            alternate: if self.alternate == Some(id) { None } else { self.alternate },
            current: if self.current == id { entries[0].id } else { self.current },
            ..self
        }
    }
}

/// The first position of `x` in `s`, or -1.
pub open spec fn pos_of(s: Seq<u64>, x: u64) -> int
    decreases s.len(),
{
    if s.len() == 0 {
        -1
    } else if s[0] == x {
        0
    } else {
        let r = pos_of(s.drop_first(), x);
        if r < 0 {
            -1
        } else {
            r + 1
        }
    }
}

pub proof fn lemma_pos_of(s: Seq<u64>, x: u64)
    ensures
        -1 <= pos_of(s, x) < s.len(),
        pos_of(s, x) >= 0 ==> s[pos_of(s, x)] == x,
        pos_of(s, x) >= 0 ==> forall|j: int| 0 <= j < pos_of(s, x) ==> s[j] != x,
        pos_of(s, x) < 0 ==> forall|j: int| 0 <= j < s.len() ==> s[j] != x,
    decreases s.len(),
{
    if s.len() > 0 && s[0] != x {
        lemma_pos_of(s.drop_first(), x);
        assert forall|j: int| 0 < j < s.len() implies s[j] == s.drop_first()[j - 1] by {}
    }
}

pub struct BufferStore {
    next: u64,
    current: BufferId,
    alternate: Option<BufferId>,
    entries: Vec<BufferEntry>,
}

pub open spec fn entry_models(v: Seq<BufferEntry>) -> Seq<EntryModel> {
    v.map_values(|e: BufferEntry| e.model())
}

impl View for BufferStore {
    type V = StoreModel;

    closed spec fn view(&self) -> StoreModel {
        StoreModel {
            next: self.next,
            current: self.current.0,
            alternate: match self.alternate {
                Some(a) => Some(a.0),
                None => None,
            },
            entries: entry_models(self.entries@),
        }
    }
}

pub proof fn lemma_index_of(entries: Seq<EntryModel>, id: u64)
    ensures
        -1 <= index_of(entries, id) < entries.len(),
        index_of(entries, id) >= 0 ==> entries[index_of(entries, id)].id == id,
        index_of(entries, id) < 0 <==> !contains_id(entries, id),
    decreases entries.len(),
{
    if entries.len() > 0 {
        lemma_index_of(entries.drop_last(), id);
        if entries.last().id != id {
            if contains_id(entries, id) {
                let i = choose|i: int| 0 <= i < entries.len() && #[trigger] entries[i].id == id;
                assert(entries.drop_last()[i].id == id);
            }
            if contains_id(entries.drop_last(), id) {
                let i = choose|i: int| 0 <= i < entries.drop_last().len() && #[trigger] entries.drop_last()[i].id == id;
                assert(entries[i].id == id);
            }
        } else {
            assert(entries[entries.len() - 1].id == id);
        }
    }
}

/// With increasing ids, the entry holding an id is the only one.
pub proof fn lemma_index_unique(entries: Seq<EntryModel>, id: u64, k: int)
    requires
        forall|i: int, j: int| 0 <= i < j < entries.len() ==> #[trigger] entries[i].id < #[trigger] entries[j].id,
        0 <= k < entries.len(),
        entries[k].id == id,
    ensures
        index_of(entries, id) == k,
{
    lemma_index_of(entries, id);
    let f = index_of(entries, id);
    if f != k {
        if f < k {
            assert(entries[f].id < entries[k].id);
        } else {
            assert(entries[k].id < entries[f].id);
        }
    }
}

/// Some buffer of `entries` is the file at `path`.
pub open spec fn path_open(entries: Seq<EntryModel>, path: Seq<char>) -> bool {
    exists|i: int| 0 <= i < entries.len() && #[trigger] entries[i].buffer.path == Some(path)
}

/// The error a read that is no file to edit is answered with.
pub open spec fn open_refused(read: FileRead, e: OpenError) -> bool {
    ||| (read is NotAFile && e is NotAFile)
    ||| (read matches FileRead::Failed(w) && e matches OpenError::Failed(x) && x@ == w@)
}

/// The lines a successful read gives.
pub open spec fn read_lines(read: FileRead) -> Seq<Seq<char>> {
    match read {
        FileRead::Text(t) => crate::editcore::buffer::parsed_lines(t@),
        _ => seq![Seq::<char>::empty()],
    }
}

impl BufferStore {
    fn find(&self, id: u64) -> (r: Option<usize>)
        requires
            self@.wf(),
        ensures
            match r {
                Some(k) => k as int == index_of(self@.entries, id) && k < self@.entries.len(),
                None => index_of(self@.entries, id) < 0,
            },
    {
        proof {
            lemma_index_of(self@.entries, id);
        }
        let mut i: usize = 0;
        while i < self.entries.len()
            invariant
                i <= self.entries@.len(),
                self@.wf(),
                forall|j: int| 0 <= j < i ==> self@.entries[j].id != id,
            decreases self.entries@.len() - i,
        {
            if self.entries[i].id.0 == id {
                proof {
                    assert(self@.entries[i as int].id == id);
                    lemma_index_unique(self@.entries, id, i as int);
                }
                return Some(i);
            }
            i = i + 1;
        }
        proof {
            if contains_id(self@.entries, id) {
                let j = choose|j: int| 0 <= j < self@.entries.len() && #[trigger] self@.entries[j].id == id;
                assert(self@.entries[j].id != id);
            }
        }
        None
    }

    pub fn new(buffer: Buffer) -> (s: BufferStore)
        requires
            buffer@.wf(),
        ensures
            s@.wf(),
            s@.next == 2,
            s@.current == 1,
            s@.alternate is None,
            s@.entries == seq![EntryModel { id: 1, buffer: buffer@, listed: true, scratch_name: None }],
    {
        let ghost b = buffer@;
        let entry = BufferEntry { id: BufferId(1), buffer, listed: true, scratch_name: None };
        let s = BufferStore { next: 2, current: BufferId(1), alternate: None, entries: vec![entry] };
        assert(s@.entries =~= seq![EntryModel { id: 1, buffer: b, listed: true, scratch_name: None }]);
        assert(s@.entries[0].id == 1);
        s
    }

    pub fn current_id(&self) -> (id: BufferId)
        ensures
            id.0 == self@.current,
    {
        self.current
    }

    pub fn alternate_id(&self) -> (id: Option<BufferId>)
        ensures
            match id {
                Some(a) => self@.alternate == Some(a.0),
                None => self@.alternate is None,
            },
    {
        self.alternate
    }

    fn current_index(&self) -> (k: usize)
        requires
            self@.wf(),
        ensures
            k < self@.entries.len(),
            self@.entries[k as int].id == self@.current,
            k == index_of(self@.entries, self@.current),
    {
        proof {
            lemma_index_of(self@.entries, self@.current);
        }
        match self.find(self.current.0) {
            Some(k) => k,
            None => 0,
        }
    }

    pub fn current(&self) -> (b: &Buffer)
        requires
            self@.wf(),
        ensures
            b@ == self@.entries[index_of(self@.entries, self@.current)].buffer,
    {
        let k = self.current_index();
        &self.entries[k].buffer
    }

    /// The current buffer, to edit in place: what is written through it
    /// becomes the current entry's buffer, and nothing else changes.
    pub fn current_mut(&mut self) -> (b: &mut Buffer)
        requires
            old(self)@.wf(),
        ensures
            ({
                let k = index_of(old(self)@.entries, old(self)@.current);
                &&& (*b)@ == old(self)@.entries[k].buffer
                &&& final(self)@ == (StoreModel {
                    entries: old(self)@.entries.update(k, EntryModel { buffer: final(b)@, ..old(self)@.entries[k] }),
                    ..old(self)@
                })
            }),
    {
        let k = self.current_index();
        let ghost before = self.entries@;
        let b = &mut self.entries[k].buffer;
        proof {
            assert(entry_models(before.update(k as int, BufferEntry { buffer: *final(b), ..before[k as int] })) =~= entry_models(before).update(k as int, EntryModel { buffer: final(b)@, ..entry_models(before)[k as int] }));
        }
        b
    }

    /// The buffer `id`, to edit in place, if the store has it.
    pub fn get_mut(&mut self, id: BufferId) -> (b: Option<&mut Buffer>)
        requires
            old(self)@.wf(),
        ensures
            match b {
                Some(b) => {
                    let k = index_of(old(self)@.entries, id.0);
                    &&& contains_id(old(self)@.entries, id.0)
                    &&& (*b)@ == old(self)@.entries[k].buffer
                    &&& final(self)@ == (StoreModel {
                        entries: old(self)@.entries.update(k, EntryModel { buffer: final(b)@, ..old(self)@.entries[k] }),
                        ..old(self)@
                    })
                },
                None => !contains_id(old(self)@.entries, id.0) && final(self)@ == old(self)@,
            },
    {
        proof {
            lemma_index_of(self@.entries, id.0);
        }
        match self.find(id.0) {
            Some(k) => {
                let ghost before = self.entries@;
                let b = &mut self.entries[k].buffer;
                proof {
                    assert(entry_models(before.update(k as int, BufferEntry { buffer: *final(b), ..before[k as int] })) =~= entry_models(before).update(k as int, EntryModel { buffer: final(b)@, ..entry_models(before)[k as int] }));
                }
                Some(b)
            },
            None => None,
        }
    }

    pub fn get(&self, id: BufferId) -> (b: Option<&Buffer>)
        requires
            self@.wf(),
        ensures
            match b {
                Some(b) => contains_id(self@.entries, id.0) && b@ == self@.entries[index_of(self@.entries, id.0)].buffer,
                None => !contains_id(self@.entries, id.0),
            },
    {
        proof {
            lemma_index_of(self@.entries, id.0);
        }
        match self.find(id.0) {
            Some(k) => Some(&self.entries[k].buffer),
            None => None,
        }
    }

    pub fn entry(&self, id: BufferId) -> (e: Option<&BufferEntry>)
        requires
            self@.wf(),
        ensures
            match e {
                Some(e) => contains_id(self@.entries, id.0) && e.model() == self@.entries[index_of(self@.entries, id.0)],
                None => !contains_id(self@.entries, id.0),
            },
    {
        proof {
            lemma_index_of(self@.entries, id.0);
        }
        match self.find(id.0) {
            Some(k) => Some(&self.entries[k]),
            None => None,
        }
    }

    /// The listed buffers, in the order they were opened.
    /// Whether another buffer can still be numbered.
    pub fn has_room(&self) -> (r: bool)
        ensures
            r == (self@.next < u64::MAX),
    {
        self.next < u64::MAX
    }

    /// Replaces the text held under `id`; an unknown id changes nothing.
    pub fn put(&mut self, id: BufferId, buffer: Buffer) -> (r: bool)
        requires
            old(self)@.wf(),
            buffer@.wf(),
        ensures
            r == contains_id(old(self)@.entries, id.0),
            r ==> final(self)@ == (StoreModel {
                entries: old(self)@.entries.update(
                    index_of(old(self)@.entries, id.0),
                    EntryModel { buffer: buffer@, ..old(self)@.entries[index_of(old(self)@.entries, id.0)] },
                ),
                ..old(self)@
            }),
            !r ==> final(self)@ == old(self)@,
            final(self)@.wf(),
    {
        match self.find(id.0) {
            None => {
                proof {
                    lemma_index_of(self@.entries, id.0);
                }
                false
            },
            Some(k) => {
                let ghost before = self@;
                let ghost b = buffer@;
                proof {
                    lemma_index_of(before.entries, id.0);
                }
                let mut entry = self.entries.remove(k);
                entry.buffer = buffer;
                self.entries.insert(k, entry);
                proof {
                    let want = before.entries.update(k as int, EntryModel { buffer: b, ..before.entries[k as int] });
                    assert(self@.entries =~= want);
                    assert forall|i: int| 0 <= i < self@.entries.len() implies #[trigger] self@.entries[i].id == before.entries[i].id by {}
                    assert(self@.entries[k as int].id == id.0);
                    assert(contains_id(self@.entries, self@.current)) by {
                        let j = choose|j: int| 0 <= j < before.entries.len() && #[trigger] before.entries[j].id == before.current;
                        assert(self@.entries[j].id == before.current);
                    }
                    if let Some(a) = self@.alternate {
                        let j = choose|j: int| 0 <= j < before.entries.len() && #[trigger] before.entries[j].id == a;
                        assert(self@.entries[j].id == a);
                    }
                }
                true
            },
        }
    }

    pub fn list(&self) -> (ids: Vec<BufferId>)
        ensures
            ids@.map_values(|b: BufferId| b.0) == listed_ids(self@.entries),
    {
        let mut ids: Vec<BufferId> = Vec::new();
        let mut i: usize = 0;
        while i < self.entries.len()
            invariant
                i <= self.entries@.len(),
                ids@.map_values(|b: BufferId| b.0) == listed_ids(self@.entries.take(i as int)),
            decreases self.entries@.len() - i,
        {
            proof {
                assert(self@.entries.take(i + 1).drop_last() =~= self@.entries.take(i as int));
            }
            if self.entries[i].listed {
                ids.push(self.entries[i].id);
            }
            i = i + 1;
            assert(ids@.map_values(|b: BufferId| b.0) =~= listed_ids(self@.entries.take(i as int)));
        }
        assert(self@.entries.take(self.entries@.len() as int) =~= self@.entries);
        ids
    }

    pub fn by_index(&self, index: usize) -> (id: Option<BufferId>)
        ensures
            match id {
                Some(b) => index < listed_ids(self@.entries).len() && b.0 == listed_ids(self@.entries)[index as int],
                None => index >= listed_ids(self@.entries).len(),
            },
    {
        let listed = self.list();
        if index < listed.len() {
            Some(listed[index])
        } else {
            None
        }
    }

    pub fn set_current(&mut self, id: BufferId) -> (changed: bool)
        requires
            old(self)@.wf(),
        ensures
            (final(self)@, changed) == old(self)@.after_set_current(id.0),
            final(self)@.wf(),
    {
        proof {
            lemma_index_of(self@.entries, id.0);
        }
        if self.find(id.0).is_none() {
            return false;
        }
        if self.current.0 != id.0 {
            self.alternate = Some(self.current);
            self.current = id;
        }
        true
    }

    fn cycle(&mut self, forward: bool) -> (r: Option<BufferId>)
        requires
            old(self)@.wf(),
        ensures
            final(self)@.wf(),
            ({
                let listed = listed_ids(old(self)@.entries);
                let at = pos_of(listed, old(self)@.current);
                if at < 0 {
                    r is None && final(self)@ == old(self)@
                } else {
                    let target = if forward {
                        listed[(at + 1) % (listed.len() as int)]
                    } else {
                        listed[(at + listed.len() - 1) % (listed.len() as int)]
                    };
                    r == Some(BufferId(target)) && final(self)@ == old(self)@.after_set_current(target).0
                }
            }),
    {
        let listed = self.list();
        let ghost ls = listed_ids(self@.entries);
        assert(listed@.map_values(|b: BufferId| b.0) == ls);
        let mut at: usize = 0;
        while at < listed.len()
            invariant
                at <= listed@.len(),
                listed@.map_values(|b: BufferId| b.0) == ls,
                forall|j: int| 0 <= j < at ==> ls[j] != self.current.0,
            ensures
                at >= listed@.len() || ls[at as int] == self.current.0,
            decreases listed@.len() - at,
        {
            if listed[at].0 == self.current.0 {
                break;
            }
            at = at + 1;
        }
        proof {
            lemma_pos_of(ls, self@.current);
        }
        if at >= listed.len() {
            proof {
                let p = pos_of(ls, self@.current);
                if p >= 0 {
                    assert(ls[p] != self.current.0);
                }
            }
            return None;
        }
        proof {
            let p = pos_of(ls, self@.current);
            if p < 0 {
                assert(ls[at as int] != self@.current);
            } else if p < at {
                assert(ls[p] != self.current.0);
            } else if p > at {
                assert(ls[at as int] != self@.current);
            }
            lemma_listed_in_entries(self@.entries);
        }
        let n = listed.len();
        let k = if forward {
            if at + 1 == n { 0 } else { at + 1 }
        } else {
            if at == 0 { n - 1 } else { at - 1 }
        };
        proof {
            let a = at as int;
            let m = n as int;
            if forward {
                if a + 1 == m {
                    assert((a + 1) % m == 0) by (nonlinear_arith) requires a + 1 == m, m > 0;
                } else {
                    assert((a + 1) % m == a + 1) by (nonlinear_arith) requires 0 <= a + 1 < m;
                }
            } else {
                if a == 0 {
                    assert((a + m - 1) % m == m - 1) by (nonlinear_arith) requires a == 0, m > 0;
                } else {
                    assert((a + m - 1) % m == a - 1) by (nonlinear_arith) requires 0 < a < m;
                }
            }
        }
        let id = listed[k];
        proof {
            assert(ls[k as int] == id.0);
        }
        self.set_current(id);
        Some(id)
    }

    /// The next listed buffer after the current one, wrapping around.
    pub fn next(&mut self) -> (r: Option<BufferId>)
        requires
            old(self)@.wf(),
        ensures
            final(self)@.wf(),
            ({
                let listed = listed_ids(old(self)@.entries);
                let at = pos_of(listed, old(self)@.current);
                if at < 0 {
                    r is None && final(self)@ == old(self)@
                } else {
                    let target = listed[(at + 1) % (listed.len() as int)];
                    r == Some(BufferId(target)) && final(self)@ == old(self)@.after_set_current(target).0
                }
            }),
    {
        self.cycle(true)
    }

    /// The listed buffer before the current one, wrapping around.
    pub fn prev(&mut self) -> (r: Option<BufferId>)
        requires
            old(self)@.wf(),
        ensures
            final(self)@.wf(),
            ({
                let listed = listed_ids(old(self)@.entries);
                let at = pos_of(listed, old(self)@.current);
                if at < 0 {
                    r is None && final(self)@ == old(self)@
                } else {
                    let target = listed[(at + listed.len() - 1) % (listed.len() as int)];
                    r == Some(BufferId(target)) && final(self)@ == old(self)@.after_set_current(target).0
                }
            }),
    {
        self.cycle(false)
    }

    /// Adds a buffer after the others and makes it current.
    pub fn insert(&mut self, buffer: Buffer, listed: bool, scratch_name: Option<String>) -> (id: BufferId)
        requires
            old(self)@.wf(),
            buffer@.wf(),
            old(self)@.next < u64::MAX,
        ensures
            id.0 == old(self)@.next,
            final(self)@ == old(self)@.after_insert(buffer@, listed, opt_chars(scratch_name)),
            final(self)@.wf(),
    {
        let id = BufferId(self.next);
        let ghost b = buffer@;
        let ghost sn = opt_chars(scratch_name);
        self.next = self.next + 1;
        self.entries.push(BufferEntry { id, buffer, listed, scratch_name });
        proof {
            assert(self@.entries =~= old(self)@.entries.push(EntryModel { id: id.0, buffer: b, listed, scratch_name: sn }));
            let e = self@.entries;
            assert(e[e.len() - 1].id == id.0);
            assert(contains_id(e, id.0));
            assert(contains_id(e, self@.current)) by {
                let i = choose|i: int| 0 <= i < old(self)@.entries.len() && #[trigger] old(self)@.entries[i].id == old(self)@.current;
                assert(e[i].id == self@.current);
            }
            if let Some(a) = self@.alternate {
                assert(contains_id(e, a)) by {
                    let i = choose|i: int| 0 <= i < old(self)@.entries.len() && #[trigger] old(self)@.entries[i].id == a;
                    assert(e[i].id == a);
                }
            }
        }
        self.set_current(id);
        id
    }

    /// A new unlisted scratch buffer, made current.
    pub fn scratch(&mut self, name: String) -> (id: BufferId)
        requires
            old(self)@.wf(),
            old(self)@.next < u64::MAX,
        ensures
            id.0 == old(self)@.next,
            final(self)@ == old(self)@.after_insert(final(self)@.entries.last().buffer, false, Some(name@)),
            final(self)@.entries.last().buffer.lines == seq![Seq::<char>::empty()],
            final(self)@.entries.last().buffer.path is None,
            final(self)@.wf(),
    {
        let b = Buffer::empty();
        self.insert(b, false, Some(name))
    }

    /// A new listed empty buffer, made current.
    pub fn empty(&mut self) -> (id: BufferId)
        requires
            old(self)@.wf(),
            old(self)@.next < u64::MAX,
        ensures
            id.0 == old(self)@.next,
            final(self)@ == old(self)@.after_insert(final(self)@.entries.last().buffer, true, None),
            final(self)@.entries.last().buffer.lines == seq![Seq::<char>::empty()],
            final(self)@.entries.last().buffer.path is None,
            final(self)@.wf(),
    {
        let b = Buffer::empty();
        self.insert(b, true, None)
    }

    /// The buffer holding `path`, if one does. Paths are compared as given;
    /// the caller normalises them.
    pub fn id_for_path(&self, path: &str) -> (r: Option<BufferId>)
        ensures
            match r {
                Some(id) => exists|i: int| 0 <= i < self@.entries.len() && #[trigger] self@.entries[i].id == id.0 && self@.entries[i].buffer.path == Some(path@)
                    && forall|j: int| 0 <= j < i ==> self@.entries[j].buffer.path != Some(path@),
                None => forall|i: int| 0 <= i < self@.entries.len() ==> #[trigger] self@.entries[i].buffer.path != Some(path@),
            },
    {
        let mut i: usize = 0;
        while i < self.entries.len()
            invariant
                i <= self.entries@.len(),
                forall|j: int| 0 <= j < i ==> #[trigger] self@.entries[j].buffer.path != Some(path@),
            decreases self.entries@.len() - i,
        {
            let p = self.entries[i].buffer.path();
            if let Some(p) = p {
                if crate::editcore::key::same_chars(crate::text::chars_of(p).as_slice(), crate::text::chars_of(path).as_slice()) {
                    assert(self@.entries[i as int].id == self.entries[i as int].id.0);
                    return Some(self.entries[i].id);
                }
            }
            i = i + 1;
        }
        None
    }

    /// Makes the buffer holding `path` current, or opens what reading the path
    /// came to as a new listed buffer.
    pub fn open_or_reuse(&mut self, path: &str, read: FileRead) -> (r: Result<BufferId, OpenError>)
        requires
            old(self)@.wf(),
            old(self)@.next < u64::MAX,
        ensures
            final(self)@.wf(),
            match r {
                Ok(id) => contains_id(final(self)@.entries, id.0) && final(self)@.current == id.0
                    && final(self)@.entries[index_of(final(self)@.entries, id.0)].buffer.path == Some(path@),
                Err(_) => final(self)@ == old(self)@,
            },
            r is Ok <==> (path_open(old(self)@.entries, path@) || read is Text || read is Missing),
            r matches Err(e) ==> open_refused(read, e),
            (r matches Ok(id) ==> (!path_open(old(self)@.entries, path@) ==> final(self)@.entries[index_of(
                final(self)@.entries,
                id.0,
            )].buffer.lines == read_lines(read))),
    {
        if let Some(id) = self.id_for_path(path) {
            proof {
                let i = choose|i: int| 0 <= i < self@.entries.len() && #[trigger] self@.entries[i].id == id.0 && self@.entries[i].buffer.path == Some(path@)
                    && forall|j: int| 0 <= j < i ==> self@.entries[j].buffer.path != Some(path@);
                lemma_index_unique(self@.entries, id.0, i);
            }
            self.set_current(id);
            return Ok(id);
        }
        match Buffer::open(path, read) {
            Ok(buffer) => {
                let id = self.insert(buffer, true, None);
                proof {
                    let e = self@.entries;
                    lemma_index_unique(e, id.0, e.len() - 1);
                }
                Ok(id)
            },
            Err(e) => Err(e),
        }
    }

    /// Removes a buffer. The last buffer, and an unknown id, are refused.
    pub fn delete(&mut self, id: BufferId) -> (removed: bool)
        requires
            old(self)@.wf(),
        ensures
            removed == (old(self)@.entries.len() > 1 && contains_id(old(self)@.entries, id.0)),
            final(self)@ == if removed { old(self)@.after_delete(id.0) } else { old(self)@ },
            final(self)@.wf(),
    {
        proof {
            lemma_index_of(self@.entries, id.0);
        }
        if self.entries.len() == 1 {
            return false;
        }
        let k = match self.find(id.0) {
            Some(k) => k,
            None => {
                return false;
            },
        };
        let ghost old_entries = self@.entries;
        let _gone = self.entries.remove(k);
        proof {
            assert(self@.entries =~= old_entries.remove(k as int));
        }
        if self.alternate == Some(id) {
            self.alternate = None;
        }
        if self.current.0 == id.0 {
            self.current = self.entries[0].id;
        }
        proof {
            let e = self@.entries;
            assert forall|i: int, j: int| 0 <= i < j < e.len() implies #[trigger] e[i].id < #[trigger] e[j].id by {
                let oi = if i < k { i } else { i + 1 };
                let oj = if j < k { j } else { j + 1 };
                assert(e[i] == old_entries[oi]);
                assert(e[j] == old_entries[oj]);
                assert(old_entries[oi].id < old_entries[oj].id);
            }
            assert forall|i: int| 0 <= i < e.len() implies #[trigger] e[i].id < self@.next && e[i].buffer.wf() by {
                let oi = if i < k { i } else { i + 1 };
                assert(e[i] == old_entries[oi]);
                assert(old_entries[oi].id < self@.next);
                assert(old_entries[oi].buffer.wf());
            }
            assert(e[0].id == e[0].id);
            assert(contains_id(e, self@.current)) by {
                if old(self)@.current == id.0 {
                    assert(e[0].id == self@.current);
                } else {
                    let i = choose|i: int| 0 <= i < old_entries.len() && #[trigger] old_entries[i].id == old(self)@.current;
                    assert(i != k);
                    let ni = if i < k { i } else { i - 1 };
                    assert(e[ni] == old_entries[i]);
                }
            }
            if let Some(a) = self@.alternate {
                assert(a != id.0);
                assert(contains_id(e, a)) by {
                    let i = choose|i: int| 0 <= i < old_entries.len() && #[trigger] old_entries[i].id == a;
                    assert(i != k);
                    let ni = if i < k { i } else { i - 1 };
                    assert(e[ni] == old_entries[i]);
                }
            }
        }
        true
    }
}

/// Every listed id is the id of an entry.
pub proof fn lemma_listed_in_entries(entries: Seq<EntryModel>)
    ensures
        forall|j: int| 0 <= j < listed_ids(entries).len() ==> contains_id(entries, #[trigger] listed_ids(entries)[j]),
    decreases entries.len(),
{
    if entries.len() > 0 {
        lemma_listed_in_entries(entries.drop_last());
        let ls = listed_ids(entries);
        let prev = listed_ids(entries.drop_last());
        assert forall|j: int| 0 <= j < ls.len() implies contains_id(entries, #[trigger] ls[j]) by {
            if j < prev.len() {
                assert(ls[j] == prev[j]);
                assert(contains_id(entries.drop_last(), prev[j]));
                let i = choose|i: int| 0 <= i < entries.drop_last().len() && #[trigger] entries.drop_last()[i].id == prev[j];
                assert(entries[i].id == prev[j]);
            } else {
                assert(entries[entries.len() - 1].id == ls[j]);
            }
        }
    }
}

} // verus!
