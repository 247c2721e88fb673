//! The navigation surface's state and behaviour: the query, the candidates
//! that survive it, and the selection. The drawing is someone else's.
//!
//! A candidate survives a query when the query's characters occur in it in
//! order, ASCII letters compared without case; the positions where they were
//! found travel with each visible row. Typing or deleting a character of the
//! query selects the first survivor again, and moving the selection stops at
//! either end of the list.

use vstd::prelude::*;
use crate::editcore::key::{parse, parse_spec, Code, Key, Named};
use crate::root_ui::navigation::RowInput;
use crate::text::{ascii_lower, chars_of, spec_ascii_lower, string_of};

verus! {

/// Where the candidate list comes from. A supplier that fetched rows from
/// elsewhere implements the same trait.
pub trait Source {
    fn candidates(&self) -> Vec<String>;

    fn label(&self) -> &str;
}

/// What the surface asks the host to do after a key.
#[derive(Clone, PartialEq, Eq, Debug)]
pub enum Outcome {
    /// Still open; keep drawing it.
    Open,
    Cancelled,
    Chose(String),
}

pub enum OutcomeModel {
    Open,
    Cancelled,
    Chose(Seq<char>),
}

pub open spec fn outcome_model(o: Outcome) -> OutcomeModel {
    match o {
        Outcome::Open => OutcomeModel::Open,
        Outcome::Cancelled => OutcomeModel::Cancelled,
        Outcome::Chose(s) => OutcomeModel::Chose(s@),
    }
}

pub open spec fn fold(c: char) -> char {
    spec_ascii_lower(c)
}

/// Where `query[q..]` is found in order in `text[i..]`, each character at the
/// first place it can go; `None` when it is not.
pub open spec fn positions_from(text: Seq<char>, query: Seq<char>, i: int, q: int) -> Option<Seq<int>>
    decreases text.len() - i,
{
    if q < 0 || q >= query.len() {
        Some(Seq::empty())
    } else if i < 0 || i >= text.len() {
        None
    } else if fold(text[i]) == fold(query[q]) {
        match positions_from(text, query, i + 1, q + 1) {
            Some(p) => Some(seq![i] + p),
            None => None,
        }
    } else {
        positions_from(text, query, i + 1, q)
    }
}

pub open spec fn positions(text: Seq<char>, query: Seq<char>) -> Option<Seq<int>> {
    positions_from(text, query, 0, 0)
}

/// The indices of the candidates from `k` on that survive `query`, in order.
pub open spec fn matched_from(corpus: Seq<Seq<char>>, query: Seq<char>, k: int) -> Seq<int>
    decreases corpus.len() - k,
{
    if k < 0 || k >= corpus.len() {
        Seq::empty()
    } else {
        (if positions(corpus[k], query) is Some { seq![k] } else { Seq::empty() })
            + matched_from(corpus, query, k + 1)
    }
}

pub open spec fn matched(corpus: Seq<Seq<char>>, query: Seq<char>) -> Seq<int> {
    matched_from(corpus, query, 0)
}

pub struct PickerModel {
    pub corpus: Seq<Seq<char>>,
    pub query: Seq<char>,
    /// The selected row among the survivors.
    pub selected: int,
    pub rows: nat,
    pub label: Seq<char>,
}

impl PickerModel {
    pub open spec fn survivors(self) -> Seq<int> {
        matched(self.corpus, self.query)
    }

    pub open spec fn wf(self) -> bool {
        &&& self.rows >= 1
        &&& if self.survivors().len() == 0 { self.selected == 0 } else { 0 <= self.selected < self.survivors().len() }
    }

    pub open spec fn selection(self) -> Option<Seq<char>> {
        if self.survivors().len() == 0 {
            None
        } else {
            Some(self.corpus[self.survivors()[self.selected]])
        }
    }

    pub open spec fn with_query(self, query: Seq<char>) -> PickerModel {
        PickerModel { query, selected: 0, ..self }
    }

    /// The selection moved by `delta`, stopping at either end.
    pub open spec fn moved(self, delta: int) -> PickerModel {
        let n = self.survivors().len();
        let to = self.selected + delta;
        PickerModel {
            selected: if n == 0 || to < 0 { 0 } else if to >= n { n - 1 } else { to },
            ..self
        }
    }

    /// Where the visible window starts: far enough down that the selected row
    /// is its last row at most.
    pub open spec fn offset(self) -> int {
        if self.survivors().len() == 0 || self.selected < self.rows - 1 {
            0
        } else {
            self.selected - (self.rows - 1)
        }
    }

    /// One key, and what it closes the surface with, if it does.
    pub open spec fn after_key(self, key: Key) -> (PickerModel, Option<OutcomeModel>) {
        match key.code {
            Code::Named(Named::Esc) => (self, Some(OutcomeModel::Cancelled)),
            Code::Named(Named::Enter) => (self, Some(match self.selection() {
                Some(s) => OutcomeModel::Chose(s),
                None => OutcomeModel::Cancelled,
            })),
            Code::Named(Named::Backspace) => (self.with_query(
                if self.query.len() > 0 { self.query.drop_last() } else { self.query },
            ), None),
            Code::Named(Named::Down) => (self.moved(1), None),
            Code::Named(Named::Up) => (self.moved(-1), None),
            Code::Char(c) => if key.ctrl && (c == 'n' || c == 'j') {
                (self.moved(1), None)
            } else if key.ctrl && (c == 'p' || c == 'k') {
                (self.moved(-1), None)
            } else if key.ctrl && c == 'c' {
                (self, Some(OutcomeModel::Cancelled))
            } else {
                match key.spec_as_text() {
                    Some(ch) => (self.with_query(self.query.push(ch)), None),
                    None => (self, None),
                }
            },
            _ => (self, None),
        }
    }

    /// Keys `i..`, up to the first that closes the surface.
    pub open spec fn after_keys(self, keys: Seq<Key>, i: int) -> (PickerModel, OutcomeModel)
        decreases keys.len() - i,
    {
        if i < 0 || i >= keys.len() {
            (self, OutcomeModel::Open)
        } else {
            let (next, closed) = self.after_key(keys[i]);
            match closed {
                Some(o) => (next, o),
                None => next.after_keys(keys, i + 1),
            }
        }
    }
}

pub struct Picker {
    corpus: Vec<String>,
    chars: Vec<Vec<char>>,
    query: Vec<char>,
    query_text: String,
    /// The indices of the survivors in `corpus`.
    survivors: Vec<usize>,
    selected: usize,
    visible_rows: usize,
    source: String,
}

pub open spec fn strings(v: Seq<String>) -> Seq<Seq<char>> {
    v.map_values(|s: String| s@)
}

pub open spec fn indices(v: Seq<usize>) -> Seq<int> {
    v.map_values(|x: usize| x as int)
}

impl View for Picker {
    type V = PickerModel;

    closed spec fn view(&self) -> PickerModel {
        PickerModel {
            corpus: strings(self.corpus@),
            query: self.query@,
            selected: self.selected as int,
            rows: self.visible_rows as nat,
            label: self.source@,
        }
    }
}

/// A row of the visible window as values.
pub open spec fn row_model(r: RowInput) -> (Seq<char>, Seq<int>, bool) {
    (r.text@, indices(r.positions@), r.selected)
}

/// The visible window: the survivors from the offset on, as many as there
/// are rows for, each with where the query matched and whether it is the
/// selected one.
pub open spec fn visible_rows(m: PickerModel) -> Seq<(Seq<char>, Seq<int>, bool)> {
    let start = m.offset();
    let n = m.survivors().len();
    let end: int = if start + m.rows < n { start + m.rows } else { n as int };
    Seq::new((if end > start { end - start } else { 0 }) as nat, |k: int| {
        let row = start + k;
        let index = m.survivors()[row];
        (m.corpus[index], positions(m.corpus[index], m.query)->0, row == m.selected)
    })
}

/// Where `query` is found in `text`, as the specification says.
fn find_positions(text: &Vec<char>, query: &Vec<char>) -> (r: Option<Vec<usize>>)
    ensures
        match r {
            Some(p) => positions(text@, query@) == Some(indices(p@)),
            None => positions(text@, query@) is None,
        },
{
    let mut found: Vec<usize> = Vec::new();
    let mut i: usize = 0;
    let mut q: usize = 0;
    while i < text.len() && q < query.len()
        invariant
            i <= text@.len(),
            q <= query@.len(),
            positions(text@, query@) == match positions_from(text@, query@, i as int, q as int) {
                Some(rest) => Some(indices(found@) + rest),
                None => None::<Seq<int>>,
            },
        decreases text@.len() - i,
    {
        let ghost before = indices(found@);
        if ascii_lower(text[i]) == ascii_lower(query[q]) {
            found.push(i);
            proof {
                assert(indices(found@) =~= before + seq![i as int]);
                match positions_from(text@, query@, i + 1, q + 1) {
                    Some(rest) => {
                        assert(before + (seq![i as int] + rest) =~= indices(found@) + rest);
                    },
                    None => {},
                }
            }
            q = q + 1;
        }
        i = i + 1;
    }
    if q == query.len() {
        proof {
            assert(indices(found@) + Seq::<int>::empty() =~= indices(found@));
        }
        Some(found)
    } else {
        None
    }
}

/// The indices of the candidates that survive `query`.
fn survivors_of(chars: &Vec<Vec<char>>, query: &Vec<char>) -> (r: Vec<usize>)
    ensures
        indices(r@) == matched(chars@.map_values(|v: Vec<char>| v@), query@),
{
    let ghost corpus = chars@.map_values(|v: Vec<char>| v@);
    let mut out: Vec<usize> = Vec::new();
    let mut k: usize = 0;
    while k < chars.len()
        invariant
            corpus == chars@.map_values(|v: Vec<char>| v@),
            k <= chars@.len(),
            indices(out@) + matched_from(corpus, query@, k as int) == matched(corpus, query@),
        decreases chars@.len() - k,
    {
        let ghost before = indices(out@);
        let hit = find_positions(&chars[k], query);
        assert(corpus[k as int] == chars@[k as int]@);
        if hit.is_some() {
            out.push(k);
            proof {
                assert(indices(out@) =~= before + seq![k as int]);
                assert(indices(out@) + matched_from(corpus, query@, k + 1)
                    =~= before + matched_from(corpus, query@, k as int));
            }
        } else {
            proof {
                assert(matched_from(corpus, query@, k as int) =~= matched_from(corpus, query@, k + 1));
            }
        }
        k = k + 1;
    }
    proof {
        assert(indices(out@) =~= indices(out@) + matched_from(corpus, query@, k as int));
    }
    out
}

impl Picker {
    /// The invariant of the exec fields.
    pub closed spec fn inv(&self) -> bool {
        &&& self.chars@.len() == self.corpus@.len()
        &&& forall|k: int| 0 <= k < self.corpus@.len() ==> #[trigger] self.chars@[k]@ == self.corpus@[k]@
        &&& indices(self.survivors@) == self@.survivors()
        &&& self.query_text@ == self.query@
        &&& self@.wf()
    }

    proof fn lemma_survivors(&self)
        requires
            self.inv(),
        ensures
            self.chars@.map_values(|v: Vec<char>| v@) == strings(self.corpus@),
            forall|r: int| 0 <= r < self.survivors@.len() ==> 0 <= #[trigger] self.survivors@[r] < self.corpus@.len(),
    {
        assert(self.chars@.map_values(|v: Vec<char>| v@) =~= strings(self.corpus@));
        assert forall|r: int| 0 <= r < self.survivors@.len() implies 0 <= #[trigger] self.survivors@[r] < self.corpus@.len() by {
            lemma_matched_in_range(strings(self.corpus@), self.query@, 0);
            assert(indices(self.survivors@)[r] == self.survivors@[r] as int);
        }
    }

    /// A picker over `candidates`, labelled `label`, with room for
    /// `visible_rows` rows (at least one).
    pub fn from_candidates(candidates: Vec<String>, label: String, visible_rows: usize) -> (p: Picker)
        ensures
            p.inv(),
            p@ == (PickerModel {
                corpus: strings(candidates@),
                query: Seq::empty(),
                selected: 0,
                rows: if visible_rows >= 1 { visible_rows as nat } else { 1 },
                label: label@,
            }),
    {
        let mut chars: Vec<Vec<char>> = Vec::new();
        let mut k: usize = 0;
        while k < candidates.len()
            invariant
                k <= candidates@.len(),
                chars@.len() == k,
                forall|j: int| 0 <= j < k ==> #[trigger] chars@[j]@ == candidates@[j]@,
            decreases candidates@.len() - k,
        {
            chars.push(chars_of(candidates[k].as_str()));
            k = k + 1;
        }
        let query: Vec<char> = Vec::new();
        let query_text = string_of(query.as_slice());
        let survivors = survivors_of(&chars, &query);
        proof {
            assert(chars@.map_values(|v: Vec<char>| v@) =~= strings(candidates@));
        }
        let p = Picker {
            corpus: candidates,
            chars,
            query,
            query_text,
            survivors,
            selected: 0,
            visible_rows: if visible_rows >= 1 { visible_rows } else { 1 },
            source: label,
        };
        assert(p@.query =~= Seq::<char>::empty());
        p
    }

    /// A picker over what `source` supplies.
    pub fn open(source: &dyn Source, visible_rows: usize) -> (p: Picker)
        ensures
            p.inv(),
            p@.query.len() == 0,
            p@.selected == 0,
            p@.rows == if visible_rows >= 1 { visible_rows as nat } else { 1 },
    {
        let candidates = source.candidates();
        let label = source.label();
        Picker::from_candidates(candidates, label.to_owned(), visible_rows)
    }

    pub fn query(&self) -> (s: &str)
        requires
            self.inv(),
        ensures
            s@ == self@.query,
    {
        self.query_text.as_str()
    }

    /// How many candidates survive the query.
    pub fn matches(&self) -> (n: usize)
        requires
            self.inv(),
        ensures
            n == self@.survivors().len(),
    {
        self.survivors.len()
    }

    pub fn corpus_len(&self) -> (n: usize)
        requires
            self.inv(),
        ensures
            n == self@.corpus.len(),
    {
        self.corpus.len()
    }

    pub fn label(&self) -> (s: &str)
        ensures
            s@ == self@.label,
    {
        self.source.as_str()
    }

    /// How many rows the surface has room for, which is not how many
    /// candidates survived the query.
    pub fn row_budget(&self) -> (n: usize)
        ensures
            n == self@.rows,
    {
        self.visible_rows
    }

    /// The selected candidate.
    pub fn selection(&self) -> (r: Option<&String>)
        requires
            self.inv(),
        ensures
            match r {
                Some(s) => self@.selection() == Some(s@),
                None => self@.selection() is None,
            },
    {
        proof {
            self.lemma_survivors();
        }
        if self.survivors.len() == 0 {
            None
        } else {
            let index = self.survivors[self.selected];
            assert(indices(self.survivors@)[self.selected as int] == index as int);
            Some(&self.corpus[index])
        }
    }

    /// Where the visible window starts in the list of survivors.
    pub fn offset(&self) -> (n: usize)
        requires
            self.inv(),
        ensures
            n == self@.offset(),
    {
        if self.survivors.len() == 0 || self.selected < self.visible_rows - 1 {
            0
        } else {
            self.selected - (self.visible_rows - 1)
        }
    }

    fn set_query(&mut self, query: Vec<char>)
        requires
            old(self).inv(),
        ensures
            final(self).inv(),
            final(self)@ == old(self)@.with_query(query@),
    {
        let survivors = survivors_of(&self.chars, &query);
        self.query_text = string_of(query.as_slice());
        self.query = query;
        self.survivors = survivors;
        self.selected = 0;
        proof {
            assert(self.chars@.map_values(|v: Vec<char>| v@) =~= strings(self.corpus@));
        }
    }

    fn push_char(&mut self, ch: char)
        requires
            old(self).inv(),
        ensures
            final(self).inv(),
            final(self)@ == old(self)@.with_query(old(self)@.query.push(ch)),
    {
        let mut query = copy_chars(&self.query);
        query.push(ch);
        self.set_query(query);
    }

    fn pop_char(&mut self)
        requires
            old(self).inv(),
        ensures
            final(self).inv(),
            final(self)@ == old(self)@.with_query(
                if old(self)@.query.len() > 0 { old(self)@.query.drop_last() } else { old(self)@.query },
            ),
    {
        let mut query = copy_chars(&self.query);
        if query.len() > 0 {
            query.pop();
        }
        self.set_query(query);
    }

    fn move_selection(&mut self, down: bool)
        requires
            old(self).inv(),
        ensures
            final(self).inv(),
            final(self)@ == old(self)@.moved(if down { 1int } else { -1int }),
    {
        let n = self.survivors.len();
        if n == 0 {
            self.selected = 0;
        } else if down {
            if self.selected + 1 < n {
                self.selected = self.selected + 1;
            }
        } else if self.selected > 0 {
            self.selected = self.selected - 1;
        }
    }

    /// Feeds keys in Neovim's notation, up to the first that closes the
    /// surface. The keyboard is the surface's while it is open.
    pub fn feed(&mut self, keys: &str) -> (r: Outcome)
        requires
            old(self).inv(),
        ensures
            final(self).inv(),
            (final(self)@, outcome_model(r)) == old(self)@.after_keys(parse_spec(keys@), 0),
    {
        let parsed = parse(keys);
        let mut i: usize = 0;
        while i < parsed.len()
            invariant
                self.inv(),
                parsed@ == parse_spec(keys@),
                i <= parsed@.len(),
                old(self)@.after_keys(parsed@, 0) == self@.after_keys(parsed@, i as int),
            decreases parsed@.len() - i,
        {
            let key = parsed[i];
            let ghost before = self@;
            match key.code {
                Code::Named(Named::Esc) => {
                    return Outcome::Cancelled;
                },
                Code::Named(Named::Enter) => {
                    return match self.selection() {
                        Some(choice) => Outcome::Chose(choice.clone()),
                        None => Outcome::Cancelled,
                    };
                },
                Code::Named(Named::Backspace) => {
                    self.pop_char();
                },
                Code::Named(Named::Down) => {
                    self.move_selection(true);
                },
                Code::Named(Named::Up) => {
                    self.move_selection(false);
                },
                Code::Char(c) => {
                    if key.ctrl && (c == 'n' || c == 'j') {
                        self.move_selection(true);
                    } else if key.ctrl && (c == 'p' || c == 'k') {
                        self.move_selection(false);
                    } else if key.ctrl && c == 'c' {
                        return Outcome::Cancelled;
                    } else {
                        match key.as_text() {
                            Some(ch) => self.push_char(ch),
                            None => {},
                        }
                    }
                },
                _ => {},
            }
            assert(before.after_key(key).1 is None);
            assert(self@ == before.after_key(key).0);
            i = i + 1;
        }
        Outcome::Open
    }

    /// The visible window onto the survivors. The match positions travel
    /// with each row: a surface that cannot show why a row matched is a list
    /// rather than a picker.
    pub fn visible(&self) -> (rows: Vec<RowInput>)
        requires
            self.inv(),
        ensures
            rows@.map_values(|r: RowInput| row_model(r)) == visible_rows(self@),
    {
        proof {
            self.lemma_survivors();
        }
        let start = self.offset();
        let n = self.survivors.len();
        let end = if start < n && n - start > self.visible_rows { start + self.visible_rows } else { n };
        let ghost want = visible_rows(self@);
        let mut out: Vec<RowInput> = Vec::new();
        let mut row = start;
        while row < end
            invariant
                self.inv(),
                start == self@.offset(),
                n == self.survivors@.len(),
                start <= row <= end || (start >= end && row == start),
                end <= n,
                end == if start + self@.rows < n { start + self@.rows } else { n as int },
                want == visible_rows(self@),
                out@.len() == row - start,
                forall|k: int| 0 <= k < out@.len() ==> #[trigger] row_model(out@[k]) == want[k],
                forall|r: int| 0 <= r < self.survivors@.len() ==> 0 <= #[trigger] self.survivors@[r] < self.corpus@.len(),
                self.chars@.map_values(|v: Vec<char>| v@) == strings(self.corpus@),
            decreases end - row,
        {
            let index = self.survivors[row];
            assert(indices(self.survivors@)[row as int] == index as int);
            assert(self@.corpus[index as int] == self.chars@[index as int]@);
            let found = find_positions(&self.chars[index], &self.query);
            proof {
                lemma_survivor_matches(strings(self.corpus@), self.query@, 0, row as int);
            }
            let positions = match found {
                Some(p) => p,
                None => Vec::new(),
            };
            out.push(RowInput { text: self.corpus[index].clone(), positions, selected: row == self.selected });
            row = row + 1;
        }
        proof {
            assert(out@.map_values(|r: RowInput| row_model(r)) =~= want);
        }
        out
    }
}

/// The survivors lie between `k` and the end of the corpus.
proof fn lemma_matched_in_range(corpus: Seq<Seq<char>>, query: Seq<char>, k: int)
    requires
        0 <= k,
    ensures
        forall|r: int| 0 <= r < matched_from(corpus, query, k).len()
            ==> k <= #[trigger] matched_from(corpus, query, k)[r] < corpus.len(),
    decreases corpus.len() - k,
{
    if k < corpus.len() {
        lemma_matched_in_range(corpus, query, k + 1);
        let head: Seq<int> = if positions(corpus[k], query) is Some { seq![k] } else { Seq::empty() };
        let rest = matched_from(corpus, query, k + 1);
        assert forall|r: int| 0 <= r < matched_from(corpus, query, k).len()
            implies k <= #[trigger] matched_from(corpus, query, k)[r] < corpus.len() by {
            if r >= head.len() {
                assert(matched_from(corpus, query, k)[r] == rest[r - head.len()]);
            }
        }
    }
}

/// Every survivor matches the query.
proof fn lemma_survivor_matches(corpus: Seq<Seq<char>>, query: Seq<char>, k: int, r: int)
    requires
        0 <= k,
        0 <= r < matched_from(corpus, query, k).len(),
    ensures
        positions(corpus[matched_from(corpus, query, k)[r]], query) is Some,
    decreases corpus.len() - k,
{
    if k < corpus.len() {
        let head: Seq<int> = if positions(corpus[k], query) is Some { seq![k] } else { Seq::empty() };
        let rest = matched_from(corpus, query, k + 1);
        if r >= head.len() {
            assert(matched_from(corpus, query, k)[r] == rest[r - head.len()]);
            lemma_survivor_matches(corpus, query, k + 1, r - head.len());
        }
    }
}

/// `idx` places the characters of `query` from `q` on, in order, on
/// characters of `text` at `i` or later that equal them ignoring ASCII case.
pub open spec fn fits_from(text: Seq<char>, query: Seq<char>, q: int, idx: Seq<int>, i: int) -> bool {
    &&& idx.len() == query.len() - q
    &&& forall|j: int| 0 <= j < idx.len() ==> i <= #[trigger] idx[j] < text.len() && fold(text[idx[j]]) == fold(query[q + j])
    &&& forall|a: int, b: int| 0 <= a < b < idx.len() ==> #[trigger] idx[a] < #[trigger] idx[b]
}

/// The query's characters appear in `text` in order, ignoring ASCII case.
pub open spec fn holds_query(text: Seq<char>, query: Seq<char>) -> bool {
    exists|idx: Seq<int>| #[trigger] fits_from(text, query, 0, idx, 0)
}

proof fn lemma_positions_sound(text: Seq<char>, query: Seq<char>, i: int, q: int)
    requires
        0 <= i,
        0 <= q <= query.len(),
        positions_from(text, query, i, q) is Some,
    ensures
        fits_from(text, query, q, positions_from(text, query, i, q)->0, i),
    decreases text.len() - i,
{
    if q < query.len() {
        if fold(text[i]) == fold(query[q]) {
            lemma_positions_sound(text, query, i + 1, q + 1);
            let rest = positions_from(text, query, i + 1, q + 1)->0;
            let p = seq![i] + rest;
            assert(positions_from(text, query, i, q)->0 == p);
            assert forall|j: int| 0 <= j < p.len() implies i <= #[trigger] p[j] < text.len() && fold(text[p[j]]) == fold(query[q + j]) by {
                if j > 0 {
                    assert(p[j] == rest[j - 1]);
                }
            }
            assert forall|a: int, b: int| 0 <= a < b < p.len() implies #[trigger] p[a] < #[trigger] p[b] by {
                assert(p[b] == rest[b - 1]);
                if a > 0 {
                    assert(p[a] == rest[a - 1]);
                }
            }
        } else {
            lemma_positions_sound(text, query, i + 1, q);
        }
    } else {
        assert(positions_from(text, query, i, q)->0 =~= Seq::<int>::empty());
    }
}

proof fn lemma_positions_complete(text: Seq<char>, query: Seq<char>, i: int, q: int, idx: Seq<int>)
    requires
        0 <= i,
        0 <= q <= query.len(),
        fits_from(text, query, q, idx, i),
    ensures
        positions_from(text, query, i, q) is Some,
    decreases text.len() - i,
{
    if q < query.len() {
        assert(i <= idx[0] < text.len());
        if fold(text[i]) == fold(query[q]) {
            let rest = idx.drop_first();
            assert forall|j: int| 0 <= j < rest.len() implies i + 1 <= #[trigger] rest[j] < text.len() && fold(text[rest[j]]) == fold(query[q + 1 + j]) by {
                assert(rest[j] == idx[j + 1]);
                assert(idx[0] < idx[j + 1]);
            }
            assert forall|a: int, b: int| 0 <= a < b < rest.len() implies #[trigger] rest[a] < #[trigger] rest[b] by {
                assert(idx[a + 1] < idx[b + 1]);
            }
            lemma_positions_complete(text, query, i + 1, q + 1, rest);
        } else {
            assert(idx[0] != i);
            lemma_positions_complete(text, query, i + 1, q, idx);
        }
    }
}

proof fn lemma_matching_candidate_survives(corpus: Seq<Seq<char>>, query: Seq<char>, k: int, j: int)
    requires
        0 <= k <= j < corpus.len(),
        positions(corpus[j], query) is Some,
    ensures
        matched_from(corpus, query, k).contains(j),
    decreases j - k,
{
    let head: Seq<int> = if positions(corpus[k], query) is Some { seq![k] } else { Seq::empty() };
    let rest = matched_from(corpus, query, k + 1);
    assert(matched_from(corpus, query, k) == head + rest);
    if k == j {
        assert((head + rest)[0] == j);
    } else {
        lemma_matching_candidate_survives(corpus, query, k + 1, j);
        let r = choose|r: int| 0 <= r < rest.len() && rest[r] == j;
        assert((head + rest)[head.len() + r] == j);
    }
}

/// The picker keeps exactly the candidates that hold the query: those in
/// which the query's characters appear in order, ignoring ASCII case.
pub proof fn law_a_candidate_survives_when_it_holds_the_query(corpus: Seq<Seq<char>>, query: Seq<char>, j: int)
    requires
        0 <= j < corpus.len(),
    ensures
        matched(corpus, query).contains(j) <==> holds_query(corpus[j], query),
{
    if holds_query(corpus[j], query) {
        let idx = choose|idx: Seq<int>| #[trigger] fits_from(corpus[j], query, 0, idx, 0);
        lemma_positions_complete(corpus[j], query, 0, 0, idx);
        lemma_matching_candidate_survives(corpus, query, 0, j);
    }
    if matched(corpus, query).contains(j) {
        let r = choose|r: int| 0 <= r < matched(corpus, query).len() && matched(corpus, query)[r] == j;
        lemma_survivor_matches(corpus, query, 0, r);
        lemma_positions_sound(corpus[j], query, 0, 0);
        let p = positions(corpus[j], query)->0;
        assert(fits_from(corpus[j], query, 0, p, 0));
    }
}

/// Typing narrows the list: a candidate that survives a longer query
/// survived the query before the last character was typed.
pub proof fn law_typing_narrows_the_survivors(corpus: Seq<Seq<char>>, query: Seq<char>, ch: char, j: int)
    requires
        0 <= j < corpus.len(),
        matched(corpus, query.push(ch)).contains(j),
    ensures
        matched(corpus, query).contains(j),
{
    law_a_candidate_survives_when_it_holds_the_query(corpus, query.push(ch), j);
    let idx = choose|idx: Seq<int>| #[trigger] fits_from(corpus[j], query.push(ch), 0, idx, 0);
    let shorter = idx.drop_last();
    assert forall|k: int| 0 <= k < shorter.len() implies 0 <= #[trigger] shorter[k] < corpus[j].len() && fold(corpus[j][shorter[k]]) == fold(query[0 + k]) by {
        assert(shorter[k] == idx[k]);
        assert(query.push(ch)[0 + k] == query[k]);
    }
    assert forall|a: int, b: int| 0 <= a < b < shorter.len() implies #[trigger] shorter[a] < #[trigger] shorter[b] by {
        assert(idx[a] < idx[b]);
    }
    assert(fits_from(corpus[j], query, 0, shorter, 0));
    law_a_candidate_survives_when_it_holds_the_query(corpus, query, j);
}

fn copy_chars(v: &Vec<char>) -> (r: Vec<char>)
    ensures
        r@ == v@,
{
    let mut r: Vec<char> = Vec::new();
    let mut i: usize = 0;
    while i < v.len()
        invariant
            i <= v@.len(),
            r@ == v@.take(i as int),
        decreases v@.len() - i,
    {
        r.push(v[i]);
        i = i + 1;
        assert(r@ =~= v@.take(i as int));
    }
    assert(v@.take(i as int) =~= v@);
    r
}

// ---------------------------------------------------------------------------
// Candidates walked from a directory
// ---------------------------------------------------------------------------

/// `a` sorts before `b`: character by character, then the shorter first.
/// For UTF-8 text this is the byte order `String` compares by.
pub open spec fn lex_lt(a: Seq<char>, b: Seq<char>) -> bool
    decreases a.len(),
{
    if a.len() == 0 {
        b.len() > 0
    } else if b.len() == 0 {
        false
    } else if a[0] != b[0] {
        a[0] < b[0]
    } else {
        lex_lt(a.drop_first(), b.drop_first())
    }
}

pub open spec fn lex_le(a: Seq<char>, b: Seq<char>) -> bool {
    a == b || lex_lt(a, b)
}

pub open spec fn sorted(s: Seq<Seq<char>>) -> bool {
    forall|i: int, j: int| 0 <= i < j < s.len() ==> lex_le(#[trigger] s[i], #[trigger] s[j])
}

proof fn lemma_lex_total(a: Seq<char>, b: Seq<char>)
    ensures
        !lex_lt(a, b) ==> lex_le(b, a),
    decreases a.len(),
{
    if a.len() > 0 && b.len() > 0 && a[0] == b[0] {
        lemma_lex_total(a.drop_first(), b.drop_first());
        if !lex_lt(a, b) && a != b {
            assert(a =~= seq![a[0]] + a.drop_first());
            assert(b =~= seq![b[0]] + b.drop_first());
        }
    } else if a.len() == 0 && b.len() == 0 {
        assert(a =~= b);
    } else if a.len() > 0 && b.len() > 0 {
        assert(a[0] != b[0]);
    }
}

proof fn lemma_lex_trans(a: Seq<char>, b: Seq<char>, c: Seq<char>)
    requires
        lex_le(a, b),
        lex_le(b, c),
    ensures
        lex_le(a, c),
    decreases a.len(),
{
    if a == b || b == c {
    } else if a.len() > 0 && b.len() > 0 && c.len() > 0 && a[0] == b[0] && b[0] == c[0] {
        lemma_lex_trans(a.drop_first(), b.drop_first(), c.drop_first());
        if a.drop_first() == c.drop_first() {
            assert(a =~= seq![a[0]] + a.drop_first());
            assert(c =~= seq![c[0]] + c.drop_first());
        }
    }
}

fn lex_less(a: &Vec<char>, b: &Vec<char>) -> (r: bool)
    ensures
        r == lex_lt(a@, b@),
{
    let mut i: usize = 0;
    assert(a@.skip(0) =~= a@ && b@.skip(0) =~= b@);
    while i < a.len() && i < b.len() && a[i] == b[i]
        invariant
            i <= a@.len(),
            i <= b@.len(),
            lex_lt(a@, b@) == lex_lt(a@.skip(i as int), b@.skip(i as int)),
        decreases a@.len() - i,
    {
        proof {
            assert(a@.skip(i as int).drop_first() =~= a@.skip(i + 1));
            assert(b@.skip(i as int).drop_first() =~= b@.skip(i + 1));
        }
        i = i + 1;
    }
    if i < a.len() && i < b.len() {
        assert(a@.skip(i as int)[0] == a@[i as int]);
        assert(b@.skip(i as int)[0] == b@[i as int]);
        a[i] < b[i]
    } else {
        i == a.len() && i < b.len()
    }
}

/// `items` in ascending order.
pub(crate) fn sort_strings(items: Vec<String>) -> (r: Vec<String>)
    ensures
        sorted(strings(r@)),
        strings(r@).to_multiset() == strings(items@).to_multiset(),
{
    let mut out: Vec<String> = Vec::new();
    let mut keys: Vec<Vec<char>> = Vec::new();
    let mut k: usize = 0;
    assert(strings(out@) =~= strings(items@.take(0)));
    while k < items.len()
        invariant
            k <= items@.len(),
            keys@.len() == out@.len(),
            forall|q: int| 0 <= q < out@.len() ==> #[trigger] keys@[q]@ == out@[q]@,
            sorted(strings(out@)),
            strings(out@).to_multiset() == strings(items@.take(k as int)).to_multiset(),
        decreases items@.len() - k,
    {
        let x = items[k].clone();
        let xk = chars_of(x.as_str());
        let mut p: usize = 0;
        while p < out.len() && !lex_less(&xk, &keys[p])
            invariant
                p <= out@.len(),
                keys@.len() == out@.len(),
                forall|q: int| 0 <= q < out@.len() ==> #[trigger] keys@[q]@ == out@[q]@,
                forall|q: int| 0 <= q < p ==> !lex_lt(xk@, #[trigger] keys@[q]@),
            decreases out@.len() - p,
        {
            p = p + 1;
        }
        let ghost before = strings(out@);
        proof {
            assert forall|q: int| 0 <= q < p implies lex_le(#[trigger] before[q], xk@) by {
                assert(before[q] == keys@[q]@);
                lemma_lex_total(xk@, keys@[q]@);
            }
            if p < out@.len() {
                assert(lex_lt(xk@, before[p as int]));
                assert forall|q: int| p <= q < before.len() implies lex_le(xk@, #[trigger] before[q]) by {
                    if q > p {
                        lemma_lex_trans(xk@, before[p as int], before[q]);
                    }
                }
            }
        }
        out.insert(p, x);
        keys.insert(p, xk);
        proof {
            let now = strings(out@);
            assert(now =~= before.insert(p as int, xk@));
            assert forall|i: int, j: int| 0 <= i < j < now.len() implies lex_le(#[trigger] now[i], #[trigger] now[j]) by {
                if j < p {
                    assert(now[i] == before[i] && now[j] == before[j]);
                } else if j == p {
                    assert(now[i] == before[i]);
                } else if i == p {
                    assert(now[j] == before[j - 1]);
                } else if i < p {
                    assert(now[i] == before[i] && now[j] == before[j - 1]);
                    lemma_lex_trans(before[i], xk@, before[j - 1]);
                } else {
                    assert(now[i] == before[i - 1] && now[j] == before[j - 1]);
                }
            }
            assert(items@.take(k + 1) =~= items@.take(k as int).push(items@[k as int]));
            assert(strings(items@.take(k + 1)) =~= strings(items@.take(k as int)).push(xk@));
            vstd::seq_lib::to_multiset_insert(before, p as int, xk@);
            vstd::seq_lib::to_multiset_build(strings(items@.take(k as int)), xk@);
            assert forall|q: int| 0 <= q < out@.len() implies #[trigger] keys@[q]@ == out@[q]@ by {
                assert(now[q] == out@[q]@);
            }
        }
        k = k + 1;
    }
    proof {
        assert(items@.take(k as int) =~= items@);
    }
    out
}

/// Whether a walked file is a note.
pub open spec fn is_note_path(path: Seq<char>) -> bool {
    path.len() >= 3 && path.skip(path.len() - 3) == ".md"@
        || path.len() >= 9 && path.skip(path.len() - 9) == ".markdown"@
}

fn ends_with(text: &Vec<char>, suffix: &str) -> (r: bool)
    ensures
        r == (text@.len() >= suffix@.len() && text@.skip(text@.len() - suffix@.len()) == suffix@),
{
    let tail = chars_of(suffix);
    if tail.len() > text.len() {
        return false;
    }
    let n = text.len();
    let start = n - tail.len();
    let mut i: usize = 0;
    while i < tail.len()
        invariant
            n == text@.len(),
            tail@ == suffix@,
            start + tail@.len() == n,
            i <= tail@.len(),
            forall|q: int| 0 <= q < i ==> text@[start + q] == tail@[q],
        decreases tail@.len() - i,
    {
        if text[start + i] != tail[i] {
            assert(text@.skip(start as int)[i as int] == text@[start + i]);
            assert(text@.skip(text@.len() - suffix@.len()) != suffix@);
            return false;
        }
        i = i + 1;
    }
    assert(text@.skip(start as int) =~= tail@);
    true
}

/// Candidates walked from a directory: markdown notes first, then everything
/// else, each group in ascending order.
pub struct TreeSource {
    root: String,
    entries: Vec<String>,
}

/// The order a walk's files are offered in.
pub open spec fn offered(found: Seq<Seq<char>>, entries: Seq<Seq<char>>) -> bool {
    exists|notes: Seq<Seq<char>>, files: Seq<Seq<char>>| {
        &&& entries == notes + files
        &&& sorted(notes)
        &&& sorted(files)
        &&& notes.to_multiset() == found.filter(|p: Seq<char>| is_note_path(p)).to_multiset()
        &&& files.to_multiset() == found.filter(|p: Seq<char>| !is_note_path(p)).to_multiset()
    }
}

proof fn lemma_lex_lt_asym(a: Seq<char>, b: Seq<char>)
    ensures
        lex_lt(a, b) ==> !lex_lt(b, a) && a != b,
    decreases a.len(),
{
    if a.len() > 0 && b.len() > 0 && a[0] == b[0] {
        lemma_lex_lt_asym(a.drop_first(), b.drop_first());
        if a == b {
            assert(a.drop_first() == b.drop_first());
        }
    }
}

/// Two sorted lists of the same strings are the same list.
proof fn lemma_sorted_unique(s: Seq<Seq<char>>, t: Seq<Seq<char>>)
    requires
        sorted(s),
        sorted(t),
        s.to_multiset() == t.to_multiset(),
    ensures
        s == t,
    decreases s.len(),
{
    broadcast use vstd::seq_lib::to_multiset_len, vstd::seq_lib::to_multiset_contains, vstd::seq_lib::to_multiset_remove;
    s.to_multiset_ensures();
    t.to_multiset_ensures();
    assert(s.len() == t.len());
    if s.len() > 0 {
        assert(s.to_multiset().count(s[0]) > 0);
        assert(t.contains(s[0]));
        let j = choose|j: int| 0 <= j < t.len() && t[j] == s[0];
        assert(t.to_multiset().count(t[0]) > 0);
        assert(s.contains(t[0]));
        let i = choose|i: int| 0 <= i < s.len() && s[i] == t[0];
        if j > 0 {
            assert(lex_le(t[0], t[j]));
        }
        if i > 0 {
            assert(lex_le(s[0], s[i]));
        }
        lemma_lex_lt_asym(s[0], t[0]);
        assert(s[0] == t[0]);
        assert(s.remove(0) =~= s.drop_first());
        assert(t.remove(0) =~= t.drop_first());
        assert(s.drop_first().to_multiset() == t.drop_first().to_multiset());
        assert(sorted(s.drop_first())) by {
            assert forall|a: int, b: int| 0 <= a < b < s.drop_first().len() implies lex_le(
                #[trigger] s.drop_first()[a],
                #[trigger] s.drop_first()[b],
            ) by {
                assert(lex_le(s[a + 1], s[b + 1]));
            }
        }
        assert(sorted(t.drop_first())) by {
            assert forall|a: int, b: int| 0 <= a < b < t.drop_first().len() implies lex_le(
                #[trigger] t.drop_first()[a],
                #[trigger] t.drop_first()[b],
            ) by {
                assert(lex_le(t[a + 1], t[b + 1]));
            }
        }
        lemma_sorted_unique(s.drop_first(), t.drop_first());
        assert(s =~= seq![s[0]] + s.drop_first());
        assert(t =~= seq![t[0]] + t.drop_first());
    } else {
        assert(s =~= t);
    }
}

/// A walk's files have one order to be offered in: the notes in ascending
/// order, then the other files in ascending order. Two orders offered for
/// the same walk are the same.
pub proof fn law_a_walk_is_offered_in_one_order(found: Seq<Seq<char>>, a: Seq<Seq<char>>, b: Seq<Seq<char>>)
    requires
        offered(found, a),
        offered(found, b),
    ensures
        a == b,
{
    let (n1, f1) = choose|notes: Seq<Seq<char>>, files: Seq<Seq<char>>| {
        &&& a == notes + files
        &&& sorted(notes)
        &&& sorted(files)
        &&& notes.to_multiset() == found.filter(|p: Seq<char>| is_note_path(p)).to_multiset()
        &&& files.to_multiset() == found.filter(|p: Seq<char>| !is_note_path(p)).to_multiset()
    };
    let (n2, f2) = choose|notes: Seq<Seq<char>>, files: Seq<Seq<char>>| {
        &&& b == notes + files
        &&& sorted(notes)
        &&& sorted(files)
        &&& notes.to_multiset() == found.filter(|p: Seq<char>| is_note_path(p)).to_multiset()
        &&& files.to_multiset() == found.filter(|p: Seq<char>| !is_note_path(p)).to_multiset()
    };
    lemma_sorted_unique(n1, n2);
    lemma_sorted_unique(f1, f2);
}

impl View for TreeSource {
    type V = (Seq<char>, Seq<Seq<char>>);

    /// The directory's name and the candidates in the order offered.
    closed spec fn view(&self) -> (Seq<char>, Seq<Seq<char>>) {
        (self.root@, strings(self.entries@))
    }
}

impl TreeSource {
    /// The files a walk of the directory named `root` found, given relative
    /// to it.
    pub fn new(root: String, found: Vec<String>) -> (t: TreeSource)
        ensures
            t@.0 == root@,
            offered(strings(found@), t@.1),
    {
        let mut notes: Vec<String> = Vec::new();
        let mut files: Vec<String> = Vec::new();
        let ghost all = strings(found@);
        let mut k: usize = 0;
        while k < found.len()
            invariant
                all == strings(found@),
                k <= found@.len(),
                strings(notes@) == all.take(k as int).filter(|p: Seq<char>| is_note_path(p)),
                strings(files@) == all.take(k as int).filter(|p: Seq<char>| !is_note_path(p)),
            decreases found@.len() - k,
        {
            let path = found[k].clone();
            let chars = chars_of(path.as_str());
            let note = ends_with(&chars, ".md") || ends_with(&chars, ".markdown");
            proof {
                reveal_strlit(".md");
                reveal_strlit(".markdown");
                assert(all.take(k + 1) =~= all.take(k as int).push(path@));
                all.take(k as int).lemma_filter_push(path@, |p: Seq<char>| is_note_path(p));
                all.take(k as int).lemma_filter_push(path@, |p: Seq<char>| !is_note_path(p));
            }
            if note {
                notes.push(path);
                assert(strings(notes@) =~= all.take(k as int).filter(|p: Seq<char>| is_note_path(p)).push(chars@));
            } else {
                files.push(path);
                assert(strings(files@) =~= all.take(k as int).filter(|p: Seq<char>| !is_note_path(p)).push(chars@));
            }
            k = k + 1;
        }
        let mut sorted_notes = sort_strings(notes);
        let sorted_files = sort_strings(files);
        let ghost n = strings(sorted_notes@);
        let ghost f = strings(sorted_files@);
        let mut m: usize = 0;
        let ghost start = sorted_notes@;
        while m < sorted_files.len()
            invariant
                m <= sorted_files@.len(),
                sorted_notes@ == start + sorted_files@.take(m as int),
            decreases sorted_files@.len() - m,
        {
            sorted_notes.push(sorted_files[m].clone());
            proof {
                assert(sorted_files@.take(m + 1) =~= sorted_files@.take(m as int).push(sorted_files@[m as int]));
            }
            m = m + 1;
            assert(sorted_notes@ =~= start + sorted_files@.take(m as int));
        }
        proof {
            assert(all.take(k as int) =~= all);
            assert(sorted_files@.take(m as int) =~= sorted_files@);
            assert(strings(sorted_notes@) =~= n + f);
        }
        TreeSource { root, entries: sorted_notes }
    }
}

impl Source for TreeSource {
    /// The candidates, element for element the source's entries in the
    /// order it offers them.
    fn candidates(&self) -> (r: Vec<String>)
        ensures
            strings(r@) == self@.1,
    {
        let r = self.entries.clone();
        proof {
            assert(strings(r@) =~= strings(self.entries@));
        }
        r
    }

    fn label(&self) -> (s: &str)
        ensures
            s@ == self@.0,
    {
        self.root.as_str()
    }
}

} // verus!
