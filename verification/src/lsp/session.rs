//! The completion menu a language server's answer opens, and the place a
//! definition request's answer names.

use vstd::prelude::*;
use crate::json::Json;
use crate::lsp::types::{Diagnostic, Location, Position, Range, TextEdit};
use crate::json::{JsonNumber, lookup};
use crate::grep::{field, member};
use crate::lsp::jsonrpc::Id;
use crate::text::{concat, same_text};

verus! {

/// One completion a server offered.
#[derive(Debug, PartialEq, Eq)]
pub struct CompletionItem {
    pub label: String,
    pub kind: Option<u8>,
    pub detail: Option<String>,
    pub documentation: Option<Json>,
    pub insert_text: Option<String>,
    pub text_edit: Option<TextEdit>,
}

/// The completions on screen, which of them is selected, and where.
#[derive(Debug, PartialEq, Eq)]
pub struct CompletionMenu {
    pub items: Vec<CompletionItem>,
    pub selected: Option<usize>,
    pub row: usize,
    pub col: usize,
    pub grid: u64,
}

/// The selection after stepping forward: the first item from none, the
/// next one otherwise, round to the first after the last.
pub open spec fn next_selection(selected: Option<usize>, n: nat) -> Option<usize> {
    if n == 0 {
        None
    } else {
        Some(match selected {
            None => 0usize,
            Some(i) => ((i + 1) % (n as int)) as usize,
        })
    }
}

/// The selection after stepping back: the last item from none or the
/// first, the one before otherwise.
pub open spec fn prev_selection(selected: Option<usize>, n: nat) -> Option<usize> {
    if n == 0 {
        None
    } else {
        Some(match selected {
            None => (n - 1) as usize,
            Some(i) => if i == 0 { (n - 1) as usize } else { (i - 1) as usize },
        })
    }
}

impl CompletionMenu {
    pub fn select_next(&mut self)
        requires
            old(self).selected != Some(usize::MAX),
        ensures
            final(self).selected == next_selection(old(self).selected, old(self).items@.len()),
            final(self).items == old(self).items,
            final(self).row == old(self).row,
            final(self).col == old(self).col,
            final(self).grid == old(self).grid,
    {
        let n = self.items.len();
        if n == 0 {
            self.selected = None;
            return;
        }
        self.selected = Some(match self.selected {
            None => 0,
            Some(i) => (i + 1) % n,
        });
    }

    pub fn select_prev(&mut self)
        ensures
            final(self).selected == prev_selection(old(self).selected, old(self).items@.len()),
            final(self).items == old(self).items,
            final(self).row == old(self).row,
            final(self).col == old(self).col,
            final(self).grid == old(self).grid,
    {
        let n = self.items.len();
        if n == 0 {
            self.selected = None;
            return;
        }
        self.selected = Some(match self.selected {
            Some(0) | None => n - 1,
            Some(i) => i - 1,
        });
    }
}

/// Stepping forward then back returns to an item that was selected, and
/// back then forward likewise.
pub proof fn law_selection_steps_undo(selected: usize, n: nat)
    requires
        selected < n,
        n <= usize::MAX,
    ensures
        prev_selection(next_selection(Some(selected), n), n) == Some(selected),
        next_selection(prev_selection(Some(selected), n), n) == Some(selected),
{
    if selected + 1 < n {
        assert((selected + 1) % (n as int) == selected + 1) by (nonlinear_arith)
            requires selected + 1 < n;
    } else {
        assert((selected + 1) % (n as int) == 0) by (nonlinear_arith)
            requires selected + 1 == n;
    }
    if selected > 0 {
        assert(((selected - 1) + 1) % (n as int) == selected) by (nonlinear_arith)
            requires 0 < selected < n;
    } else {
        assert(((n - 1) + 1) % (n as int) == 0) by (nonlinear_arith)
            requires n > 0;
    }
}

/// A count as a position field takes it: a non-negative integer that fits.
pub open spec fn count_of(v: Json) -> Option<usize> {
    match v {
        Json::Number(JsonNumber::PosInt(n)) => if n <= usize::MAX { Some(n as usize) } else { None },
        _ => None,
    }
}

/// Two fields read as a struct is read from a value: from an object by
/// their names, or from an array of exactly two elements in order.
pub open spec fn pair_of(v: Json, a: Seq<char>, b: Seq<char>) -> Option<(Json, Json)> {
    match v {
        Json::Object(es) => match (lookup(es@, a), lookup(es@, b)) {
            (Some(x), Some(y)) => Some((x, y)),
            _ => None,
        },
        Json::Array(items) => if items@.len() == 2 { Some((items@[0], items@[1])) } else { None },
        _ => None,
    }
}

pub open spec fn position_of(v: Json) -> Option<Position> {
    match pair_of(v, "line"@, "character"@) {
        Some((l, c)) => match (count_of(l), count_of(c)) {
            (Some(line), Some(character)) => Some(Position { line, character }),
            _ => None,
        },
        None => None,
    }
}

pub open spec fn range_of(v: Json) -> Option<Range> {
    match pair_of(v, "start"@, "end"@) {
        Some((s, e)) => match (position_of(s), position_of(e)) {
            (Some(start), Some(end)) => Some(Range { start, end }),
            _ => None,
        },
        None => None,
    }
}

/// A location as values: its URI's text and its range.
pub open spec fn location_of(v: Json) -> Option<(Seq<char>, Range)> {
    match pair_of(v, "uri"@, "range"@) {
        Some((u, r)) => match (u, range_of(r)) {
            (Json::String(t), Some(range)) => Some((t@, range)),
            _ => None,
        },
        None => None,
    }
}

/// The place a definition answer names: none for `null`; the answer
/// itself when it is a location; otherwise the first element of an array
/// of them, when that is one.
pub open spec fn definition_of(v: Json) -> Option<(Seq<char>, Range)> {
    if v is Null {
        None
    } else if location_of(v) is Some {
        location_of(v)
    } else {
        match v {
            Json::Array(items) => if items@.len() > 0 { location_of(items@[0]) } else { None },
            _ => None,
        }
    }
}

fn pair_at<'a>(v: &'a Json, a: &str, b: &str) -> (r: Option<(&'a Json, &'a Json)>)
    ensures
        match r {
            Some((x, y)) => pair_of(*v, a@, b@) == Some((*x, *y)),
            None => pair_of(*v, a@, b@) is None,
        },
{
    match v {
        Json::Object(_) => match (member(v, a), member(v, b)) {
            (Some(x), Some(y)) => Some((x, y)),
            _ => None,
        },
        Json::Array(items) => if items.len() == 2 { Some((&items[0], &items[1])) } else { None },
        _ => None,
    }
}

fn count_at(v: &Json) -> (r: Option<usize>)
    ensures
        r == count_of(*v),
{
    match v {
        Json::Number(JsonNumber::PosInt(n)) => if *n <= usize::MAX as u64 { Some(*n as usize) } else { None },
        _ => None,
    }
}

fn position_at(v: &Json) -> (r: Option<Position>)
    ensures
        r == position_of(*v),
{
    match pair_at(v, "line", "character") {
        Some((l, c)) => match (count_at(l), count_at(c)) {
            (Some(line), Some(character)) => Some(Position { line, character }),
            _ => None,
        },
        None => None,
    }
}

fn range_at(v: &Json) -> (r: Option<Range>)
    ensures
        r == range_of(*v),
{
    match pair_at(v, "start", "end") {
        Some((s, e)) => match (position_at(s), position_at(e)) {
            (Some(start), Some(end)) => Some(Range { start, end }),
            _ => None,
        },
        None => None,
    }
}

fn location_at(v: &Json) -> (r: Option<Location>)
    ensures
        match r {
            Some(l) => location_of(*v) == Some((l.uri@, l.range)),
            None => location_of(*v) is None,
        },
{
    match pair_at(v, "uri", "range") {
        Some((u, r)) => match (u, range_at(r)) {
            (Json::String(t), Some(range)) => Some(Location { uri: t.clone(), range }),
            _ => None,
        },
        None => None,
    }
}

/// The place a definition answer names, as `definition_of` says.
pub fn definition_location(value: &Json) -> (r: Option<Location>)
    ensures
        match r {
            Some(l) => definition_of(*value) == Some((l.uri@, l.range)),
            None => definition_of(*value) is None,
        },
{
    if let Json::Null = value {
        return None;
    }
    match location_at(value) {
        Some(l) => Some(l),
        None => match value {
            Json::Array(items) => if items.len() > 0 { location_at(&items[0]) } else { None },
            _ => None,
        },
    }
}

/// What a definition answer leaves to say: that nothing was found, when
/// it names no place.
pub fn definition_message(found: &Option<Location>) -> (m: Option<String>)
    ensures
        found is None ==> (m matches Some(t) && t@ == "LSP definition not found"@),
        found is Some ==> m is None,
{
    match found {
        Some(_) => None,
        None => Some("LSP definition not found".to_owned()),
    }
}

/// A diagnostic as values: range, severity, source, message.
pub open spec fn diagnostic_view(d: Diagnostic) -> (Range, Option<u8>, Option<Seq<char>>, Seq<char>) {
    (d.range, d.severity, match d.source { Some(t) => Some(t@), None => None }, d.message@)
}

/// The optional severity: absent or `null` is none, an integer up to 255
/// is one; anything else fails the whole diagnostic (`None`).
pub open spec fn severity_field(v: Option<Json>) -> Option<Option<u8>> {
    match v {
        None => Some(None),
        Some(Json::Null) => Some(None),
        Some(Json::Number(JsonNumber::PosInt(n))) => if n <= 255 { Some(Some(n as u8)) } else { None },
        Some(_) => None,
    }
}

/// The optional source: absent or `null` is none, a string is one;
/// anything else fails the whole diagnostic (`None`).
pub open spec fn source_field(v: Option<Json>) -> Option<Option<Seq<char>>> {
    match v {
        None => Some(None),
        Some(Json::Null) => Some(None),
        Some(Json::String(t)) => Some(Some(t@)),
        Some(_) => None,
    }
}

/// A diagnostic read from a value: from an object by its fields (range
/// and message required, severity and source optional, any code allowed),
/// or from an array of exactly its five fields in order.
pub open spec fn diagnostic_of(v: Json) -> Option<(Range, Option<u8>, Option<Seq<char>>, Seq<char>)> {
    let fields: Option<(Option<Json>, Option<Json>, Option<Json>, Option<Json>)> = match v {
        Json::Object(es) => Some((lookup(es@, "range"@), lookup(es@, "severity"@), lookup(es@, "source"@), lookup(es@, "message"@))),
        Json::Array(items) => if items@.len() == 5 {
            Some((Some(items@[0]), Some(items@[1]), Some(items@[3]), Some(items@[4])))
        } else {
            None
        },
        _ => None,
    };
    match fields {
        Some((Some(r), sev, src, Some(Json::String(m)))) => match (range_of(r), severity_field(sev), source_field(src)) {
            (Some(range), Some(severity), Some(source)) => Some((range, severity, source, m@)),
            _ => None,
        },
        _ => None,
    }
}

/// Every element of `items` read as a diagnostic, if each one is.
pub open spec fn diagnostics_in(items: Seq<Json>) -> Option<Seq<(Range, Option<u8>, Option<Seq<char>>, Seq<char>)>>
    decreases items.len(),
{
    if items.len() == 0 {
        Some(Seq::empty())
    } else {
        match (diagnostics_in(items.drop_last()), diagnostic_of(items.last())) {
            (Some(ds), Some(d)) => Some(ds.push(d)),
            _ => None,
        }
    }
}

/// What a `publishDiagnostics` notification reports: its URI, and its
/// diagnostics when they all read as such (none otherwise); nothing when it
/// names no URI.
pub open spec fn published(params: Json) -> Option<(Seq<char>, Seq<(Range, Option<u8>, Option<Seq<char>>, Seq<char>)>)> {
    match field(params, "uri"@) {
        Some(Json::String(u)) => Some((u@, match field(params, "diagnostics"@) {
            Some(Json::Array(items)) => match diagnostics_in(items@) {
                Some(ds) => ds,
                None => Seq::empty(),
            },
            _ => Seq::empty(),
        })),
        _ => None,
    }
}

fn severity_at(v: Option<&Json>) -> (r: Option<Option<u8>>)
    ensures
        r == severity_field(match v { Some(j) => Some(*j), None => None }),
{
    match v {
        None => Some(None),
        Some(Json::Null) => Some(None),
        Some(Json::Number(JsonNumber::PosInt(n))) => if *n <= 255 { Some(Some(*n as u8)) } else { None },
        Some(_) => None,
    }
}

fn source_at(v: Option<&Json>) -> (r: Option<Option<String>>)
    ensures
        match r {
            Some(Some(t)) => source_field(match v { Some(j) => Some(*j), None => None }) == Some(Some(t@)),
            Some(None) => source_field(match v { Some(j) => Some(*j), None => None }) == Some(None::<Seq<char>>),
            None => source_field(match v { Some(j) => Some(*j), None => None }) is None,
        },
{
    match v {
        None => Some(None),
        Some(Json::Null) => Some(None),
        Some(Json::String(t)) => Some(Some(t.clone())),
        Some(_) => None,
    }
}

fn diagnostic_at(v: &Json) -> (r: Option<Diagnostic>)
    ensures
        match r {
            Some(d) => diagnostic_of(*v) == Some(diagnostic_view(d)),
            None => diagnostic_of(*v) is None,
        },
{
    let (range, sev, src, msg): (Option<&Json>, Option<&Json>, Option<&Json>, Option<&Json>) = match v {
        Json::Object(_) => (member(v, "range"), member(v, "severity"), member(v, "source"), member(v, "message")),
        Json::Array(items) => if items.len() == 5 {
            (Some(&items[0]), Some(&items[1]), Some(&items[3]), Some(&items[4]))
        } else {
            return None;
        },
        _ => {
            return None;
        },
    };
    let r = match range {
        Some(r) => r,
        None => {
            return None;
        },
    };
    let message = match msg {
        Some(Json::String(m)) => m,
        _ => {
            return None;
        },
    };
    match (range_at(r), severity_at(sev), source_at(src)) {
        (Some(range), Some(severity), Some(source)) => Some(Diagnostic { range, severity, source, message: message.clone() }),
        _ => None,
    }
}

/// What a `publishDiagnostics` notification reports, as `published` says.
pub fn publish_diagnostics(params: &Json) -> (r: Option<(String, Vec<Diagnostic>)>)
    ensures
        match r {
            Some((uri, ds)) => published(*params) == Some((uri@, ds@.map_values(|d: Diagnostic| diagnostic_view(d)))),
            None => published(*params) is None,
        },
{
    let uri = match member(params, "uri") {
        Some(Json::String(u)) => u.clone(),
        _ => {
            return None;
        },
    };
    let mut out: Vec<Diagnostic> = Vec::new();
    if let Some(Json::Array(items)) = member(params, "diagnostics") {
        let mut i: usize = 0;
        let mut ok = true;
        while i < items.len()
            invariant
                i <= items@.len(),
                ok ==> diagnostics_in(items@.take(i as int)) == Some(out@.map_values(|d: Diagnostic| diagnostic_view(d))),
                !ok ==> diagnostics_in(items@.take(i as int)) is None,
            decreases items@.len() - i,
        {
            assert(items@.take(i + 1).drop_last() =~= items@.take(i as int));
            assert(items@.take(i + 1).last() == items@[i as int]);
            match diagnostic_at(&items[i]) {
                Some(d) => {
                    if ok {
                        out.push(d);
                        assert(out@.map_values(|d: Diagnostic| diagnostic_view(d)) =~= out@.drop_last().map_values(|d: Diagnostic| diagnostic_view(d)).push(diagnostic_view(d)));
                    }
                },
                None => {
                    ok = false;
                },
            }
            i = i + 1;
        }
        assert(items@.take(items@.len() as int) =~= items@);
        if !ok {
            out = Vec::new();
            assert(out@.map_values(|d: Diagnostic| diagnostic_view(d)) =~= Seq::empty());
        }
    } else {
        assert(out@.map_values(|d: Diagnostic| diagnostic_view(d)) =~= Seq::empty());
    }
    Some((uri, out))
}

} // verus!

verus! {

/// Element `i` of an array read as a struct's fields, absent past its end.
pub open spec fn nth(items: Seq<Json>, i: int) -> Option<Json> {
    if 0 <= i < items.len() {
        Some(items[i])
    } else {
        None
    }
}

/// The fields of a completion item: label, kind, detail, documentation,
/// insert text and text edit, from an object by name or from an array of
/// one to six elements in that order (missing ones absent).
pub open spec fn item_fields(v: Json) -> Option<Seq<Option<Json>>> {
    match v {
        Json::Object(es) => Some(seq![
            lookup(es@, "label"@),
            lookup(es@, "kind"@),
            lookup(es@, "detail"@),
            lookup(es@, "documentation"@),
            lookup(es@, "insertText"@),
            lookup(es@, "textEdit"@),
        ]),
        Json::Array(a) => if 1 <= a@.len() <= 6 {
            Some(seq![nth(a@, 0), nth(a@, 1), nth(a@, 2), nth(a@, 3), nth(a@, 4), nth(a@, 5)])
        } else {
            None
        },
        _ => None,
    }
}

/// A text edit read from a value: its range and its new text.
pub open spec fn text_edit_of(v: Json) -> Option<(Range, Seq<char>)> {
    match pair_of(v, "range"@, "newText"@) {
        Some((r, t)) => match (range_of(r), t) {
            (Some(range), Json::String(s)) => Some((range, s@)),
            _ => None,
        },
        None => None,
    }
}

/// An optional text edit: absent or `null` is none; anything that is no
/// text edit fails the whole item.
pub open spec fn edit_field(v: Option<Json>) -> Option<Option<(Range, Seq<char>)>> {
    match v {
        None => Some(None),
        Some(Json::Null) => Some(None),
        Some(x) => match text_edit_of(x) {
            Some(e) => Some(Some(e)),
            None => None,
        },
    }
}

/// An optional value: absent or `null` is none, any other value is kept.
pub open spec fn any_field(v: Option<Json>) -> Option<Json> {
    match v {
        Some(Json::Null) => None,
        x => x,
    }
}

/// A completion item as values.
pub type ItemView = (Seq<char>, Option<u8>, Option<Seq<char>>, Option<Json>, Option<Seq<char>>, Option<(Range, Seq<char>)>);

/// A completion item read from a value: a string label, then the optional
/// fields, each of which must read as its kind when present.
pub open spec fn item_of(v: Json) -> Option<ItemView> {
    match item_fields(v) {
        Some(f) => match (f[0], severity_field(f[1]), source_field(f[2]), source_field(f[4]), edit_field(f[5])) {
            (Some(Json::String(label)), Some(kind), Some(detail), Some(insert), Some(edit)) =>
                Some((label@, kind, detail, any_field(f[3]), insert, edit)),
            _ => None,
        },
        None => None,
    }
}

pub open spec fn item_view(c: CompletionItem) -> ItemView {
    (
        c.label@,
        c.kind,
        match c.detail { Some(t) => Some(t@), None => None },
        c.documentation,
        match c.insert_text { Some(t) => Some(t@), None => None },
        match c.text_edit { Some(e) => Some((e.range, e.new_text@)), None => None },
    )
}

/// Every element read as a completion item, if each one is.
pub open spec fn items_in(items: Seq<Json>) -> Option<Seq<ItemView>>
    decreases items.len(),
{
    if items.len() == 0 {
        Some(Seq::empty())
    } else {
        match (items_in(items.drop_last()), item_of(items.last())) {
            (Some(s), Some(i)) => Some(s.push(i)),
            _ => None,
        }
    }
}

/// The items a completion answer offers: its `items` when it is an object
/// that has them, else the answer itself; none unless that is an array of
/// items every one of which reads as one.
pub open spec fn completion_items_of(v: Json) -> Seq<ItemView> {
    let list = match v {
        Json::Object(es) => match lookup(es@, "items"@) {
            Some(x) => x,
            None => v,
        },
        _ => v,
    };
    match list {
        Json::Array(a) => match items_in(a@) {
            Some(s) => s,
            None => Seq::empty(),
        },
        _ => Seq::empty(),
    }
}

/// Where the first entry named `key` stands, if any.
fn member_index(es: &Vec<(String, Json)>, key: &str) -> (r: Option<usize>)
    ensures
        match r {
            Some(k) => k < es@.len() && lookup(es@, key@) == Some(es@[k as int].1),
            None => lookup(es@, key@) is None,
        },
{
    let mut i: usize = 0;
    assert(es@.skip(0) =~= es@);
    while i < es.len()
        invariant
            i <= es@.len(),
            lookup(es@, key@) == lookup(es@.skip(i as int), key@),
        decreases es@.len() - i,
    {
        assert(es@.skip(i as int)[0] == es@[i as int]);
        assert(es@.skip(i as int).drop_first() =~= es@.skip(i + 1));
        if crate::text::same_text(es[i].0.as_str(), key) {
            return Some(i);
        }
        i = i + 1;
    }
    None
}

fn text_opt(v: Option<&Json>) -> (r: Option<Option<String>>)
    ensures
        match r {
            Some(Some(t)) => source_field(match v { Some(j) => Some(*j), None => None }) == Some(Some(t@)),
            Some(None) => source_field(match v { Some(j) => Some(*j), None => None }) == Some(None::<Seq<char>>),
            None => source_field(match v { Some(j) => Some(*j), None => None }) is None,
        },
{
    source_at(v)
}

fn edit_at(v: Option<&Json>) -> (r: Option<Option<TextEdit>>)
    ensures
        match r {
            Some(Some(e)) => edit_field(match v { Some(j) => Some(*j), None => None }) == Some(Some((e.range, e.new_text@))),
            Some(None) => edit_field(match v { Some(j) => Some(*j), None => None }) == Some(None::<(Range, Seq<char>)>),
            None => edit_field(match v { Some(j) => Some(*j), None => None }) is None,
        },
{
    match v {
        None => Some(None),
        Some(Json::Null) => Some(None),
        Some(x) => match pair_at(x, "range", "newText") {
            Some((r, t)) => match (range_at(r), t) {
                (Some(range), Json::String(s)) => Some(Some(TextEdit { range, new_text: s.clone() })),
                _ => None,
            },
            None => None,
        },
    }
}

/// One completion item read from a value, as `item_of` says.
pub fn item_from(v: Json) -> (r: Option<CompletionItem>)
    ensures
        match r {
            Some(c) => item_of(v) == Some(item_view(c)),
            None => item_of(v) is None,
        },
{
    let ghost whole = v;
    let (label, kind, detail, insert, edit): (Option<&Json>, Option<&Json>, Option<&Json>, Option<&Json>, Option<&Json>) = match &v {
        Json::Object(_) => (member(&v, "label"), member(&v, "kind"), member(&v, "detail"), member(&v, "insertText"), member(&v, "textEdit")),
        Json::Array(a) => {
            if a.len() < 1 || a.len() > 6 {
                return None;
            }
            (
                Some(&a[0]),
                if a.len() > 1 { Some(&a[1]) } else { None },
                if a.len() > 2 { Some(&a[2]) } else { None },
                if a.len() > 4 { Some(&a[4]) } else { None },
                if a.len() > 5 { Some(&a[5]) } else { None },
            )
        },
        _ => {
            return None;
        },
    };
    let label = match label {
        Some(Json::String(t)) => t.clone(),
        _ => {
            return None;
        },
    };
    let (kind, detail, insert, edit) = match (severity_at(kind), text_opt(detail), text_opt(insert), edit_at(edit)) {
        (Some(k), Some(d), Some(i), Some(e)) => (k, d, i, e),
        _ => {
            return None;
        },
    };
    let documentation = match v {
        Json::Object(mut es) => match member_index(&es, "documentation") {
            Some(k) => {
                let (_, d) = es.remove(k);
                match d {
                    Json::Null => None,
                    d => Some(d),
                }
            },
            None => None,
        },
        Json::Array(mut a) => if a.len() > 3 {
            match a.remove(3) {
                Json::Null => None,
                d => Some(d),
            }
        } else {
            None
        },
        _ => None,
    };
    Some(CompletionItem { label, kind, detail, documentation, insert_text: insert, text_edit: edit })
}

/// The items a completion answer offers, as `completion_items_of` says.
pub fn completion_items(value: Json) -> (items: Vec<CompletionItem>)
    ensures
        items@.map_values(|c: CompletionItem| item_view(c)) == completion_items_of(value),
{
    let ghost whole = value;
    let list = match value {
        Json::Object(mut es) => match member_index(&es, "items") {
            Some(k) => {
                let (_, x) = es.remove(k);
                x
            },
            None => Json::Object(es),
        },
        other => other,
    };
    let mut rest = match list {
        Json::Array(a) => a,
        _ => {
            assert(Seq::<CompletionItem>::empty().map_values(|c: CompletionItem| item_view(c)) =~= Seq::<ItemView>::empty());
            return Vec::new();
        },
    };
    let ghost all = rest@;
    let _n = rest.len();
    assert(completion_items_of(whole) == match items_in(all) {
        Some(s) => s,
        None => Seq::<ItemView>::empty(),
    });
    let mut out: Vec<CompletionItem> = Vec::new();
    let mut i: usize = 0;
    assert(all.skip(0) =~= all);
    assert(all.take(0) =~= Seq::<Json>::empty());
    while rest.len() > 0
        invariant
            all.len() <= usize::MAX,
            whole == value,
            completion_items_of(whole) == match items_in(all) {
                Some(s) => s,
                None => Seq::<ItemView>::empty(),
            },
            rest@ == all.skip(i as int),
            all.len() == i + rest@.len(),
            items_in(all.take(i as int)) == Some(out@.map_values(|c: CompletionItem| item_view(c))),
        decreases rest@.len(),
    {
        let x = rest.remove(0);
        assert(x == all[i as int]);
        assert(rest@ =~= all.skip(i + 1));
        assert(all.take(i + 1).drop_last() =~= all.take(i as int));
        assert(all.take(i + 1).last() == all[i as int]);
        match item_from(x) {
            Some(c) => {
                let ghost before = out@;
                out.push(c);
                assert(out@.map_values(|c: CompletionItem| item_view(c)) =~= before.map_values(|c: CompletionItem| item_view(c)).push(item_view(c)));
            },
            None => {
                assert(items_in(all.take(i + 1)) is None);
                proof {
                    lemma_items_in_fail(all, i as int + 1);
                }
                assert(Seq::<CompletionItem>::empty().map_values(|c: CompletionItem| item_view(c)) =~= Seq::<ItemView>::empty());
                return Vec::new();
            },
        }
        i = i + 1;
    }
    assert(all.take(i as int) =~= all);
    out
}

/// Once some first items fail to read, all of them do.
proof fn lemma_items_in_fail(all: Seq<Json>, k: int)
    requires
        0 <= k <= all.len(),
        items_in(all.take(k)) is None,
    ensures
        items_in(all) is None,
    decreases all.len() - k,
{
    if k < all.len() {
        assert(all.take(k + 1).drop_last() =~= all.take(k));
        lemma_items_in_fail(all, k + 1);
    } else {
        assert(all.take(k) =~= all);
    }
}

/// Where the first entry named `key` stands in `es`, or -1.
pub open spec fn entry_index(es: Seq<(String, Json)>, key: Seq<char>) -> int
    decreases es.len(),
{
    if es.len() == 0 {
        -1
    } else if es[0].0@ == key {
        0
    } else {
        let r = entry_index(es.drop_first(), key);
        if r < 0 { -1 } else { r + 1 }
    }
}

proof fn lemma_entry_index(es: Seq<(String, Json)>, key: Seq<char>, i: int)
    requires
        0 <= i <= es.len(),
        forall|j: int| 0 <= j < i ==> (#[trigger] es[j]).0@ != key,
        i < es.len() ==> es[i].0@ == key,
    ensures
        entry_index(es, key) == if i < es.len() { i } else { -1 },
    decreases i,
{
    if i > 0 {
        let t = es.drop_first();
        assert forall|j: int| 0 <= j < i - 1 implies (#[trigger] t[j]).0@ != key by {
            assert(t[j] == es[j + 1]);
        }
        if i < es.len() {
            assert(t[i - 1] == es[i]);
        }
        assert(es[0].0@ != key);
        lemma_entry_index(t, key, i - 1);
    }
}

fn entry_at(es: &Vec<(String, Json)>, key: &str) -> (r: Option<usize>)
    ensures
        match r {
            Some(k) => k < es@.len() && entry_index(es@, key@) == k,
            None => entry_index(es@, key@) < 0,
        },
{
    let mut i: usize = 0;
    while i < es.len()
        invariant
            i <= es@.len(),
            forall|j: int| 0 <= j < i ==> (#[trigger] es@[j]).0@ != key@,
        decreases es@.len() - i,
    {
        if crate::text::same_text(es[i].0.as_str(), key) {
            proof {
                lemma_entry_index(es@, key@, i as int);
            }
            return Some(i);
        }
        i = i + 1;
    }
    proof {
        lemma_entry_index(es@, key@, i as int);
    }
    None
}

/// The text a hover's contents show: a string as it is; an array's parts
/// one per line; an object's `value` when it is a string, else its
/// `contents` shown the same way; nothing otherwise.
pub open spec fn markdown_of(v: Json) -> Seq<char>
    decreases v, 0int,
{
    match v {
        Json::String(t) => t@,
        Json::Array(items) => {
            proof {
                broadcast use vstd::std_specs::vec::axiom_vec_decreases_to_view;
                assert(decreases_to!(items => items@));
            }
            markdown_lines(items@)
        },
        Json::Object(es) => {
            let k = entry_index(es@, "value"@);
            let c = entry_index(es@, "contents"@);
            if 0 <= k < es@.len() && es@[k].1 is String {
                es@[k].1->String_0@
            } else if 0 <= c < es@.len() {
                proof {
                    broadcast use vstd::std_specs::vec::axiom_vec_decreases_to_view;
                    assert(decreases_to!(es => es@));
                    assert(decreases_to!(es@ => es@[c]));
                }
                markdown_of(es@[c].1)
            } else {
                Seq::empty()
            }
        },
        _ => Seq::empty(),
    }
}

/// Parts shown one per line.
pub open spec fn markdown_lines(items: Seq<Json>) -> Seq<char>
    decreases items, 1int,
{
    if items.len() == 0 {
        Seq::empty()
    } else if items.len() == 1 {
        markdown_of(items[0])
    } else {
        markdown_lines(items.drop_last()) + seq!['\n'] + markdown_of(items.last())
    }
}

fn push_all(out: &mut Vec<char>, s: &str)
    ensures
        final(out)@ == old(out)@ + s@,
{
    let v = crate::text::chars_of(s);
    let mut i: usize = 0;
    let ghost start = out@;
    while i < v.len()
        invariant
            i <= v@.len(),
            v@ == s@,
            out@ == start + v@.take(i as int),
        decreases v@.len() - i,
    {
        out.push(v[i]);
        i = i + 1;
        assert(out@ =~= start + v@.take(i as int));
    }
    assert(v@.take(v@.len() as int) =~= v@);
}

/// The text a hover's contents show, as `markdown_of` says.
pub fn markdown_text(v: &Json) -> (s: String)
    ensures
        s@ == markdown_of(*v),
    decreases *v,
{
    match v {
        Json::String(t) => t.clone(),
        Json::Array(items) => {
            let mut out: Vec<char> = Vec::new();
            let mut i: usize = 0;
            assert(items@.take(0) =~= Seq::<Json>::empty());
            while i < items.len()
                invariant
                    i <= items@.len(),
                    *v == Json::Array(*items),
                    out@ == markdown_lines(items@.take(i as int)),
                decreases items@.len() - i,
            {
                proof {
                    broadcast use vstd::std_specs::vec::axiom_vec_decreases_to_view;
                    assert(v->Array_0 == *items);
                    assert(decreases_to!(*v => v->Array_0));
                    assert(decreases_to!(*items => items@));
                    assert(decreases_to!(items@ => items@[i as int]));
                    assert(decreases_to!(*v => items@[i as int]));
                }
                let part = markdown_text(&items[i]);
                let ghost t = items@.take(i + 1);
                assert(t.drop_last() =~= items@.take(i as int));
                assert(t.last() == items@[i as int]);
                if i > 0 {
                    out.push('\n');
                } else {
                    assert(t =~= seq![items@[0]]);
                }
                push_all(&mut out, part.as_str());
                i = i + 1;
                assert(out@ =~= markdown_lines(items@.take(i as int)));
            }
            assert(items@.take(items@.len() as int) =~= items@);
            crate::text::string_of(out.as_slice())
        },
        Json::Object(es) => {
            proof {
                reveal_strlit("value");
                reveal_strlit("contents");
            }
            match entry_at(es, "value") {
                Some(k) => {
                    if let Json::String(t) = &es[k].1 {
                        return t.clone();
                    }
                },
                None => {},
            }
            match entry_at(es, "contents") {
                Some(c) => {
                    proof {
                        broadcast use vstd::std_specs::vec::axiom_vec_decreases_to_view;
                        assert(decreases_to!(*es => es@));
                        assert(decreases_to!(es@ => es@[c as int]));
                    }
                    markdown_text(&es[c].1)
                },
                None => String::new(),
            }
        },
        _ => String::new(),
    }
}

/// A hover answer read as a struct: its contents (required, any value) and
/// its optional range, from an object by name or an array of one or two.
pub open spec fn hover_of(v: Json) -> Option<Json> {
    let fields: Option<(Option<Json>, Option<Json>)> = match v {
        Json::Object(es) => Some((lookup(es@, "contents"@), lookup(es@, "range"@))),
        Json::Array(a) => if 1 <= a@.len() <= 2 { Some((nth(a@, 0), nth(a@, 1))) } else { None },
        _ => None,
    };
    match fields {
        Some((Some(c), r)) => {
            let range_ok = match r {
                None => true,
                Some(Json::Null) => true,
                Some(x) => range_of(x) is Some,
            };
            if range_ok { Some(c) } else { None }
        },
        _ => None,
    }
}

/// What a hover answer has to say: the text of its contents, when it reads
/// as a hover and that text is not empty.
pub open spec fn hover_text_of(v: Json) -> Option<Seq<char>> {
    match hover_of(v) {
        Some(c) => if markdown_of(c).len() > 0 { Some(markdown_of(c)) } else { None },
        None => None,
    }
}

/// The text a hover answer shows, as `hover_text_of` says.
pub fn hover_text(v: &Json) -> (r: Option<String>)
    ensures
        match r {
            Some(t) => hover_text_of(*v) == Some(t@),
            None => hover_text_of(*v) is None,
        },
{
    let (contents, range): (Option<&Json>, Option<&Json>) = match v {
        Json::Object(_) => (member(v, "contents"), member(v, "range")),
        Json::Array(a) => {
            if a.len() < 1 || a.len() > 2 {
                return None;
            }
            (Some(&a[0]), if a.len() > 1 { Some(&a[1]) } else { None })
        },
        _ => {
            return None;
        },
    };
    let c = match contents {
        Some(c) => c,
        None => {
            return None;
        },
    };
    let range_ok = match range {
        None => true,
        Some(Json::Null) => true,
        Some(x) => range_at(x).is_some(),
    };
    if !range_ok {
        return None;
    }
    let text = markdown_text(c);
    if text.as_str().is_empty() {
        None
    } else {
        Some(text)
    }
}

/// What a request was, so that its answer can be read.
#[derive(Clone, Copy, Debug, PartialEq, Eq, Structural)]
pub enum RequestKind {
    Initialize,
    Shutdown,
    Completion,
    Hover,
    Definition,
}

/// What a language server sent, or that it went away.
#[derive(Debug, PartialEq, Eq)]
pub enum LspEvent {
    Request { server: String, id: Id, method: String, params: Json },
    Response { server: String, id: Id, kind: Option<RequestKind>, result: Option<Json>, error: Option<Json> },
    Notification { server: String, method: String, params: Json },
    Closed { server: String },
}

/// What the session keeps of the servers' answers: diagnostics per
/// document URI (each URI once), the completion menu, and the place the
/// last definition answer named.
#[derive(Debug)]
pub struct LspState {
    pub diagnostics: Vec<(String, Vec<Diagnostic>)>,
    pub completion: Option<CompletionMenu>,
    pub definition: Option<Location>,
}

pub type DiagView = (Range, Option<u8>, Option<Seq<char>>, Seq<char>);

pub open spec fn bucket_view(b: (String, Vec<Diagnostic>)) -> (Seq<char>, Seq<DiagView>) {
    (b.0@, b.1@.map_values(|d: Diagnostic| diagnostic_view(d)))
}

pub open spec fn buckets_view(bs: Seq<(String, Vec<Diagnostic>)>) -> Seq<(Seq<char>, Seq<DiagView>)> {
    bs.map_values(|b: (String, Vec<Diagnostic>)| bucket_view(b))
}

/// Where the bucket for `uri` stands, or -1.
pub open spec fn bucket_index(bs: Seq<(Seq<char>, Seq<DiagView>)>, uri: Seq<char>) -> int
    decreases bs.len(),
{
    if bs.len() == 0 {
        -1
    } else if bs[0].0 == uri {
        0
    } else {
        let r = bucket_index(bs.drop_first(), uri);
        if r < 0 { -1 } else { r + 1 }
    }
}

/// The buckets with `uri`'s diagnostics replaced by `ds`, or added.
pub open spec fn with_bucket(bs: Seq<(Seq<char>, Seq<DiagView>)>, uri: Seq<char>, ds: Seq<DiagView>) -> Seq<(Seq<char>, Seq<DiagView>)> {
    let k = bucket_index(bs, uri);
    if k < 0 { bs.push((uri, ds)) } else { bs.update(k, (uri, ds)) }
}

proof fn lemma_bucket_index(bs: Seq<(Seq<char>, Seq<DiagView>)>, uri: Seq<char>, i: int)
    requires
        0 <= i <= bs.len(),
        forall|j: int| 0 <= j < i ==> (#[trigger] bs[j]).0 != uri,
        i < bs.len() ==> bs[i].0 == uri,
    ensures
        bucket_index(bs, uri) == if i < bs.len() { i } else { -1 },
    decreases i,
{
    if i > 0 {
        let t = bs.drop_first();
        assert forall|j: int| 0 <= j < i - 1 implies (#[trigger] t[j]).0 != uri by {
            assert(t[j] == bs[j + 1]);
        }
        if i < bs.len() {
            assert(t[i - 1] == bs[i]);
        }
        assert(bs[0].0 != uri);
        lemma_bucket_index(t, uri, i - 1);
    }
}

pub open spec fn menu_view(m: CompletionMenu) -> (Seq<ItemView>, Option<usize>, usize, usize, u64) {
    (m.items@.map_values(|c: CompletionItem| item_view(c)), m.selected, m.row, m.col, m.grid)
}

pub open spec fn location_view(l: Option<Location>) -> Option<(Seq<char>, Range)> {
    match l {
        Some(x) => Some((x.uri@, x.range)),
        None => None,
    }
}

pub open spec fn text_view(t: Option<String>) -> Option<Seq<char>> {
    match t {
        Some(s) => Some(s@),
        None => None,
    }
}

/// What an event does to the session and what it leaves to say: published
/// diagnostics replace their document's; a completion answer fills the
/// open menu (selecting its first item) or closes it when it offers
/// nothing; a hover answer is said; a definition answer is kept, and said
/// to be missing when it names no place; a server that went away is
/// reported; anything else changes nothing.
pub open spec fn event_effect(s0: LspState, s1: LspState, event: LspEvent, said: Option<Seq<char>>) -> bool {
    let same = buckets_view(s1.diagnostics@) == buckets_view(s0.diagnostics@);
    match event {
        LspEvent::Notification { method, params, .. } => if method@ == "textDocument/publishDiagnostics"@ {
            &&& said is None
            &&& s1.completion == s0.completion && s1.definition == s0.definition
            &&& buckets_view(s1.diagnostics@) == match published(params) {
                Some((u, ds)) => with_bucket(buckets_view(s0.diagnostics@), u, ds),
                None => buckets_view(s0.diagnostics@),
            }
        } else {
            said is None && same && s1.completion == s0.completion && s1.definition == s0.definition
        },
        LspEvent::Response { kind: Some(RequestKind::Completion), result, .. } => {
            let items = completion_items_of(match result { Some(v) => v, None => Json::Null });
            &&& said is None && same && s1.definition == s0.definition
            &&& if items.len() == 0 {
                s1.completion is None
            } else {
                match s0.completion {
                    Some(m) => s1.completion matches Some(m1) && menu_view(m1) == (items, Some(0usize), m.row, m.col, m.grid),
                    None => s1.completion is None,
                }
            }
        },
        LspEvent::Response { kind: Some(RequestKind::Hover), result: Some(v), .. } => {
            said == hover_text_of(v) && same && s1.completion == s0.completion && s1.definition == s0.definition
        },
        LspEvent::Response { kind: Some(RequestKind::Definition), result: Some(v), .. } => {
            &&& same && s1.completion == s0.completion
            &&& location_view(s1.definition) == definition_of(v)
            &&& said == if definition_of(v) is None { Some("LSP definition not found"@) } else { None }
        },
        LspEvent::Closed { server } => {
            said == Some("LSP server '"@ + server@ + "' exited"@) && same && s1.completion == s0.completion
                && s1.definition == s0.definition
        },
        _ => said is None && same && s1.completion == s0.completion && s1.definition == s0.definition,
    }
}

impl LspState {
    pub fn new() -> (s: LspState)
        ensures
            s.diagnostics@.len() == 0,
            s.completion is None,
            s.definition is None,
    {
        LspState { diagnostics: Vec::new(), completion: None, definition: None }
    }

    fn set_bucket(&mut self, uri: String, ds: Vec<Diagnostic>)
        ensures
            buckets_view(final(self).diagnostics@) == with_bucket(buckets_view(old(self).diagnostics@), uri@, ds@.map_values(|d: Diagnostic| diagnostic_view(d))),
            final(self).completion == old(self).completion,
            final(self).definition == old(self).definition,
    {
        let ghost bs = buckets_view(self.diagnostics@);
        let mut i: usize = 0;
        while i < self.diagnostics.len()
            invariant
                i <= self.diagnostics@.len(),
                bs == buckets_view(self.diagnostics@),
                bs == buckets_view(old(self).diagnostics@),
                self.completion == old(self).completion,
                self.definition == old(self).definition,
                forall|j: int| 0 <= j < i ==> (#[trigger] bs[j]).0 != uri@,
            decreases self.diagnostics@.len() - i,
        {
            if same_text(self.diagnostics[i].0.as_str(), uri.as_str()) {
                proof {
                    lemma_bucket_index(bs, uri@, i as int);
                }
                let ghost b = (uri, ds);
                self.diagnostics.set(i, (uri, ds));
                assert(buckets_view(self.diagnostics@) =~= bs.update(i as int, bucket_view(b)));
                return;
            }
            i = i + 1;
        }
        proof {
            lemma_bucket_index(bs, uri@, i as int);
        }
        let ghost b = (uri, ds);
        self.diagnostics.push((uri, ds));
        assert(buckets_view(self.diagnostics@) =~= bs.push(bucket_view(b)));
    }

    /// What an event does, as `event_effect` says.
    pub fn handle_event(&mut self, event: LspEvent) -> (said: Option<String>)
        ensures
            event_effect(*old(self), *final(self), event, text_view(said)),
    {
        proof {
            reveal_strlit("textDocument/publishDiagnostics");
        }
        match event {
            LspEvent::Notification { method, params, .. } => {
                if same_text(method.as_str(), "textDocument/publishDiagnostics") {
                    if let Some((uri, ds)) = publish_diagnostics(&params) {
                        self.set_bucket(uri, ds);
                    }
                }
                None
            },
            LspEvent::Response { kind: Some(RequestKind::Completion), result, .. } => {
                let value = match result {
                    Some(v) => v,
                    None => Json::Null,
                };
                let items = completion_items(value);
                if items.len() == 0 {
                    self.completion = None;
                } else {
                    match self.completion.take() {
                        Some(mut menu) => {
                            menu.items = items;
                            menu.selected = Some(0);
                            self.completion = Some(menu);
                        },
                        None => {},
                    }
                }
                None
            },
            LspEvent::Response { kind: Some(RequestKind::Hover), result: Some(value), .. } => hover_text(&value),
            LspEvent::Response { kind: Some(RequestKind::Definition), result: Some(value), .. } => {
                let found = definition_location(&value);
                let said = definition_message(&found);
                self.definition = found;
                said
            },
            LspEvent::Closed { server } => {
                let a = concat("LSP server '", server.as_str());
                Some(concat(a.as_str(), "' exited"))
            },
            _ => None,
        }
    }
}

} // verus!
