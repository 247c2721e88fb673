//! The note store: the markdown vault the notes already live in, addressed
//! by path or by note name, and the `[[links]]` between notes.

use vstd::prelude::*;
use vstd::string::StrSliceExecFns;
use crate::editcore::key::{copy_range, same_chars};
use crate::lsp::registry::{last_index, last_index_exec, trim_tail};
use crate::picker::{sort_strings, sorted, strings, Source};
use crate::text::{
    chars_of, occurs, occurs_at, same_text, strip_suffixes, strip_suffixes_end, string_of, trim_range, trim_ws,
};

verus! {

// ---------------------------------------------------------------------------
// Links
// ---------------------------------------------------------------------------

/// The first `]]` at or after `k`, or -1.
pub open spec fn closing(s: Seq<char>, k: int) -> int
    decreases s.len() - k,
{
    if k < 0 || k + 1 >= s.len() {
        -1
    } else if s[k] == ']' && s[k + 1] == ']' {
        k
    } else {
        closing(s, k + 1)
    }
}

/// The link the cursor column `col` is in, scanning from `i`: each `[[`
/// opens a link that the next `]]` closes; a link that is never closed ends
/// the search.
pub open spec fn link_from(s: Seq<char>, col: int, i: int) -> Option<Seq<char>>
    decreases s.len() - i,
{
    if i < 0 || i + 1 >= s.len() {
        None
    } else if s[i] == '[' && s[i + 1] == '[' {
        let close = closing(s, i + 2);
        if close < 0 {
            None
        } else if i <= col <= close + 1 {
            Some(s.subrange(i + 2, close))
        } else {
            proof {
                lemma_closing(s, i + 2);
            }
            link_from(s, col, close + 2)
        }
    } else {
        link_from(s, col, i + 1)
    }
}

pub proof fn lemma_closing(s: Seq<char>, k: int)
    requires
        0 <= k,
    ensures
        closing(s, k) == -1 || (k <= closing(s, k) && closing(s, k) + 1 < s.len()),
    decreases s.len() - k,
{
    if k + 1 < s.len() && !(s[k] == ']' && s[k + 1] == ']') {
        lemma_closing(s, k + 1);
    }
}

/// The `[[link]]` under a cursor column, if there is one.
pub fn link_at(line: &str, column: usize) -> (r: Option<String>)
    ensures
        match r {
            Some(l) => link_from(line@, column as int, 0) == Some(l@),
            None => link_from(line@, column as int, 0) is None,
        },
{
    let chars = chars_of(line);
    let n = chars.len();
    let mut index: usize = 0;
    while index < n && index + 1 < n
        invariant
            index <= n,
            n == chars@.len(),
            chars@ == line@,
            link_from(line@, column as int, 0) == link_from(line@, column as int, index as int),
        decreases n - index,
    {
        if chars[index] == '[' && chars[index + 1] == '[' {
            let start = index + 2;
            let mut scan = start;
            while scan < n && scan + 1 < n && !(chars[scan] == ']' && chars[scan + 1] == ']')
                invariant
                    scan <= n,
                    n == chars@.len(),
                    start <= scan,
                    closing(chars@, start as int) == closing(chars@, scan as int),
                decreases n - scan,
            {
                scan = scan + 1;
            }
            if scan < n && scan + 1 < n {
                if column >= index && column <= scan + 1 {
                    let inner = copy_range(chars.as_slice(), start, scan);
                    return Some(string_of(inner.as_slice()));
                }
                index = scan + 2;
            } else {
                return None;
            }
        } else {
            index = index + 1;
        }
    }
    None
}

// ---------------------------------------------------------------------------
// The vault
// ---------------------------------------------------------------------------

pub struct Vault {
    root: String,
}

/// `rel` joined onto `base` as a path; an absolute `rel` stands alone.
pub open spec fn path_join(base: Seq<char>, rel: Seq<char>) -> Seq<char> {
    if rel.len() > 0 && rel[0] == '/' {
        rel
    } else if base.len() == 0 {
        rel
    } else if base.last() == '/' {
        base + rel
    } else {
        base + seq!['/'] + rel
    }
}

/// The last component of a path; none for a path that ends in `.` or `..`,
/// or names no component.
pub open spec fn file_name(path: Seq<char>) -> Option<Seq<char>> {
    let p = trim_tail(path);
    let name = p.skip(last_index(p, '/') + 1);
    if name.len() == 0 || name == "."@ || name == ".."@ { None } else { Some(name) }
}

/// The file name without its extension: up to its last dot, unless that dot
/// starts the name.
pub open spec fn file_stem(path: Seq<char>) -> Option<Seq<char>> {
    match file_name(path) {
        Some(name) => {
            let dot = last_index(name, '.');
            Some(if dot > 0 { name.take(dot) } else { name })
        },
        None => None,
    }
}

/// The note a `[[wiki link]]` names: without a `|alias` or `#heading`, and
/// without surrounding whitespace.
pub open spec fn link_target(link: Seq<char>) -> Seq<char> {
    let bar = crate::editcore::key::find_char(link, '|');
    let a = if bar < 0 { link } else { link.take(bar) };
    let hash = crate::editcore::key::find_char(a, '#');
    let b = if hash < 0 { a } else { a.take(hash) };
    trim_ws(b)
}

/// The first of `notes` from `k` on whose path, without `.md`, is `wanted`;
/// -1 when none is.
pub open spec fn by_path(notes: Seq<Seq<char>>, wanted: Seq<char>, k: int) -> int
    decreases notes.len() - k,
{
    if k < 0 || k >= notes.len() {
        -1
    } else if strip_suffixes(notes[k], ".md"@) == wanted {
        k
    } else {
        by_path(notes, wanted, k + 1)
    }
}

/// The first of `notes` from `k` on whose file stem is `wanted`; -1 when
/// none is.
pub open spec fn by_name(notes: Seq<Seq<char>>, wanted: Seq<char>, k: int) -> int
    decreases notes.len() - k,
{
    if k < 0 || k >= notes.len() {
        -1
    } else if file_stem(notes[k]) == Some(wanted) {
        k
    } else {
        by_name(notes, wanted, k + 1)
    }
}

/// The note a link resolves to among `notes`: by path first, then by name.
pub open spec fn resolved(notes: Seq<Seq<char>>, link: Seq<char>) -> Option<Seq<char>> {
    let target = link_target(link);
    let wanted = strip_suffixes(target, ".md"@);
    if target.len() == 0 {
        None
    } else if by_path(notes, wanted, 0) >= 0 {
        Some(notes[by_path(notes, wanted, 0)])
    } else if by_name(notes, wanted, 0) >= 0 {
        Some(notes[by_name(notes, wanted, 0)])
    } else {
        None
    }
}

impl View for Vault {
    type V = Seq<char>;

    /// The vault's root directory.
    closed spec fn view(&self) -> Seq<char> {
        self.root@
    }
}

fn find_char_exec(v: &[char], c: char) -> (r: Option<usize>)
    ensures
        match r {
            Some(k) => k == crate::editcore::key::find_char(v@, c) && k < v@.len(),
            None => crate::editcore::key::find_char(v@, c) < 0,
        },
{
    let mut i: usize = 0;
    assert(v@.skip(0) =~= v@);
    while i < v.len()
        invariant
            i <= v@.len(),
            crate::editcore::key::find_char(v@, c) == if crate::editcore::key::find_char(v@.skip(i as int), c) < 0 {
                -1
            } else {
                crate::editcore::key::find_char(v@.skip(i as int), c) + i
            },
        decreases v@.len() - i,
    {
        proof {
            assert(v@.skip(i as int).drop_first() =~= v@.skip(i + 1));
        }
        if v[i] == c {
            return Some(i);
        }
        i = i + 1;
    }
    None
}

/// The stem of the file a relative path names, as bounds into `v`.
fn stem_bounds(v: &[char]) -> (r: Option<(usize, usize)>)
    ensures
        match r {
            Some((a, b)) => a <= b <= v@.len() && file_stem(v@) == Some(v@.subrange(a as int, b as int)),
            None => file_stem(v@) is None,
        },
{
    let mut end = v.len();
    assert(v@.take(end as int) =~= v@);
    loop
        invariant
            end <= v@.len(),
            trim_tail(v@) == trim_tail(v@.take(end as int)),
        ensures
            end <= v@.len(),
            trim_tail(v@) == v@.take(end as int),
        decreases end,
    {
        let ghost p = v@.take(end as int);
        if end > 0 && v[end - 1] == '/' {
            assert(p.drop_last() =~= v@.take(end - 1));
            end = end - 1;
        } else if end >= 2 && v[end - 1] == '.' && v[end - 2] == '/' {
            assert(p.take(p.len() - 2) =~= v@.take(end - 2));
            end = end - 2;
        } else {
            assert(trim_tail(p) == p);
            break;
        }
    }
    let ghost p = v@.take(end as int);
    assert(v@.subrange(0, end as int) =~= p);
    let start = match last_index_exec(v, 0, end, '/') {
        Some(k) => k + 1,
        None => 0,
    };
    let ghost name = p.skip(last_index(p, '/') + 1);
    assert(v@.subrange(start as int, end as int) =~= name);
    proof {
        reveal_strlit(".");
        reveal_strlit("..");
    }
    if start == end || (end - start == 1 && v[start] == '.') || (end - start == 2 && v[start] == '.' && v[start + 1] == '.') {
        if end - start == 1 {
            assert(name =~= "."@);
        }
        if end - start == 2 {
            assert(name =~= ".."@);
        }
        return None;
    }
    assert(name != "."@ && name != ".."@) by {
        if name == "."@ {
            assert(name.len() == 1 && name[0] == '.');
        }
        if name == ".."@ {
            assert(name.len() == 2 && name[0] == '.' && name[1] == '.');
        }
    }
    match last_index_exec(v, start, end, '.') {
        Some(dot) => {
            if dot > start {
                assert(v@.subrange(start as int, dot as int) =~= name.take(dot - start));
                Some((start, dot))
            } else {
                Some((start, end))
            }
        },
        None => Some((start, end)),
    }
}

impl Vault {
    /// The vault rooted at `root`.
    pub fn open(root: String) -> (v: Vault)
        ensures
            v@ == root@,
    {
        Vault { root }
    }

    pub fn root(&self) -> (r: &str)
        ensures
            r@ == self@,
    {
        self.root.as_str()
    }

    /// The vault's name: its directory's, or `notes`.
    pub fn label(&self) -> (l: String)
        ensures
            l@ == match file_name(self@) {
                Some(name) => name,
                None => "notes"@,
            },
    {
        let chars = chars_of(self.root.as_str());
        match stem_bounds(chars.as_slice()) {
            Some(_) => {
                let name = name_of(chars.as_slice());
                string_of(name.as_slice())
            },
            None => "notes".to_owned(),
        }
    }

    /// Where a note given relative to the vault lives.
    pub fn path_of(&self, relative: &str) -> (p: String)
        ensures
            p@ == path_join(self@, relative@),
    {
        let base = chars_of(self.root.as_str());
        let rel = chars_of(relative);
        let mut out: Vec<char> = Vec::new();
        if !(rel.len() > 0 && rel[0] == '/') {
            out = copy_range(base.as_slice(), 0, base.len());
            assert(base@.subrange(0, base@.len() as int) =~= base@);
            if base.len() > 0 && base[base.len() - 1] != '/' {
                out.push('/');
            }
        }
        let ghost start = out@;
        let mut k: usize = 0;
        while k < rel.len()
            invariant
                k <= rel@.len(),
                out@ == start + rel@.take(k as int),
            decreases rel@.len() - k,
        {
            out.push(rel[k]);
            k = k + 1;
            assert(out@ =~= start + rel@.take(k as int));
        }
        assert(rel@.take(k as int) =~= rel@);
        string_of(out.as_slice())
    }

    /// The vault's notes, as a walk of it found them: in ascending order,
    /// each one a Markdown file reached through no hidden or bookkeeping
    /// directory.
    pub fn notes(&self, walk: &NotesWalk) -> (v: Vec<String>)
        requires
            walk.wf(),
        ensures
            sorted(strings(v@)),
            strings(v@).to_multiset() == walk.found_notes().to_multiset(),
            forall|i: int| 0 <= i < v@.len() ==> listed_note(#[trigger] v@[i]@),
    {
        let v = sort_strings(walk.found.clone());
        proof {
            broadcast use vstd::seq_lib::to_multiset_contains;
            assert forall|i: int| 0 <= i < v@.len() implies listed_note(#[trigger] v@[i]@) by {
                let x = v@[i]@;
                assert(strings(v@)[i] == x);
                assert(strings(v@).contains(x));
                assert(strings(v@).to_multiset().count(x) > 0);
                assert(walk.found_notes().contains(x));
                let j = choose|j: int| 0 <= j < walk.found_notes().len() && walk.found_notes()[j] == x;
                assert(walk.found_notes()[j] == walk.found@[j]@);
                let parts = walk.found_parts@[j];
                assert(note_parts(parts) && path_of_parts(parts) == x);
            }
        }
        v
    }

    /// Resolves a `[[wiki link]]` the way the vault addresses notes: by path,
    /// with or without the extension, else by note name anywhere in the tree.
    pub fn resolve_link(&self, link: &str, notes: &Vec<String>) -> (r: Option<String>)
        ensures
            match r {
                Some(n) => resolved(strings(notes@), link@) == Some(n@),
                None => resolved(strings(notes@), link@) is None,
            },
    {
        let chars = chars_of(link);
        let a = match find_char_exec(chars.as_slice(), '|') {
            Some(k) => k,
            None => chars.len(),
        };
        let head = copy_range(chars.as_slice(), 0, a);
        let b = match find_char_exec(head.as_slice(), '#') {
            Some(k) => k,
            None => head.len(),
        };
        let (x, y) = trim_range(head.as_slice(), 0, b);
        proof {
            assert(head@ =~= if crate::editcore::key::find_char(chars@, '|') < 0 { chars@ } else { chars@.take(a as int) });
            assert(head@.subrange(0, b as int) =~= if crate::editcore::key::find_char(head@, '#') < 0 { head@ } else {
                head@.take(b as int)
            });
        }
        if x == y {
            return None;
        }
        let md = chars_of(".md");
        let w_end = strip_suffixes_end(head.as_slice(), x, y, md.as_slice());
        let wanted = copy_range(head.as_slice(), x, w_end);
        let ghost target = head@.subrange(x as int, y as int);
        proof {
            assert(chars@ == link@);
            assert(target == link_target(link@));
            assert(wanted@ == strip_suffixes(target, ".md"@));
            assert(target.len() > 0);
        }
        let ghost all = strings(notes@);
        let mut k: usize = 0;
        while k < notes.len()
            invariant
                k <= notes@.len(),
                all == strings(notes@),
                md@ == ".md"@,
                target == link_target(link@),
                target.len() > 0,
                wanted@ == strip_suffixes(target, ".md"@),
                by_path(all, wanted@, 0) == by_path(all, wanted@, k as int),
            decreases notes@.len() - k,
        {
            let note = chars_of(notes[k].as_str());
            let e = strip_suffixes_end(note.as_slice(), 0, note.len(), md.as_slice());
            let bare = copy_range(note.as_slice(), 0, e);
            proof {
                assert(note@.subrange(0, note@.len() as int) =~= note@);
                assert(all[k as int] == note@);
            }
            if same_chars(bare.as_slice(), wanted.as_slice()) {
                return Some(notes[k].clone());
            }
            k = k + 1;
        }
        let mut k: usize = 0;
        while k < notes.len()
            invariant
                k <= notes@.len(),
                all == strings(notes@),
                target == link_target(link@),
                target.len() > 0,
                wanted@ == strip_suffixes(target, ".md"@),
                by_path(all, wanted@, 0) < 0,
                by_name(all, wanted@, 0) == by_name(all, wanted@, k as int),
            decreases notes@.len() - k,
        {
            let note = chars_of(notes[k].as_str());
            assert(all[k as int] == note@);
            match stem_bounds(note.as_slice()) {
                Some((s, t)) => {
                    let stem = copy_range(note.as_slice(), s, t);
                    if same_chars(stem.as_slice(), wanted.as_slice()) {
                        return Some(notes[k].clone());
                    }
                },
                None => {},
            }
            k = k + 1;
        }
        None
    }
}

/// The last component of a path that has one, as characters.
fn name_of(v: &[char]) -> (r: Vec<char>)
    requires
        file_name(v@) is Some,
    ensures
        file_name(v@) == Some(r@),
{
    let mut end = v.len();
    assert(v@.take(end as int) =~= v@);
    loop
        invariant
            end <= v@.len(),
            trim_tail(v@) == trim_tail(v@.take(end as int)),
        ensures
            end <= v@.len(),
            trim_tail(v@) == v@.take(end as int),
        decreases end,
    {
        let ghost p = v@.take(end as int);
        if end > 0 && v[end - 1] == '/' {
            assert(p.drop_last() =~= v@.take(end - 1));
            end = end - 1;
        } else if end >= 2 && v[end - 1] == '.' && v[end - 2] == '/' {
            assert(p.take(p.len() - 2) =~= v@.take(end - 2));
            end = end - 2;
        } else {
            assert(trim_tail(p) == p);
            break;
        }
    }
    let ghost p = v@.take(end as int);
    assert(v@.subrange(0, end as int) =~= p);
    let start = match last_index_exec(v, 0, end, '/') {
        Some(k) => k + 1,
        None => 0,
    };
    assert(v@.subrange(start as int, end as int) =~= p.skip(last_index(p, '/') + 1));
    copy_range(v, start, end)
}

/// What creating a note titled `title` writes: its path relative to the
/// vault (the title, with `.md` added unless it ends so) and its first line,
/// a heading of the file's stem. An empty title makes no note.
pub open spec fn new_note(title: Seq<char>) -> Option<(Seq<char>, Seq<char>)> {
    let t = trim_ws(title);
    if t.len() == 0 {
        None
    } else {
        let relative = if t.len() >= 3 && occurs_at(t, ".md"@, t.len() - 3) { t } else { t + ".md"@ };
        let stem = match file_stem(relative) {
            Some(s) => s,
            None => t,
        };
        Some((relative, "# "@ + stem + "\n\n"@))
    }
}

/// The path and contents of a new note titled `title`, or nothing for an
/// empty title. Whether a note of that name already exists, and writing it,
/// are the caller's.
pub fn new_note_file(title: &str) -> (r: Option<(String, String)>)
    ensures
        match r {
            Some((path, text)) => new_note(title@) == Some((path@, text@)),
            None => new_note(title@) is None,
        },
{
    let chars = chars_of(title);
    let (a, b) = trim_range(chars.as_slice(), 0, chars.len());
    assert(chars@.subrange(0, chars@.len() as int) =~= chars@);
    if a == b {
        return None;
    }
    let t = copy_range(chars.as_slice(), a, b);
    let md = chars_of(".md");
    proof {
        reveal_strlit(".md");
    }
    let mut relative = copy_range(t.as_slice(), 0, t.len());
    assert(t@.subrange(0, t@.len() as int) =~= t@);
    let ends = t.len() >= 3 && crate::text::occurs(t.as_slice(), md.as_slice(), t.len() - 3);
    if !ends {
        relative.push('.');
        relative.push('m');
        relative.push('d');
        assert(relative@ =~= t@ + ".md"@);
    }
    let mut text: Vec<char> = vec!['#', ' '];
    let stem = match stem_bounds(relative.as_slice()) {
        Some((s, e)) => copy_range(relative.as_slice(), s, e),
        None => copy_range(t.as_slice(), 0, t.len()),
    };
    let ghost head = text@;
    let mut k: usize = 0;
    while k < stem.len()
        invariant
            k <= stem@.len(),
            text@ == head + stem@.take(k as int),
        decreases stem@.len() - k,
    {
        text.push(stem[k]);
        k = k + 1;
        assert(text@ =~= head + stem@.take(k as int));
    }
    text.push('\n');
    text.push('\n');
    proof {
        reveal_strlit("# ");
        reveal_strlit("\n\n");
        assert(stem@.take(k as int) =~= stem@);
        assert(text@ =~= "# "@ + stem@ + "\n\n"@);
    }
    Some((string_of(relative.as_slice()), string_of(text.as_slice())))
}

/// A picker source over the vault's notes.
pub struct NotesSource {
    label: String,
    entries: Vec<String>,
}

impl View for NotesSource {
    type V = (Seq<char>, Seq<Seq<char>>);

    closed spec fn view(&self) -> (Seq<char>, Seq<Seq<char>>) {
        (self.label@, strings(self.entries@))
    }
}

impl NotesSource {
    /// The notes a walk of `vault` found, labelled with the vault's name.
    pub fn new(vault: &Vault, walk: &NotesWalk) -> (s: NotesSource)
        requires
            walk.wf(),
        ensures
            s@.0 == match file_name(vault@) {
                Some(name) => name,
                None => "notes"@,
            },
            sorted(s@.1),
            s@.1.to_multiset() == walk.found_notes().to_multiset(),
            forall|i: int| 0 <= i < s@.1.len() ==> listed_note(#[trigger] s@.1[i]),
    {
        NotesSource { label: vault.label(), entries: vault.notes(walk) }
    }
}

impl Source for NotesSource {
    /// The candidates, element for element the source's entries in the
    /// order it offers them.
    fn candidates(&self) -> (r: Vec<String>)
        ensures
            strings(r@) == self@.1,
    {
        let r = self.entries.clone();
        proof {
            assert(strings(r@) =~= strings(self.entries@));
        }
        r
    }

    fn label(&self) -> (s: &str)
        ensures
            s@ == self@.0,
    {
        self.label.as_str()
    }
}

} // verus!

verus! {

/// Directory levels below the vault's root that are still walked.
pub const MAX_DEPTH: usize = 8;

/// Once more notes than this are found, no further directory is read.
pub const MAX_NOTES: usize = 20_000;

/// Names the walk passes over: hidden ones and the vault's bookkeeping.
pub open spec fn skipped_name(name: Seq<char>) -> bool {
    ||| (name.len() > 0 && name[0] == '.')
    ||| name == "attachments"@
    ||| name == "node_modules"@
}

/// `s` ends with `suffix`.
pub open spec fn ends_with(s: Seq<char>, suffix: Seq<char>) -> bool {
    s.len() >= suffix.len() && s.skip(s.len() - suffix.len()) == suffix
}

/// A Markdown file's name.
pub open spec fn note_file_name(name: Seq<char>) -> bool {
    ends_with(name, ".md"@) || ends_with(name, ".markdown"@)
}

/// Whether the walk keeps the entry `name` of a directory `depth` levels
/// below the root, with `found` notes listed so far: a directory is walked
/// into while it lies at most `MAX_DEPTH` levels down and at most
/// `MAX_NOTES` notes are listed; a file is listed when it is Markdown;
/// hidden entries and the bookkeeping directories never.
pub open spec fn keeps_entry(name: Seq<char>, is_dir: bool, depth: int, found: int) -> bool {
    !skipped_name(name) && if is_dir {
        depth + 1 <= MAX_DEPTH && found <= MAX_NOTES
    } else {
        note_file_name(name)
    }
}

fn ends_with_text(v: &[char], suffix: &str) -> (r: bool)
    ensures
        r == ends_with(v@, suffix@),
{
    let s = chars_of(suffix);
    if v.len() < s.len() {
        return false;
    }
    let r = occurs(v, s.as_slice(), v.len() - s.len());
    assert(v@.subrange(v@.len() - s@.len(), v@.len() - s@.len() + s@.len()) =~= v@.skip(v@.len() - s@.len()));
    r
}

pub fn is_note_entry(name: &str, is_dir: bool, depth: usize, found: usize) -> (r: bool)
    ensures
        r == keeps_entry(name@, is_dir, depth as int, found as int),
{
    let v = chars_of(name);
    let hidden = v.len() > 0 && v[0] == '.';
    if hidden || same_text(name, "attachments") || same_text(name, "node_modules") {
        return false;
    }
    if is_dir {
        depth < MAX_DEPTH && found <= MAX_NOTES
    } else {
        ends_with_text(v.as_slice(), ".md") || ends_with_text(v.as_slice(), ".markdown")
    }
}

/// The '/'-join of path components.
pub open spec fn path_of_parts(parts: Seq<Seq<char>>) -> Seq<char>
    decreases parts.len(),
{
    if parts.len() == 0 {
        Seq::empty()
    } else if parts.len() == 1 {
        parts[0]
    } else {
        path_of_parts(parts.drop_last()) + seq!['/'] + parts.last()
    }
}

/// None of the components is a name the walk passes over.
pub open spec fn kept_parts(parts: Seq<Seq<char>>) -> bool {
    forall|i: int| 0 <= i < parts.len() ==> !skipped_name(#[trigger] parts[i])
}

/// The components of a note's path below the root: none passed over, the
/// last a Markdown file's name.
pub open spec fn note_parts(parts: Seq<Seq<char>>) -> bool {
    &&& parts.len() >= 1
    &&& kept_parts(parts)
    &&& note_file_name(parts.last())
}

/// A path the walk may list as a note: the '/'-join of components as
/// `note_parts` says.
pub open spec fn listed_note(p: Seq<char>) -> bool {
    exists|parts: Seq<Seq<char>>| #[trigger] note_parts(parts) && path_of_parts(parts) == p
}

/// A directory the walk has had listed: its path below the root, its depth,
/// its entries (each a name and whether it is a directory) and how many of
/// them have been taken.
struct ListedDir {
    path: String,
    depth: usize,
    entries: Vec<(String, bool)>,
    next: usize,
    parts: Ghost<Seq<Seq<char>>>,
}

spec fn dir_ok(d: ListedDir) -> bool {
    &&& d.path@ == path_of_parts(d.parts@)
    &&& kept_parts(d.parts@)
    &&& d.depth == d.parts@.len()
    &&& d.next <= d.entries@.len()
}

/// A walk of the vault's tree, depth first and in the order each directory
/// is listed, as `is_note_entry` decides. The walk asks for one directory
/// at a time; whoever holds the file system lists it and hands the entries
/// back.
pub struct NotesWalk {
    dirs: Vec<ListedDir>,
    found: Vec<String>,
    found_parts: Ghost<Seq<Seq<Seq<char>>>>,
    asked: Option<(String, usize)>,
    asked_parts: Ghost<Seq<Seq<char>>>,
}

impl NotesWalk {
    /// The notes found so far, in the order they were found.
    pub closed spec fn found_notes(&self) -> Seq<Seq<char>> {
        strings(self.found@)
    }

    /// The directory the walk waits to have listed, if any.
    pub closed spec fn waiting_for(&self) -> Option<Seq<char>> {
        match self.asked {
            Some(a) => Some(a.0@),
            None => None,
        }
    }

    pub closed spec fn wf(&self) -> bool {
        &&& self.found@.len() == self.found_parts@.len()
        &&& forall|i: int| #![trigger self.found_parts@[i]] 0 <= i < self.found@.len() ==> note_parts(self.found_parts@[i])
            && self.found@[i]@ == path_of_parts(self.found_parts@[i])
        &&& forall|k: int| 0 <= k < self.dirs@.len() ==> dir_ok(#[trigger] self.dirs@[k])
        &&& match self.asked {
            Some(a) => {
                &&& a.0@ == path_of_parts(self.asked_parts@)
                &&& kept_parts(self.asked_parts@)
                &&& a.1 == self.asked_parts@.len()
            },
            None => true,
        }
    }

    /// A walk that first asks for the root (the empty path).
    pub fn new() -> (w: NotesWalk)
        ensures
            w.wf(),
            w.waiting_for() == Some(Seq::<char>::empty()),
            w.found_notes().len() == 0,
    {
        NotesWalk {
            dirs: Vec::new(),
            found: Vec::new(),
            found_parts: Ghost(Seq::empty()),
            asked: Some((String::new(), 0)),
            asked_parts: Ghost(Seq::empty()),
        }
    }

    /// Whether the walk waits for a directory's entries.
    pub fn waiting(&self) -> (r: bool)
        ensures
            r == (self.waiting_for() is Some),
    {
        self.asked.is_some()
    }

    /// The entries of the directory the walk asked for.
    pub fn listed(&mut self, entries: Vec<(String, bool)>)
        requires
            old(self).wf(),
            old(self).waiting_for() is Some,
        ensures
            final(self).wf(),
            final(self).waiting_for() is None,
            final(self).found_notes() == old(self).found_notes(),
    {
        let ghost a0 = self.asked;
        let asked = self.asked.take();
        if let Some((path, depth)) = asked {
            let d = ListedDir { path, depth, entries, next: 0, parts: Ghost(self.asked_parts@) };
            assert(dir_ok(d));
            let ghost before = self.dirs@;
            self.dirs.push(d);
            assert forall|k: int| 0 <= k < self.dirs@.len() implies dir_ok(#[trigger] self.dirs@[k]) by {
                if k < before.len() {
                    assert(self.dirs@[k] == before[k]);
                }
            }
        }
    }

    /// Takes entries until one is a directory to walk into, and returns its
    /// path, which the walk then waits for; `None` when the walk is done.
    /// Files it keeps are found notes.
    pub fn step(&mut self) -> (r: Option<String>)
        requires
            old(self).wf(),
            old(self).waiting_for() is None,
        ensures
            final(self).wf(),
            match r {
                Some(p) => final(self).waiting_for() == Some(p@),
                None => final(self).waiting_for() is None,
            },
            old(self).found_notes().len() <= final(self).found_notes().len(),
            final(self).found_notes().take(old(self).found_notes().len() as int) == old(self).found_notes(),
    {
        let ghost start = self.found_notes();
        loop
            invariant
                self.wf(),
                self.asked is None,
                start == old(self).found_notes(),
                start.len() <= self.found_notes().len(),
                self.found_notes().take(start.len() as int) == start,
            decreases self.dirs@.len(), if self.dirs@.len() > 0 {
                self.dirs@.last().entries@.len() - self.dirs@.last().next
            } else {
                0
            },
        {
            let n = self.dirs.len();
            if n == 0 {
                return None;
            }
            let ghost before = self.dirs@;
            let mut d = self.dirs.pop().unwrap();
            assert(dir_ok(before[n - 1]));
            if d.next >= d.entries.len() {
                assert forall|k: int| 0 <= k < self.dirs@.len() implies dir_ok(#[trigger] self.dirs@[k]) by {
                    assert(self.dirs@[k] == before[k]);
                }
                continue;
            }
            let i = d.next;
            let name = d.entries[i].0.clone();
            let is_dir = d.entries[i].1;
            d.next = i + 1;
            let keep = is_note_entry(name.as_str(), is_dir, d.depth, self.found.len());
            let child = if d.depth == 0 {
                name.clone()
            } else {
                let with_slash = crate::text::concat(d.path.as_str(), "/");
                crate::text::concat(with_slash.as_str(), name.as_str())
            };
            let ghost child_parts = d.parts@.push(name@);
            proof {
                reveal_strlit("/");
                assert(child_parts.drop_last() =~= d.parts@);
                assert(child@ == path_of_parts(child_parts));
            }
            let depth = d.depth;
            assert(dir_ok(d));
            self.dirs.push(d);
            assert forall|k: int| 0 <= k < self.dirs@.len() implies dir_ok(#[trigger] self.dirs@[k]) by {
                if k < self.dirs@.len() - 1 {
                    assert(self.dirs@[k] == before[k]);
                }
            }
            if keep {
                proof {
                    assert forall|j: int| 0 <= j < child_parts.len() implies !skipped_name(#[trigger] child_parts[j]) by {
                        if j < child_parts.len() - 1 {
                            assert(child_parts[j] == before[n - 1].parts@[j]);
                        }
                    }
                }
                if is_dir {
                    let ask = child.clone();
                    self.asked = Some((child, depth + 1));
                    self.asked_parts = Ghost(child_parts);
                    return Some(ask);
                } else {
                    let ghost fbefore = self.found@;
                    self.found.push(child);
                    self.found_parts = Ghost(self.found_parts@.push(child_parts));
                    proof {
                        assert(forall|j: int| 0 <= j < fbefore.len() ==> self.found@[j] == fbefore[j]);
                        assert(strings(self.found@) =~= strings(fbefore).push(child@));
                        assert(self.found_notes().take(start.len() as int) =~= start);
                    }
                }
            }
        }
    }
}

} // verus!
