//! Which files the file tree hides.
//!
//! A subset of git's ignore language. A rule that cannot be read is skipped,
//! so the file shows: hiding too much is worse than a little noise.

use vstd::prelude::*;
use crate::editcore::buffer::view_lines;
use crate::editcore::key::same_chars;
use crate::git::{lines_of, text_lines};
use crate::run::split_at_char;
use crate::text::{chars_of, trim_range, trim_ws};

verus! {

// ---------------------------------------------------------------------------
// Paths as components
// ---------------------------------------------------------------------------

/// One piece of a path as `Path::components` gives it.
pub enum Comp {
    Root,
    Cur,
    Parent,
    Name(Seq<char>),
}

/// The named pieces of `parts` from `i` on: empty pieces and `.` vanish,
/// `..` goes up.
pub open spec fn named_from(parts: Seq<Seq<char>>, i: int) -> Seq<Comp>
    decreases parts.len() - i,
{
    if i < 0 || i >= parts.len() {
        Seq::empty()
    } else {
        let p = parts[i];
        let rest = named_from(parts, i + 1);
        if p.len() == 0 || p == seq!['.'] {
            rest
        } else if p == seq!['.', '.'] {
            seq![Comp::Parent] + rest
        } else {
            seq![Comp::Name(p)] + rest
        }
    }
}

/// The components of a `/`-separated path: a leading `/` is the root, a
/// leading `.` the current directory; repeated and trailing separators and
/// inner `.` vanish.
pub open spec fn comps(s: Seq<char>) -> Seq<Comp> {
    let parts = split_at_char(s, '/');
    if s.len() > 0 && s[0] == '/' {
        seq![Comp::Root] + named_from(parts, 1)
    } else if parts[0] == seq!['.'] {
        seq![Comp::Cur] + named_from(parts, 1)
    } else {
        named_from(parts, 0)
    }
}

/// The name a path ends in, unless it ends in `..`, the root or `.`.
pub open spec fn file_name(s: Seq<char>) -> Option<Seq<char>> {
    let c = comps(s);
    if c.len() > 0 && c.last() is Name {
        Some(c.last()->Name_0)
    } else {
        None
    }
}

/// The names of `path` below `root` (the whole path when it is not below
/// it); `None` when that holds the root or `..`.
/// The components of `path` below `root`, or all of them when it is not
/// below it.
pub open spec fn below(root: Seq<char>, path: Seq<char>) -> Seq<Comp> {
    let r = comps(root);
    let p = comps(path);
    if r.len() <= p.len() && p.take(r.len() as int) == r { p.skip(r.len() as int) } else { p }
}

/// The names of `path` below `root`; `None` when that holds the root or
/// `..`.
pub open spec fn relative_names(root: Seq<char>, path: Seq<char>) -> Option<Seq<Seq<char>>> {
    if forall|i: int| 0 <= i < below(root, path).len() ==> #[trigger] plain(below(root, path)[i]) {
        Some(names_of(below(root, path)))
    } else {
        None
    }
}

/// A component that is a name, or the current directory.
pub open spec fn plain(c: Comp) -> bool {
    c is Name || c is Cur
}

pub open spec fn names_of(c: Seq<Comp>) -> Seq<Seq<char>>
    decreases c.len(),
{
    if c.len() == 0 {
        Seq::empty()
    } else {
        let rest = names_of(c.drop_first());
        match c[0] {
            Comp::Name(n) => seq![n] + rest,
            _ => rest,
        }
    }
}

// ---------------------------------------------------------------------------
// Patterns
// ---------------------------------------------------------------------------

/// `*` any run of characters, `?` any one character, anything else itself.
pub open spec fn glob(p: Seq<char>, t: Seq<char>) -> bool
    decreases p.len() + t.len(),
{
    if p.len() == 0 {
        t.len() == 0
    } else if p[0] == '*' {
        glob(p.drop_first(), t) || (t.len() > 0 && glob(p, t.drop_first()))
    } else if t.len() == 0 {
        false
    } else if p[0] == '?' || p[0] == t[0] {
        glob(p.drop_first(), t.drop_first())
    } else {
        false
    }
}

/// Pattern pieces against path names, a `**` piece standing for any number
/// of names.
pub open spec fn match_parts(pat: Seq<Seq<char>>, path: Seq<Seq<char>>) -> bool
    decreases pat.len() + path.len(),
{
    if pat.len() == 0 {
        path.len() == 0
    } else if pat[0] == seq!['*', '*'] {
        match_parts(pat.drop_first(), path) || (path.len() > 0 && match_parts(pat, path.drop_first()))
    } else if path.len() == 0 {
        false
    } else {
        glob(pat[0], path[0]) && match_parts(pat.drop_first(), path.drop_first())
    }
}

pub struct PatternModel {
    pub text: Seq<char>,
    pub negated: bool,
    pub anchored: bool,
    pub dir_only: bool,
    pub has_slash: bool,
}

/// One line of a `.gitignore`: blank lines and comments are no pattern; `!`
/// negates, a trailing `/` is for directories, a leading `/` anchors.
pub open spec fn pattern_of(raw: Seq<char>) -> Option<PatternModel> {
    let line = trim_ws(raw);
    if line.len() == 0 || line[0] == '#' {
        None
    } else {
        let negated = line[0] == '!';
        let a = if negated { line.drop_first() } else { line };
        if a.len() == 0 {
            None
        } else {
            let dir_only = a.last() == '/';
            let b = if dir_only { a.drop_last() } else { a };
            let anchored = b.len() > 0 && b[0] == '/';
            let c = if anchored { b.drop_first() } else { b };
            if c.len() == 0 {
                None
            } else {
                Some(PatternModel { text: c, negated, anchored, dir_only, has_slash: c.contains('/') })
            }
        }
    }
}

pub open spec fn patterns_of(lines: Seq<Seq<char>>) -> Seq<PatternModel>
    decreases lines.len(),
{
    if lines.len() == 0 {
        Seq::empty()
    } else {
        let rest = patterns_of(lines.drop_last());
        match pattern_of(lines.last()) {
            Some(p) => rest.push(p),
            None => rest,
        }
    }
}

/// The pieces of a pattern between its slashes.
pub open spec fn pattern_parts(text: Seq<char>) -> Seq<Seq<char>> {
    nonempty(split_at_char(text, '/'))
}

/// The pieces that are not empty, in order.
pub open spec fn nonempty(s: Seq<Seq<char>>) -> Seq<Seq<char>>
    decreases s.len(),
{
    if s.len() == 0 {
        Seq::empty()
    } else if s.last().len() > 0 {
        nonempty(s.drop_last()).push(s.last())
    } else {
        nonempty(s.drop_last())
    }
}

pub open spec fn pattern_matches(p: PatternModel, path: Seq<Seq<char>>) -> bool {
    if path.len() == 0 || pattern_parts(p.text).len() == 0 {
        false
    } else if p.anchored || p.has_slash {
        match_parts(pattern_parts(p.text), path)
    } else {
        exists|i: int| 0 <= i < path.len() && glob(p.text, #[trigger] path[i])
    }
}

/// Whether the patterns hide `path`: the last one that matches decides.
pub open spec fn hidden_by(patterns: Seq<PatternModel>, path: Seq<Seq<char>>, is_dir: bool) -> bool
    decreases patterns.len(),
{
    if patterns.len() == 0 {
        false
    } else {
        let p = patterns.last();
        if (!p.dir_only || is_dir) && pattern_matches(p, path) {
            !p.negated
        } else {
            hidden_by(patterns.drop_last(), path, is_dir)
        }
    }
}

/// Whether the rules `patterns` of the tree at `root` hide `path`.
pub open spec fn hidden_path(patterns: Seq<PatternModel>, root: Seq<char>, path: Seq<char>, is_dir: bool) -> bool {
    (file_name(path) matches Some(n) && builtin(n)) || (relative_names(root, path) matches Some(names) && hidden_by(
        patterns,
        names,
        is_dir,
    ))
}

/// The directories that are always noise.
pub open spec fn builtin(name: Seq<char>) -> bool {
    name == ".git"@ || name == "target"@ || name == "node_modules"@ || name == ".venv"@ || name == "dist"@
        || name == "__pycache__"@
}


// ---------------------------------------------------------------------------
// Executable
// ---------------------------------------------------------------------------

fn glob_from(p: &[char], i: usize, t: &[char], j: usize) -> (r: bool)
    requires
        i <= p@.len(),
        j <= t@.len(),
    ensures
        r == glob(p@.skip(i as int), t@.skip(j as int)),
    decreases (p@.len() - i) + (t@.len() - j),
{
    let ghost ps = p@.skip(i as int);
    let ghost ts = t@.skip(j as int);
    proof {
        if i < p@.len() {
            assert(ps.drop_first() =~= p@.skip(i + 1));
        }
        if j < t@.len() {
            assert(ts.drop_first() =~= t@.skip(j + 1));
        }
    }
    if i == p.len() {
        return j == t.len();
    }
    if p[i] == '*' {
        if glob_from(p, i + 1, t, j) {
            return true;
        }
        return j < t.len() && glob_from(p, i, t, j + 1);
    }
    if j == t.len() {
        return false;
    }
    if p[i] == '?' || p[i] == t[j] {
        return glob_from(p, i + 1, t, j + 1);
    }
    false
}

pub fn glob_matches(p: &[char], t: &[char]) -> (r: bool)
    ensures
        r == glob(p@, t@),
{
    assert(p@.skip(0) =~= p@);
    assert(t@.skip(0) =~= t@);
    glob_from(p, 0, t, 0)
}

pub open spec fn texts_of(v: Seq<Vec<char>>) -> Seq<Seq<char>> {
    v.map_values(|x: Vec<char>| x@)
}

fn is_double_star(v: &Vec<char>) -> (r: bool)
    ensures
        r == (v@ == seq!['*', '*']),
{
    let r = v.len() == 2 && v[0] == '*' && v[1] == '*';
    proof {
        if v@.len() == 2 && v@[0] == '*' && v@[1] == '*' {
            assert(v@ =~= seq!['*', '*']);
        }
    }
    r
}

fn match_parts_from(pat: &Vec<Vec<char>>, i: usize, path: &Vec<Vec<char>>, j: usize) -> (r: bool)
    requires
        i <= pat@.len(),
        j <= path@.len(),
    ensures
        r == match_parts(texts_of(pat@).skip(i as int), texts_of(path@).skip(j as int)),
    decreases (pat@.len() - i) + (path@.len() - j),
{
    let ghost ps = texts_of(pat@).skip(i as int);
    let ghost ts = texts_of(path@).skip(j as int);
    proof {
        if i < pat@.len() {
            assert(ps.drop_first() =~= texts_of(pat@).skip(i + 1));
            assert(ps[0] == pat@[i as int]@);
        }
        if j < path@.len() {
            assert(ts.drop_first() =~= texts_of(path@).skip(j + 1));
            assert(ts[0] == path@[j as int]@);
        }
    }
    if i == pat.len() {
        return j == path.len();
    }
    if is_double_star(&pat[i]) {
        if match_parts_from(pat, i + 1, path, j) {
            return true;
        }
        return j < path.len() && match_parts_from(pat, i, path, j + 1);
    }
    if j == path.len() {
        return false;
    }
    glob_matches(pat[i].as_slice(), path[j].as_slice()) && match_parts_from(pat, i + 1, path, j + 1)
}

/// One ignore pattern.
pub struct Pattern {
    pub text: Vec<char>,
    /// The pieces between its slashes, empty ones left out.
    pub parts: Vec<Vec<char>>,
    pub negated: bool,
    pub anchored: bool,
    pub dir_only: bool,
    pub has_slash: bool,
}

impl Pattern {
    pub open spec fn model(&self) -> PatternModel {
        PatternModel {
            text: self.text@,
            negated: self.negated,
            anchored: self.anchored,
            dir_only: self.dir_only,
            has_slash: self.has_slash,
        }
    }

    pub open spec fn wf(&self) -> bool {
        texts_of(self.parts@) == pattern_parts(self.text@)
    }

    pub fn matches(&self, path: &Vec<Vec<char>>) -> (r: bool)
        requires
            self.wf(),
        ensures
            r == pattern_matches(self.model(), texts_of(path@)),
    {
        if path.len() == 0 || self.parts.len() == 0 {
            return false;
        }
        if self.anchored || self.has_slash {
            proof {
                assert(texts_of(self.parts@).skip(0) =~= texts_of(self.parts@));
                assert(texts_of(path@).skip(0) =~= texts_of(path@));
            }
            return match_parts_from(&self.parts, 0, path, 0);
        }
        let mut k: usize = 0;
        while k < path.len()
            invariant
                k <= path@.len(),
                self.wf(),
                self.parts@.len() > 0,
                path@.len() > 0,
                !(self.anchored || self.has_slash),
                forall|q: int| 0 <= q < k ==> !glob(self.text@, #[trigger] texts_of(path@)[q]),
            decreases path@.len() - k,
        {
            if glob_matches(self.text.as_slice(), path[k].as_slice()) {
                assert(texts_of(path@)[k as int] == path@[k as int]@);
                assert(glob(self.text@, texts_of(path@)[k as int]));
                assert(texts_of(self.parts@).len() > 0);
                return true;
            }
            k = k + 1;
        }
        false
    }
}

fn filter_nonempty(v: Vec<Vec<char>>) -> (r: Vec<Vec<char>>)
    ensures
        texts_of(r@) == nonempty(texts_of(v@)),
{
    let mut r: Vec<Vec<char>> = Vec::new();
    let mut i: usize = 0;
    while i < v.len()
        invariant
            i <= v@.len(),
            texts_of(r@) == nonempty(texts_of(v@).take(i as int)),
        decreases v@.len() - i,
    {
        proof {
            let t = texts_of(v@);
            assert(t.take(i + 1).drop_last() =~= t.take(i as int));
            assert(t.take(i + 1).last() == v@[i as int]@);
        }
        if v[i].len() > 0 {
            let piece = crate::editcore::key::copy_range(v[i].as_slice(), 0, v[i].len());
            assert(v@[i as int]@.subrange(0, v@[i as int]@.len() as int) =~= v@[i as int]@);
            r.push(piece);
            assert(texts_of(r@) =~= nonempty(texts_of(v@).take(i + 1)));
        }
        i = i + 1;
    }
    assert(texts_of(v@).take(v@.len() as int) =~= texts_of(v@));
    r
}

#[verifier::rlimit(60)]
fn parse_line(raw: &Vec<char>) -> (r: Option<Pattern>)
    ensures
        match r {
            Some(p) => p.wf() && pattern_of(raw@) == Some(p.model()),
            None => pattern_of(raw@) is None,
        },
{
    let (a, b) = trim_range(raw.as_slice(), 0, raw.len());
    assert(raw@.subrange(0, raw@.len() as int) =~= raw@);
    let ghost line = raw@.subrange(a as int, b as int);
    if a == b || raw[a] == '#' {
        return None;
    }
    let negated = raw[a] == '!';
    let a1 = if negated { a + 1 } else { a };
    if a1 == b {
        return None;
    }
    let dir_only = raw[b - 1] == '/';
    let b1 = if dir_only { b - 1 } else { b };
    let anchored = a1 < b1 && raw[a1] == '/';
    let a2 = if anchored { a1 + 1 } else { a1 };
    proof {
        let la = if negated { line.drop_first() } else { line };
        assert(la =~= raw@.subrange(a1 as int, b as int));
        let lb = if dir_only { la.drop_last() } else { la };
        assert(lb =~= raw@.subrange(a1 as int, b1 as int));
        let lc = if anchored { lb.drop_first() } else { lb };
        assert(lc =~= raw@.subrange(a2 as int, b1 as int));
    }
    if a2 >= b1 {
        return None;
    }
    let text = crate::editcore::key::copy_range(raw.as_slice(), a2, b1);
    let mut has_slash = false;
    let mut k: usize = 0;
    while k < text.len()
        invariant
            k <= text@.len(),
            has_slash == exists|q: int| 0 <= q < k && text@[q] == '/',
        decreases text@.len() - k,
    {
        if text[k] == '/' {
            has_slash = true;
        }
        k = k + 1;
    }
    proof {
        if has_slash {
            let q = choose|q: int| 0 <= q < text@.len() && text@[q] == '/';
            assert(text@.contains('/'));
        } else if text@.contains('/') {
            let q = choose|q: int| 0 <= q < text@.len() && text@[q] == '/';
            assert(false);
        }
    }
    let pieces = crate::run::split_chars(text.as_slice(), '/');
    proof {
        assert(texts_of(pieces@) == split_at_char(text@, '/'));
    }
    let parts = filter_nonempty(pieces);
    Some(Pattern { text, parts, negated, anchored, dir_only, has_slash })
}

/// The patterns a `.gitignore` text holds, in order.
pub fn parse_gitignore(text: &str) -> (r: Vec<Pattern>)
    ensures
        r@.map_values(|p: Pattern| p.model()) == patterns_of(text_lines(text@)),
        forall|i: int| 0 <= i < r@.len() ==> (#[trigger] r@[i]).wf(),
{
    let lines = lines_of(text);
    let ghost ls = view_lines(lines@);
    let mut out: Vec<Pattern> = Vec::new();
    let mut i: usize = 0;
    while i < lines.len()
        invariant
            i <= lines@.len(),
            ls == view_lines(lines@),
            ls == text_lines(text@),
            out@.map_values(|p: Pattern| p.model()) == patterns_of(ls.take(i as int)),
            forall|k: int| 0 <= k < out@.len() ==> (#[trigger] out@[k]).wf(),
        decreases lines@.len() - i,
    {
        proof {
            assert(ls.take(i + 1).drop_last() =~= ls.take(i as int));
            assert(ls.take(i + 1).last() == lines@[i as int]@);
        }
        match parse_line(&lines[i]) {
            Some(p) => {
                out.push(p);
                assert(out@.map_values(|p: Pattern| p.model()) =~= patterns_of(ls.take(i + 1)));
            },
            None => {},
        }
        i = i + 1;
    }
    assert(ls.take(lines@.len() as int) =~= ls);
    out
}


/// A path component, as it is held.
pub enum Component {
    Root,
    Cur,
    Parent,
    Name(Vec<char>),
}

pub open spec fn comp_model(c: Component) -> Comp {
    match c {
        Component::Root => Comp::Root,
        Component::Cur => Comp::Cur,
        Component::Parent => Comp::Parent,
        Component::Name(n) => Comp::Name(n@),
    }
}

pub open spec fn comp_models(v: Seq<Component>) -> Seq<Comp> {
    v.map_values(|c: Component| comp_model(c))
}

proof fn lemma_split_len(s: Seq<char>, sep: char)
    ensures
        split_at_char(s, sep).len() >= 1,
    decreases s.len(),
{
    if s.len() > 0 {
        lemma_split_len(s.drop_last(), sep);
    }
}

fn is_chars(v: &Vec<char>, w: &str) -> (r: bool)
    ensures
        r == (v@ == w@),
{
    let c = chars_of(w);
    same_chars(v.as_slice(), c.as_slice())
}

/// The components of a `/`-separated path, as `Path::components` gives them.
pub fn components(s: &str) -> (r: Vec<Component>)
    ensures
        comp_models(r@) == comps(s@),
{
    let chars = chars_of(s);
    let parts = crate::run::split_chars(chars.as_slice(), '/');
    let ghost ps = parts@.map_values(|p: Vec<char>| p@);
    proof {
        lemma_split_len(s@, '/');
        reveal_strlit(".");
        reveal_strlit("..");
    }
    let mut out: Vec<Component> = Vec::new();
    let start: usize = if chars.len() > 0 && chars[0] == '/' {
        out.push(Component::Root);
        1
    } else if is_chars(&parts[0], ".") {
        out.push(Component::Cur);
        1
    } else {
        0
    };
    let ghost lead = comp_models(out@);
    proof {
        assert(ps[0] == parts@[0]@);
        assert(comps(s@) == lead + named_from(ps, start as int)) by {
            if s@.len() > 0 && s@[0] == '/' {
                assert(lead =~= seq![Comp::Root]);
            } else if ps[0] == seq!['.'] {
                assert("."@ =~= seq!['.']);
                assert(lead =~= seq![Comp::Cur]);
            } else {
                assert("."@ =~= seq!['.']);
                assert(lead =~= Seq::<Comp>::empty());
            }
        }
    }
    let mut i = start;
    while i < parts.len()
        invariant
            start <= i <= parts@.len(),
            ps == parts@.map_values(|p: Vec<char>| p@),
            comp_models(out@) + named_from(ps, i as int) == lead + named_from(ps, start as int),
        decreases parts@.len() - i,
    {
        let part = &parts[i];
        assert(ps[i as int] == part@);
        proof {
            reveal_strlit(".");
            reveal_strlit("..");
            assert("."@ =~= seq!['.']);
            assert(".."@ =~= seq!['.', '.']);
        }
        if part.len() == 0 || is_chars(part, ".") {
        } else if is_chars(part, "..") {
            out.push(Component::Parent);
            assert(comp_models(out@) =~= comp_models(out@.drop_last()).push(Comp::Parent));
        } else {
            let name = crate::editcore::key::copy_range(part.as_slice(), 0, part.len());
            assert(part@.subrange(0, part@.len() as int) =~= part@);
            out.push(Component::Name(name));
            assert(comp_models(out@) =~= comp_models(out@.drop_last()).push(Comp::Name(part@)));
        }
        i = i + 1;
    }
    assert(comp_models(out@) =~= comps(s@));
    out
}

fn same_component(a: &Component, b: &Component) -> (r: bool)
    ensures
        r == (comp_model(*a) == comp_model(*b)),
{
    match (a, b) {
        (Component::Root, Component::Root) => true,
        (Component::Cur, Component::Cur) => true,
        (Component::Parent, Component::Parent) => true,
        (Component::Name(x), Component::Name(y)) => same_chars(x.as_slice(), y.as_slice()),
        _ => false,
    }
}

fn is_builtin(name: &Vec<char>) -> (r: bool)
    ensures
        r == builtin(name@),
{
    is_chars(name, ".git") || is_chars(name, "target") || is_chars(name, "node_modules") || is_chars(name, ".venv")
        || is_chars(name, "dist") || is_chars(name, "__pycache__")
}

/// The rules for one root: the built-in noise and its `.gitignore`.
pub struct IgnoreRules {
    pub root: String,
    pub patterns: Vec<Pattern>,
}

impl IgnoreRules {
    pub open spec fn wf(&self) -> bool {
        forall|i: int| 0 <= i < self.patterns@.len() ==> (#[trigger] self.patterns@[i]).wf()
    }

    pub open spec fn models(&self) -> Seq<PatternModel> {
        self.patterns@.map_values(|p: Pattern| p.model())
    }

    /// The rules of `root`, whose `.gitignore` the host read as `gitignore`
    /// (`None` when there is none).
    pub fn load(root: String, gitignore: Option<String>) -> (r: IgnoreRules)
        ensures
            r.wf(),
            r.root == root,
            r.models() == match gitignore {
                Some(t) => patterns_of(text_lines(t@)),
                None => Seq::empty(),
            },
    {
        match gitignore {
            Some(text) => IgnoreRules { root, patterns: parse_gitignore(text.as_str()) },
            None => {
                let r = IgnoreRules { root, patterns: Vec::new() };
                assert(r.models() =~= Seq::<PatternModel>::empty());
                r
            },
        }
    }

    /// Only the built-in noise.
    pub fn empty(root: String) -> (r: IgnoreRules)
        ensures
            r.wf(),
            r.root == root,
            r.models().len() == 0,
    {
        IgnoreRules { root, patterns: Vec::new() }
    }

    /// Whether `path` is hidden: a built-in name always is; otherwise the
    /// last pattern that matches its names below the root decides, and a
    /// path that leaves the root shows.
    pub fn ignored(&self, path: &str, is_dir: bool) -> (r: bool)
        requires
            self.wf(),
        ensures
            r == ((file_name(path@) matches Some(n) && builtin(n)) || (relative_names(self.root@, path@) matches Some(
                names,
            ) && hidden_by(self.models(), names, is_dir))),
            r == hidden_path(self.models(), self.root@, path@, is_dir),
    {
        let pc = components(path);
        let n = pc.len();
        if n > 0 {
            if let Component::Name(name) = &pc[n - 1] {
                if is_builtin(name) {
                    assert(comp_models(pc@).last() == Comp::Name(name@));
                    return true;
                }
            }
        }
        proof {
            if let Some(nm) = file_name(path@) {
                assert(comp_models(pc@).last() == comp_model(pc@[n - 1]));
                assert(!builtin(nm));
            }
        }
        let rc = components(self.root.as_str());
        let mut prefix = rc.len() <= pc.len();
        let mut k: usize = 0;
        while prefix && k < rc.len()
            invariant
                k <= rc@.len(),
                prefix ==> rc@.len() <= pc@.len(),
                prefix ==> forall|q: int| 0 <= q < k ==> comp_model(rc@[q]) == comp_model(#[trigger] pc@[q]),
                !prefix ==> !(rc@.len() <= pc@.len() && comp_models(pc@).take(rc@.len() as int) == comp_models(rc@)),
            decreases rc@.len() - k,
        {
            if !same_component(&rc[k], &pc[k]) {
                prefix = false;
                proof {
                    if rc@.len() <= pc@.len() && comp_models(pc@).take(rc@.len() as int) == comp_models(rc@) {
                        assert(comp_models(pc@).take(rc@.len() as int)[k as int] == comp_model(pc@[k as int]));
                        assert(comp_models(rc@)[k as int] == comp_model(rc@[k as int]));
                    }
                }
            }
            k = k + 1;
        }
        proof {
            if prefix {
                assert(comp_models(pc@).take(rc@.len() as int) =~= comp_models(rc@));
            }
        }
        let skip = if prefix { rc.len() } else { 0 };
        let ghost rest = comp_models(pc@).skip(skip as int);
        proof {
            if !prefix {
                assert(rest =~= comp_models(pc@));
            }
        }
        let mut names: Vec<Vec<char>> = Vec::new();
        let mut j = skip;
        proof {
            assert(rest.skip(0) =~= rest);
            assert(texts_of(names@) =~= Seq::<Seq<char>>::empty());
            assert(texts_of(names@) + names_of(rest.skip(0)) =~= names_of(rest));
        }
        let ghost base = below(self.root@, path@);
        assert(rest == base);
        while j < pc.len()
            invariant
                skip <= j <= pc@.len(),
                rest == comp_models(pc@).skip(skip as int),
                rest == base,
                base == below(self.root@, path@),
                !(file_name(path@) matches Some(nm) && builtin(nm)),
                forall|q: int| 0 <= q < j - skip ==> #[trigger] plain(rest[q]),
                texts_of(names@) + names_of(rest.skip(j - skip)) == names_of(rest),
            decreases pc@.len() - j,
        {
            let ghost tail = rest.skip(j - skip);
            assert(tail[0] == comp_model(pc@[j as int]));
            assert(tail.drop_first() =~= rest.skip(j - skip + 1));
            match &pc[j] {
                Component::Name(nm) => {
                    let copy = crate::editcore::key::copy_range(nm.as_slice(), 0, nm.len());
                    assert(nm@.subrange(0, nm@.len() as int) =~= nm@);
                    names.push(copy);
                    assert(texts_of(names@) =~= texts_of(names@.drop_last()).push(nm@));
                },
                Component::Cur => {},
                _ => {
                    proof {
                        let q = j - skip;
                        let rr = below(self.root@, path@);
                        assert(!plain(rr[q]));
                        assert(0 <= q < rr.len());
                        assert(!(forall|i: int| 0 <= i < rr.len() ==> #[trigger] plain(rr[i])));
                        assert(relative_names(self.root@, path@) is None);
                    }
                    return false;
                },
            }
            j = j + 1;
        }
        proof {
            assert(rest.skip(rest.len() as int) =~= Seq::<Comp>::empty());
            assert(texts_of(names@) =~= names_of(rest));
        }
        let mut hidden = false;
        let mut i: usize = 0;
        while i < self.patterns.len()
            invariant
                self.wf(),
                i <= self.patterns@.len(),
                hidden == hidden_by(self.models().take(i as int), texts_of(names@), is_dir),
            decreases self.patterns@.len() - i,
        {
            let p = &self.patterns[i];
            proof {
                assert(self.models().take(i + 1).drop_last() =~= self.models().take(i as int));
                assert(self.models().take(i + 1).last() == p.model());
            }
            if !(p.dir_only && !is_dir) && p.matches(&names) {
                hidden = !p.negated;
            }
            i = i + 1;
        }
        assert(self.models().take(self.patterns@.len() as int) =~= self.models());
        hidden
    }
}


// ---------------------------------------------------------------------------
// Laws
// ---------------------------------------------------------------------------

proof fn lemma_split_without_sep(s: Seq<char>, sep: char)
    requires
        !s.contains(sep),
    ensures
        split_at_char(s, sep) == seq![s],
    decreases s.len(),
{
    if s.len() > 0 {
        assert(!s.drop_last().contains(sep)) by {
            if s.drop_last().contains(sep) {
                let i = choose|i: int| 0 <= i < s.drop_last().len() && s.drop_last()[i] == sep;
                assert(s[i] == sep);
            }
        }
        lemma_split_without_sep(s.drop_last(), sep);
        assert(s.last() != sep) by {
            assert(s[s.len() - 1] == s.last());
        }
        assert(s.drop_last().push(s.last()) =~= s);
        let rest = split_at_char(s.drop_last(), sep);
        assert(rest.update(rest.len() - 1, rest.last().push(s.last())) =~= seq![s]);
    } else {
        assert(s =~= Seq::<char>::empty());
        assert(seq![Seq::<char>::empty()] =~= seq![s]);
    }
}

/// Text without a `*` matches itself.
pub proof fn lemma_glob_itself(t: Seq<char>)
    requires
        forall|i: int| 0 <= i < t.len() ==> t[i] != '*',
    ensures
        glob(t, t),
    decreases t.len(),
{
    if t.len() > 0 {
        assert(t[0] != '*');
        lemma_glob_itself(t.drop_first());
    }
}

/// A pattern without a slash stands for a name anywhere below the root: a
/// path is matched as soon as any one of its names matches the pattern (a
/// directory on the way as much as the last name), and, the last pattern
/// that matches deciding, such a plain pattern written last hides the path,
/// file or directory.
pub proof fn law_a_bare_pattern_matches_any_name_on_the_path(
    raw: Seq<char>,
    p: PatternModel,
    earlier: Seq<PatternModel>,
    path: Seq<Seq<char>>,
    i: int,
    is_dir: bool,
)
    requires
        pattern_of(raw) == Some(p),
        !p.anchored,
        !p.has_slash,
        0 <= i < path.len(),
        glob(p.text, path[i]),
    ensures
        pattern_matches(p, path),
        !p.negated && !p.dir_only ==> hidden_by(earlier.push(p), path, is_dir),
        p.negated && !p.dir_only ==> !hidden_by(earlier.push(p), path, is_dir),
{
    assert(!p.text.contains('/'));
    lemma_split_without_sep(p.text, '/');
    assert(p.text.len() > 0);
    assert(nonempty(seq![p.text]) =~= seq![p.text]) by {
        let one = seq![p.text];
        assert(one.drop_last() =~= Seq::<Seq<char>>::empty());
        assert(one.last() == p.text);
        assert(nonempty(one.drop_last()) =~= Seq::<Seq<char>>::empty());
        assert(Seq::<Seq<char>>::empty().push(p.text) =~= one);
    }
    assert(pattern_parts(p.text).len() == 1);
    assert(earlier.push(p).drop_last() =~= earlier);
}

/// A literal name (no `*`) on a line of its own hides every path that goes
/// through a file or directory of that name: `build` hides `build/out.o`.
pub proof fn law_a_name_hides_what_lies_under_it(
    raw: Seq<char>,
    p: PatternModel,
    earlier: Seq<PatternModel>,
    path: Seq<Seq<char>>,
    i: int,
    is_dir: bool,
)
    requires
        pattern_of(raw) == Some(p),
        !p.anchored,
        !p.has_slash,
        !p.negated,
        !p.dir_only,
        forall|j: int| 0 <= j < p.text.len() ==> p.text[j] != '*',
        0 <= i < path.len(),
        path[i] == p.text,
    ensures
        hidden_by(earlier.push(p), path, is_dir),
{
    lemma_glob_itself(p.text);
    law_a_bare_pattern_matches_any_name_on_the_path(raw, p, earlier, path, i, is_dir);
}


/// A name without `*` or `?` matches only itself.
pub proof fn lemma_glob_literal(t: Seq<char>, x: Seq<char>)
    requires
        forall|i: int| 0 <= i < t.len() ==> t[i] != '*' && t[i] != '?',
    ensures
        glob(t, x) <==> x == t,
    decreases t.len() + x.len(),
{
    if t.len() == 0 {
        if x.len() == 0 {
            assert(x =~= t);
        }
    } else {
        assert(t[0] != '*' && t[0] != '?');
        if x.len() > 0 {
            lemma_glob_literal(t.drop_first(), x.drop_first());
            if x == t {
                assert(x.drop_first() == t.drop_first());
            }
            if x[0] == t[0] && x.drop_first() == t.drop_first() {
                assert forall|i: int| 0 <= i < x.len() implies x[i] == t[i] by {
                    if i > 0 {
                        assert(x[i] == x.drop_first()[i - 1]);
                        assert(t[i] == t.drop_first()[i - 1]);
                    }
                }
                assert(x =~= t);
            }
        }
    }
}

/// The last pattern that matches decides: a path it matches (a file only
/// when the pattern is not for directories) is hidden unless the pattern is
/// negated, whatever the patterns before it say; a pattern that does not
/// apply leaves the decision to those before it.
pub proof fn law_the_last_matching_pattern_decides(
    earlier: Seq<PatternModel>,
    p: PatternModel,
    path: Seq<Seq<char>>,
    is_dir: bool,
)
    ensures
        (!p.dir_only || is_dir) && pattern_matches(p, path) ==> hidden_by(earlier.push(p), path, is_dir) == !p.negated,
        !((!p.dir_only || is_dir) && pattern_matches(p, path)) ==> hidden_by(earlier.push(p), path, is_dir)
            == hidden_by(earlier, path, is_dir),
{
    assert(earlier.push(p).drop_last() =~= earlier);
}

/// A pattern for directories (a trailing `/`) never hides a file.
pub proof fn law_a_directory_pattern_passes_files_by(earlier: Seq<PatternModel>, p: PatternModel, path: Seq<Seq<char>>)
    requires
        p.dir_only,
    ensures
        hidden_by(earlier.push(p), path, false) == hidden_by(earlier, path, false),
{
    assert(earlier.push(p).drop_last() =~= earlier);
}

/// An anchored name (a leading `/`, no other slash, no wildcard) matches
/// only that name right below the root: `/build` matches `build` but not
/// `src/build`, nor anything under `build`.
pub proof fn law_an_anchored_name_matches_only_at_the_root(raw: Seq<char>, p: PatternModel, path: Seq<Seq<char>>)
    requires
        pattern_of(raw) == Some(p),
        p.anchored,
        !p.has_slash,
        forall|j: int| 0 <= j < p.text.len() ==> p.text[j] != '*' && p.text[j] != '?',
    ensures
        pattern_matches(p, path) <==> path == seq![p.text],
{
    assert(!p.text.contains('/'));
    lemma_split_without_sep(p.text, '/');
    assert(nonempty(seq![p.text]) =~= seq![p.text]) by {
        let one = seq![p.text];
        assert(one.drop_last() =~= Seq::<Seq<char>>::empty());
        assert(one.last() == p.text);
        assert(nonempty(one.drop_last()) =~= Seq::<Seq<char>>::empty());
        assert(Seq::<Seq<char>>::empty().push(p.text) =~= one);
    }
    let parts = pattern_parts(p.text);
    assert(parts == seq![p.text]);
    assert(parts[0] != seq!['*', '*']) by {
        if parts[0] == seq!['*', '*'] {
            assert(p.text[0] == '*');
        }
    }
    assert(parts.drop_first() =~= Seq::<Seq<char>>::empty());
    if path.len() > 0 {
        lemma_glob_literal(p.text, path[0]);
        assert(match_parts(parts.drop_first(), path.drop_first()) <==> path.drop_first().len() == 0);
        assert(match_parts(parts, path) == (glob(parts[0], path[0]) && match_parts(parts.drop_first(), path.drop_first())));
        if path.len() == 1 && path[0] == p.text {
            assert(path =~= seq![p.text]);
        }
        if path == seq![p.text] {
            assert(path[0] == p.text);
            assert(path.drop_first().len() == 0);
        }
    }
}


/// The build and tool directories are always hidden, whatever the patterns
/// say, negated ones included: `.git`, `target`, `node_modules`, `.venv`,
/// `dist`.
pub proof fn law_the_noise_directories_are_always_hidden(
    patterns: Seq<PatternModel>,
    root: Seq<char>,
    path: Seq<char>,
    is_dir: bool,
)
    requires
        file_name(path) == Some(".git"@) || file_name(path) == Some("target"@) || file_name(path) == Some(
            "node_modules"@,
        ) || file_name(path) == Some(".venv"@) || file_name(path) == Some("dist"@),
    ensures
        hidden_path(patterns, root, path, is_dir),
{
}


} // verus!
