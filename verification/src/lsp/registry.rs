//! Which language servers a file wants, and where Mason installed them.

use vstd::prelude::*;
use crate::text::{chars_of, string_of};

verus! {

#[derive(Clone, Debug, PartialEq, Eq)]
pub struct ServerSpec {
    pub name: &'static str,
    pub language_id: &'static str,
    /// The program, then nothing else: its arguments are `args`.
    pub argv: Vec<String>,
    pub args: Vec<String>,
    pub root_markers: Vec<&'static str>,
}

/// `rel` joined onto `base` as a path: `base/rel`, without doubling a slash,
/// and `rel` alone onto an empty base.
pub open spec fn joined(base: Seq<char>, rel: Seq<char>) -> Seq<char> {
    if base.len() == 0 {
        rel
    } else if base.last() == '/' {
        base + rel
    } else {
        base + seq!['/'] + rel
    }
}

/// Where Mason puts the servers' programs under the home directory.
pub open spec fn mason_bin(home: Seq<char>) -> Seq<char> {
    joined(home, ".local/share/nvim/mason/bin"@)
}

pub open spec fn known_server(name: Seq<char>) -> bool {
    name == "rust_analyzer"@ || name == "pyright"@ || name == "ts_ls"@ || name == "eslint"@
        || name == "lua_ls"@
}

/// A server as values: name, language, program, arguments, root markers.
pub struct ServerModel {
    pub name: Seq<char>,
    pub language_id: Seq<char>,
    pub program: Seq<char>,
    pub args: Seq<Seq<char>>,
    pub root_markers: Seq<Seq<char>>,
}

pub open spec fn server_model(s: ServerSpec) -> ServerModel {
    ServerModel {
        name: s.name@,
        language_id: s.language_id@,
        program: if s.argv@.len() > 0 { s.argv@[0]@ } else { Seq::empty() },
        args: s.args@.map_values(|a: String| a@),
        root_markers: s.root_markers@.map_values(|m: &'static str| m@),
    }
}

/// The servers this host knows, each run from Mason's directory.
pub open spec fn spec_server(name: Seq<char>, home: Seq<char>) -> ServerModel {
    let bin = mason_bin(home);
    if name == "rust_analyzer"@ {
        ServerModel {
            name,
            language_id: "rust"@,
            program: joined(bin, "rust-analyzer"@),
            args: seq![],
            root_markers: seq!["Cargo.toml"@, "rust-project.json"@, ".git"@],
        }
    } else if name == "pyright"@ {
        ServerModel {
            name,
            language_id: "python"@,
            program: joined(bin, "pyright-langserver"@),
            args: seq!["--stdio"@],
            root_markers: seq!["pyproject.toml"@, "setup.py"@, "setup.cfg"@, "requirements.txt"@, ".git"@],
        }
    } else if name == "ts_ls"@ {
        ServerModel {
            name,
            language_id: "typescript"@,
            program: joined(bin, "typescript-language-server"@),
            args: seq!["--stdio"@],
            root_markers: seq!["package.json"@, "tsconfig.json"@, "jsconfig.json"@, ".git"@],
        }
    } else if name == "eslint"@ {
        ServerModel {
            name,
            language_id: "javascript"@,
            program: joined(bin, "vscode-eslint-language-server"@),
            args: seq!["--stdio"@],
            root_markers: seq![
                "eslint.config.js"@,
                ".eslintrc"@,
                ".eslintrc.js"@,
                ".eslintrc.json"@,
                "package.json"@,
                ".git"@,
            ],
        }
    } else {
        ServerModel {
            name,
            language_id: "lua"@,
            program: joined(bin, "lua-language-server"@),
            args: seq![],
            root_markers: seq![".luarc.json"@, ".luarc.jsonc"@, ".stylua.toml"@, ".git"@],
        }
    }
}

pub(crate) fn join_path(base: &Vec<char>, rel: &str) -> (r: Vec<char>)
    ensures
        r@ == joined(base@, rel@),
{
    let mut out: Vec<char> = Vec::new();
    let mut i: usize = 0;
    while i < base.len()
        invariant
            i <= base@.len(),
            out@ == base@.take(i as int),
        decreases base@.len() - i,
    {
        out.push(base[i]);
        i = i + 1;
        assert(out@ =~= base@.take(i as int));
    }
    assert(base@.take(i as int) =~= base@);
    if base.len() > 0 && base[base.len() - 1] != '/' {
        out.push('/');
    }
    let tail = chars_of(rel);
    let ghost start = out@;
    let mut k: usize = 0;
    while k < tail.len()
        invariant
            k <= tail@.len(),
            out@ == start + tail@.take(k as int),
        decreases tail@.len() - k,
    {
        out.push(tail[k]);
        k = k + 1;
        assert(out@ =~= start + tail@.take(k as int));
    }
    assert(tail@.take(k as int) =~= tail@);
    out
}

fn strings_of(v: Vec<&'static str>) -> (r: Vec<String>)
    ensures
        r@.map_values(|s: String| s@) == v@.map_values(|s: &'static str| s@),
{
    let mut out: Vec<String> = Vec::new();
    let mut i: usize = 0;
    while i < v.len()
        invariant
            i <= v@.len(),
            out@.len() == i,
            forall|j: int| 0 <= j < i ==> #[trigger] out@[j]@ == v@[j]@,
        decreases v@.len() - i,
    {
        out.push(v[i].to_owned());
        i = i + 1;
    }
    assert(out@.map_values(|s: String| s@) =~= v@.map_values(|s: &'static str| s@));
    out
}

/// The server called `name`, with `home` the user's home directory.
pub fn server(name: &str, home: &str) -> (s: ServerSpec)
    requires
        known_server(name@),
    ensures
        server_model(s) == spec_server(name@, home@),
        s.argv@.len() == 1,
{
    let bin = join_path(&chars_of(home), ".local/share/nvim/mason/bin");
    let name_chars = chars_of(name);
    let is = |word: &str| -> (r: bool)
        ensures
            r == (name@ == word@),
        {
            let w = chars_of(word);
            crate::editcore::key::same_chars(name_chars.as_slice(), w.as_slice())
        };
    let (id, language, program, args, markers): (&'static str, &'static str, &'static str, Vec<&'static str>, Vec<&'static str>) =
        if is("rust_analyzer") {
            ("rust_analyzer", "rust", "rust-analyzer", vec![], vec!["Cargo.toml", "rust-project.json", ".git"])
        } else if is("pyright") {
            (
                "pyright",
                "python",
                "pyright-langserver",
                vec!["--stdio"],
                vec!["pyproject.toml", "setup.py", "setup.cfg", "requirements.txt", ".git"],
            )
        } else if is("ts_ls") {
            (
                "ts_ls",
                "typescript",
                "typescript-language-server",
                vec!["--stdio"],
                vec!["package.json", "tsconfig.json", "jsconfig.json", ".git"],
            )
        } else if is("eslint") {
            (
                "eslint",
                "javascript",
                "vscode-eslint-language-server",
                vec!["--stdio"],
                vec!["eslint.config.js", ".eslintrc", ".eslintrc.js", ".eslintrc.json", "package.json", ".git"],
            )
        } else {
            ("lua_ls", "lua", "lua-language-server", vec![], vec![".luarc.json", ".luarc.jsonc", ".stylua.toml", ".git"])
        };
    let program_path = join_path(&bin, program);
    let argv = vec![string_of(program_path.as_slice())];
    let spec = ServerSpec { name: id, language_id: language, argv, args: strings_of(args), root_markers: markers };
    proof {
        reveal_strlit("rust_analyzer");
        reveal_strlit("pyright");
        reveal_strlit("ts_ls");
        reveal_strlit("eslint");
        reveal_strlit("lua_ls");
    }
    assert(server_model(spec).root_markers =~= spec_server(name@, home@).root_markers);
    assert(server_model(spec).args =~= spec_server(name@, home@).args);
    spec
}

/// The path without trailing `/` and `/.`, which name no file of their own.
pub open spec fn trim_tail(p: Seq<char>) -> Seq<char>
    decreases p.len(),
{
    if p.len() > 0 && p.last() == '/' {
        trim_tail(p.drop_last())
    } else if p.len() >= 2 && p.last() == '.' && p[p.len() - 2] == '/' {
        trim_tail(p.take(p.len() - 2))
    } else {
        p
    }
}

/// The index of the last `c` in `s`, or -1.
pub open spec fn last_index(s: Seq<char>, c: char) -> int
    decreases s.len(),
{
    if s.len() == 0 {
        -1
    } else if s.last() == c {
        s.len() - 1
    } else {
        last_index(s.drop_last(), c)
    }
}

/// The file name's extension: what follows its last dot, when that dot does
/// not start the name.
pub open spec fn extension(path: Seq<char>) -> Option<Seq<char>> {
    let p = trim_tail(path);
    let name = p.skip(last_index(p, '/') + 1);
    let dot = last_index(name, '.');
    if dot > 0 { Some(name.skip(dot + 1)) } else { None }
}

/// The servers a file wants, by its extension.
pub open spec fn servers_for(path: Seq<char>) -> Seq<Seq<char>> {
    match extension(path) {
        Some(e) => if e == "rs"@ {
            seq!["rust_analyzer"@]
        } else if e == "py"@ {
            seq!["pyright"@]
        } else if e == "ts"@ || e == "tsx"@ || e == "js"@ || e == "jsx"@ || e == "mjs"@ || e == "cjs"@ {
            seq!["ts_ls"@, "eslint"@]
        } else if e == "lua"@ {
            seq!["lua_ls"@]
        } else {
            seq![]
        },
        None => seq![],
    }
}

pub(crate) fn last_index_exec(s: &[char], from: usize, to: usize, c: char) -> (r: Option<usize>)
    requires
        from <= to <= s@.len(),
    ensures
        match r {
            Some(k) => from <= k < to && k - from == last_index(s@.subrange(from as int, to as int), c),
            None => last_index(s@.subrange(from as int, to as int), c) == -1,
        },
{
    let mut i = to;
    while i > from
        invariant
            from <= i <= to <= s@.len(),
            last_index(s@.subrange(from as int, to as int), c) == last_index(s@.subrange(from as int, i as int), c),
        decreases i,
    {
        proof {
            assert(s@.subrange(from as int, i as int).drop_last() =~= s@.subrange(from as int, i - 1));
        }
        if s[i - 1] == c {
            return Some(i - 1);
        }
        i = i - 1;
    }
    None
}

pub(crate) fn is_word(v: &[char], from: usize, to: usize, w: &str) -> (r: bool)
    requires
        from <= to <= v@.len(),
    ensures
        r == (v@.subrange(from as int, to as int) == w@),
{
    let piece = crate::editcore::key::copy_range(v, from, to);
    let word = chars_of(w);
    crate::editcore::key::same_chars(piece.as_slice(), word.as_slice())
}

/// The servers for `path`, with `home` the user's home directory.
pub fn servers_for_path(path: &str, home: &str) -> (v: Vec<ServerSpec>)
    ensures
        v@.len() == servers_for(path@).len(),
        forall|i: int| 0 <= i < v@.len() ==> server_model(#[trigger] v@[i]) == spec_server(servers_for(path@)[i], home@),
{
    let chars = chars_of(path);
    let mut end = chars.len();
    assert(chars@.take(end as int) =~= chars@);
    loop
        invariant
            end <= chars@.len(),
            chars@ == path@,
            trim_tail(path@) == trim_tail(chars@.take(end as int)),
        ensures
            end <= chars@.len(),
            trim_tail(path@) == chars@.take(end as int),
        decreases end,
    {
        let ghost p = chars@.take(end as int);
        if end > 0 && chars[end - 1] == '/' {
            assert(p.drop_last() =~= chars@.take(end - 1));
            end = end - 1;
        } else if end >= 2 && chars[end - 1] == '.' && chars[end - 2] == '/' {
            assert(p.take(p.len() - 2) =~= chars@.take(end - 2));
            end = end - 2;
        } else {
            assert(trim_tail(p) == p);
            break;
        }
    }
    let ghost p = chars@.take(end as int);
    let start = match last_index_exec(chars.as_slice(), 0, end, '/') {
        Some(k) => k + 1,
        None => 0,
    };
    assert(chars@.subrange(0, end as int) =~= p);
    let ghost name = p.skip(last_index(p, '/') + 1);
    assert(chars@.subrange(start as int, end as int) =~= name);
    let found = last_index_exec(chars.as_slice(), start, end, '.');
    let mut out: Vec<ServerSpec> = Vec::new();
    proof {
        reveal_strlit("rs");
        reveal_strlit("py");
        reveal_strlit("ts");
        reveal_strlit("tsx");
        reveal_strlit("js");
        reveal_strlit("jsx");
        reveal_strlit("mjs");
        reveal_strlit("cjs");
        reveal_strlit("lua");
        reveal_strlit("rust_analyzer");
        reveal_strlit("pyright");
        reveal_strlit("ts_ls");
        reveal_strlit("eslint");
        reveal_strlit("lua_ls");
    }
    match found {
        Some(dot) => {
            if dot > start {
                let e = dot + 1;
                assert(chars@.subrange(e as int, end as int) =~= name.skip(dot - start + 1));
                if is_word(chars.as_slice(), e, end, "rs") {
                    out.push(server("rust_analyzer", home));
                } else if is_word(chars.as_slice(), e, end, "py") {
                    out.push(server("pyright", home));
                } else if is_word(chars.as_slice(), e, end, "ts") || is_word(chars.as_slice(), e, end, "tsx")
                    || is_word(chars.as_slice(), e, end, "js") || is_word(chars.as_slice(), e, end, "jsx")
                    || is_word(chars.as_slice(), e, end, "mjs") || is_word(chars.as_slice(), e, end, "cjs") {
                    out.push(server("ts_ls", home));
                    out.push(server("eslint", home));
                } else if is_word(chars.as_slice(), e, end, "lua") {
                    out.push(server("lua_ls", home));
                }
            }
        },
        None => {},
    }
    out
}

impl ServerSpec {
    /// What the editor says when the server's program is not there.
    pub fn missing_message(&self) -> (m: String)
        requires
            self.argv@.len() > 0,
        ensures
            m@ == "LSP server '"@ + self.name@ + "' not found at "@ + self.argv@[0]@,
    {
        let mut out: Vec<char> = Vec::new();
        let parts = [chars_of("LSP server '"), chars_of(self.name), chars_of("' not found at "), chars_of(self.argv[0].as_str())];
        let mut p: usize = 0;
        let ghost want = "LSP server '"@ + self.name@ + "' not found at "@ + self.argv@[0]@;
        while p < 4
            invariant
                p <= 4,
                parts@.len() == 4,
                parts@[0]@ == "LSP server '"@,
                parts@[1]@ == self.name@,
                parts@[2]@ == "' not found at "@,
                self.argv@.len() > 0,
                parts@[3]@ == self.argv@[0]@,
                want == "LSP server '"@ + self.name@ + "' not found at "@ + self.argv@[0]@,
                out@ == (if p == 0 { Seq::<char>::empty() } else if p == 1 { parts@[0]@ } else if p == 2 {
                    parts@[0]@ + parts@[1]@
                } else if p == 3 { parts@[0]@ + parts@[1]@ + parts@[2]@ } else { want }),
            decreases 4 - p,
        {
            let piece = &parts[p];
            let ghost before = out@;
            let mut k: usize = 0;
            while k < piece.len()
                invariant
                    k <= piece@.len(),
                    out@ == before + piece@.take(k as int),
                decreases piece@.len() - k,
            {
                out.push(piece[k]);
                k = k + 1;
                assert(out@ =~= before + piece@.take(k as int));
            }
            assert(piece@.take(k as int) =~= piece@);
            p = p + 1;
            assert(out@ =~= (if p == 1 { parts@[0]@ } else if p == 2 { parts@[0]@ + parts@[1]@ } else if p == 3 {
                parts@[0]@ + parts@[1]@ + parts@[2]@
            } else { want }));
        }
        string_of(out.as_slice())
    }
}

/// What `Path::parent` gives for a UTF-8 path.
pub uninterp spec fn path_parent(path: Seq<char>) -> Option<Seq<char>>;

/// Wraps `std::path::Path::parent` on a UTF-8 path. The parent is the path
/// without its final component: a part of the path, so it is read back as
/// the same text, and shorter. Which part it is (separators, `.`
/// components) is only named.
#[verifier::external_body]
fn parent_of(path: &str) -> (r: Option<String>)
    ensures
        match r {
            Some(q) => path_parent(path@) == Some(q@) && q@.len() < path@.len(),
            None => path_parent(path@) is None,
        },
{
    match std::path::Path::new(path).parent() {
        Some(p) => Some(p.to_string_lossy().into_owned()),
        None => None,
    }
}

/// Where the search for a file's project root starts: the file's
/// directory, or `.` for a path without a parent.
pub open spec fn root_start(path: Seq<char>) -> Seq<char> {
    match path_parent(path) {
        Some(q) => q,
        None => "."@,
    }
}

/// `dir` and each directory above it, nearest first.
pub open spec fn ancestors(dir: Seq<char>) -> Seq<Seq<char>>
    decreases dir.len(),
{
    match path_parent(dir) {
        Some(q) => if q.len() < dir.len() {
            seq![dir] + ancestors(q)
        } else {
            seq![dir]
        },
        None => seq![dir],
    }
}

/// The first of `dirs` from `i` on that `marked` says holds a root marker.
pub open spec fn first_marked(dirs: Seq<Seq<char>>, marked: Seq<bool>, i: int) -> Option<Seq<char>>
    decreases dirs.len() - i,
{
    if i < 0 || i >= dirs.len() || i >= marked.len() {
        None
    } else if marked[i] {
        Some(dirs[i])
    } else {
        first_marked(dirs, marked, i + 1)
    }
}

/// The project root of `path`: the nearest directory that holds a marker,
/// else the file's own directory.
pub open spec fn root_of(path: Seq<char>, marked: Seq<bool>) -> Seq<char> {
    match first_marked(ancestors(root_start(path)), marked, 0) {
        Some(d) => d,
        None => root_start(path),
    }
}

/// The directories searched for `path`'s project root, nearest first: its
/// directory and each one above it. Whoever holds the file system says of
/// each whether a root marker is in it.
pub fn root_candidates(path: &str) -> (v: Vec<String>)
    ensures
        crate::picker::strings(v@) == ancestors(root_start(path@)),
{
    let start = match parent_of(path) {
        Some(q) => q,
        None => {
            proof {
                reveal_strlit(".");
            }
            ".".to_string()
        },
    };
    let mut v: Vec<String> = Vec::new();
    let mut cur = start;
    loop
        invariant
            crate::picker::strings(v@) + ancestors(cur@) == ancestors(root_start(path@)),
        decreases cur@.len(),
    {
        let ghost before = v@;
        let ghost c = cur@;
        v.push(cur.clone());
        assert(crate::picker::strings(v@) =~= crate::picker::strings(before).push(c));
        match parent_of(cur.as_str()) {
            Some(q) => {
                assert(ancestors(c) == seq![c] + ancestors(q@));
                assert(crate::picker::strings(before) + ancestors(c) =~= crate::picker::strings(v@) + ancestors(q@));
                cur = q;
            },
            None => {
                assert(ancestors(c) == seq![c]);
                assert(crate::picker::strings(before) + ancestors(c) =~= crate::picker::strings(v@));
                return v;
            },
        }
    }
}

/// The project root of `path`, `marked[k]` saying whether the `k`-th of
/// `root_candidates(path)` holds a root marker: the nearest that does, else
/// the file's own directory.
pub fn root_for(path: &str, marked: &[bool]) -> (r: String)
    ensures
        r@ == root_of(path@, marked@),
{
    let dirs = root_candidates(path);
    let ghost ds = crate::picker::strings(dirs@);
    let mut i: usize = 0;
    while i < dirs.len() && i < marked.len()
        invariant
            ds == crate::picker::strings(dirs@),
            ds == ancestors(root_start(path@)),
            i <= dirs@.len(),
            first_marked(ds, marked@, i as int) == first_marked(ds, marked@, 0),
        decreases dirs@.len() - i,
    {
        if marked[i] {
            assert(ds[i as int] == dirs@[i as int]@);
            return dirs[i].clone();
        }
        i = i + 1;
    }
    assert(first_marked(ds, marked@, i as int) is None);
    match parent_of(path) {
        Some(q) => q,
        None => {
            proof {
                reveal_strlit(".");
            }
            ".".to_string()
        },
    }
}

} // verus!
