//! `huzi.toml`: the package manifest, read and written by hand (no TOML
//! library), `[package]` keys and `[dependencies]` entries.
use crate::keyed::{
    key_index, keyed_insert, lemma_key_index, lemma_keyed_insert_unique, lemma_sort_keeps,
    lemma_sort_sorted, names_unique, sort_by_name,
};
use crate::lock::{clean_name, kv_line, lemma_kv_line, plain_key};
use crate::text::{
    is_ws, lemma_before_first_absent, lemma_first_index, lemma_lines_join,
    lemma_split_join, lemma_split_on_no_sep, lemma_strip_end_one, lemma_strip_start_one,
    lemma_trim_end_space, lemma_trim_noop, lemma_trim_start_space, plain_lines, strip_end,
    strip_start, trim_end, trim_matches, trim_start,
    before_first, before_first_char, chars_eq, chars_lt, chars_of, eq_str, join_lines, lines,
    lines_of, push_all, push_str, seq_lt, slice_copy, split_chars, split_on, split_once,
    split_once_char, string_of, trim, trim_chars, trim_quotes, trim_quotes_spec, views,
};
use crate::version::{parse_req_ok, parse_req_spec, parse_version_req, VersionReq};
use vstd::prelude::*;

verus! {

/// A dependency: the version requirement text (kept verbatim) and an
/// optional local path.
#[derive(Debug, Clone, PartialEq)]
pub struct Dependency {
    pub version: String,
    pub path: Option<String>,
}

/// The package manifest.
#[derive(Debug, Clone, PartialEq)]
pub struct Manifest {
    pub name: String,
    pub version: String,
    pub entry: Option<String>,
    pub lib_entry: Option<String>,
    /// Dependencies by name; a name occurs at most once.
    pub dependencies: Vec<(String, Dependency)>,
}

pub type DepView = (Seq<char>, Option<Seq<char>>);

pub open spec fn opt_str(o: Option<String>) -> Option<Seq<char>> {
    match o {
        Some(s) => Some(s@),
        None => None,
    }
}

impl View for Dependency {
    type V = DepView;

    open spec fn view(&self) -> DepView {
        (self.version@, opt_str(self.path))
    }
}

pub open spec fn deps_view(d: Seq<(String, Dependency)>) -> Seq<(Seq<char>, DepView)> {
    d.map_values(|p: (String, Dependency)| (p.0@, p.1@))
}

/// The manifest as values.
pub struct ManifestView {
    pub name: Seq<char>,
    pub version: Seq<char>,
    pub entry: Option<Seq<char>>,
    pub lib_entry: Option<Seq<char>>,
    pub deps: Seq<(Seq<char>, DepView)>,
}

impl View for Manifest {
    type V = ManifestView;

    open spec fn view(&self) -> ManifestView {
        ManifestView {
            name: self.name@,
            version: self.version@,
            entry: opt_str(self.entry),
            lib_entry: opt_str(self.lib_entry),
            deps: deps_view(self.dependencies@),
        }
    }
}

impl Manifest {
    /// Dependency names are distinct.
    pub open spec fn wf(&self) -> bool {
        names_unique(self@.deps)
    }

    /// The dependency declared under `name`.
    pub fn dependency(&self, name: &str) -> (r: Option<&Dependency>)
        ensures
            match r {
                Some(d) => key_index(self@.deps, name@) < self@.deps.len() && self@.deps[key_index(
                    self@.deps,
                    name@,
                )].1 == d@,
                None => key_index(self@.deps, name@) == self@.deps.len(),
            },
    {
        let n = chars_of(name);
        let i = find_dep(&self.dependencies, n.as_slice());
        if i < self.dependencies.len() {
            Some(&self.dependencies[i].1)
        } else {
            None
        }
    }
}

impl Manifest {
    /// Declares dependency `name`: replaces its declaration in place when it
    /// has one, otherwise adds it last.
    pub fn set_dependency(&mut self, name: &str, dep: Dependency)
        requires
            old(self).wf(),
        ensures
            final(self).wf(),
            final(self)@ == (ManifestView { deps: keyed_insert(old(self)@.deps, name@, dep@), ..old(self)@ }),
    {
        let key = chars_of(name);
        insert_dep(&mut self.dependencies, key.as_slice(), dep);
    }
}

/// Index of the dependency named `key` (`deps.len()` when absent).
fn find_dep(deps: &Vec<(String, Dependency)>, key: &[char]) -> (r: usize)
    ensures
        r as int == key_index(deps_view(deps@), key@),
        r <= deps.len(),
{
    let ghost dv = deps_view(deps@);
    let mut i: usize = 0;
    while i < deps.len()
        invariant
            0 <= i <= deps.len(),
            dv == deps_view(deps@),
            forall|j: int| 0 <= j < i ==> dv[j].0 != key@,
        decreases deps.len() - i,
    {
        let k = chars_of(deps[i].0.as_str());
        if chars_eq(k.as_slice(), key) {
            proof {
                lemma_key_index(dv, key@, i as int);
            }
            return i;
        }
        i += 1;
    }
    proof {
        lemma_key_index(dv, key@, i as int);
    }
    i
}

pub open spec fn manifest_default() -> ManifestView {
    ManifestView {
        name: "app"@,
        version: "0.1.0"@,
        entry: None,
        lib_entry: None,
        deps: Seq::empty(),
    }
}

impl Default for Manifest {
    fn default() -> (r: Self)
        ensures
            r@ == manifest_default(),
    {
        let r = Manifest {
            name: string_of(chars_of("app").as_slice()),
            version: string_of(chars_of("0.1.0").as_slice()),
            entry: None,
            lib_entry: None,
            dependencies: Vec::new(),
        };
        assert(r.dependencies@ =~= Seq::<(String, Dependency)>::empty());
        assert(r@.deps =~= Seq::<(Seq<char>, DepView)>::empty());
        r
    }
}

impl Dependency {
    /// The version text read as a requirement (the text itself is unchanged).
    pub fn version_req(&self) -> (r: Result<VersionReq, String>)
        requires
            !(parse_req_spec(self.version@) is Overflows),
        ensures
            parse_req_ok(self.version@, r),
    {
        parse_version_req(self.version.as_str())
    }
}

/// One `key: value` or `key = value` pair of an inline dependency table.
pub open spec fn dep_pair(acc: DepView, pair: Seq<char>) -> DepView {
    let kv = match split_once(pair, ':') {
        Some(x) => Some(x),
        None => split_once(pair, '='),
    };
    match kv {
        None => acc,
        Some((k, v)) => {
            let key = trim(k);
            let val = trim_quotes_spec(v);
            if key == "version"@ {
                (val, acc.1)
            } else if key == "path"@ {
                (acc.0, Some(val))
            } else {
                acc
            }
        },
    }
}

/// The pairs read in order, starting from version `0.1.0` and no path.
pub open spec fn dep_fold(pairs: Seq<Seq<char>>) -> DepView
    decreases pairs.len(),
{
    if pairs.len() == 0 {
        ("0.1.0"@, None)
    } else {
        dep_pair(dep_fold(pairs.drop_last()), pairs.last())
    }
}

/// A dependency value: an inline table `{ version = "..", path = ".." }`
/// or a quoted version.
pub open spec fn parse_dep_spec(val: Seq<char>) -> DepView {
    let v = trim(val);
    if v.len() > 0 && v[0] == '{' && v.last() == '}' {
        dep_fold(split_on(v.subrange(1, v.len() - 1), ','))
    } else {
        (trim_quotes_spec(v), None)
    }
}

/// What a manifest scan holds after some lines.
pub struct ManifestScan {
    pub m: ManifestView,
    pub section: Seq<char>,
}

/// One manifest line: comments after `#` are dropped, `[name]` selects a
/// section, and `key = value` sets a `[package]` key or a dependency; other
/// lines are ignored.
pub open spec fn manifest_line(st: ManifestScan, raw: Seq<char>) -> ManifestScan {
    let line = trim(before_first(raw, '#'));
    let m = st.m;
    if line.len() == 0 {
        st
    } else if line[0] == '[' && line.last() == ']' {
        ManifestScan { m, section: trim(line.subrange(1, line.len() - 1)) }
    } else {
        match split_once(line, '=') {
            None => st,
            Some((k, v)) => {
                let key = trim(k);
                let val = trim(v);
                if st.section == "package"@ {
                    if key == "name"@ {
                        ManifestScan {
                            m: ManifestView { name: trim_quotes_spec(val), ..m },
                            section: st.section,
                        }
                    } else if key == "version"@ {
                        ManifestScan {
                            m: ManifestView { version: trim_quotes_spec(val), ..m },
                            section: st.section,
                        }
                    } else if key == "entry"@ {
                        ManifestScan {
                            m: ManifestView { entry: Some(trim_quotes_spec(val)), ..m },
                            section: st.section,
                        }
                    } else if key == "lib_entry"@ || key == "lib"@ {
                        ManifestScan {
                            m: ManifestView { lib_entry: Some(trim_quotes_spec(val)), ..m },
                            section: st.section,
                        }
                    } else {
                        st
                    }
                } else if st.section == "dependencies"@ {
                    ManifestScan {
                        m: ManifestView { deps: keyed_insert(m.deps, key, parse_dep_spec(val)), ..m },
                        section: st.section,
                    }
                } else {
                    st
                }
            },
        }
    }
}

pub open spec fn manifest_scan(ls: Seq<Seq<char>>) -> ManifestScan
    decreases ls.len(),
{
    if ls.len() == 0 {
        ManifestScan { m: manifest_default(), section: Seq::empty() }
    } else {
        manifest_line(manifest_scan(ls.drop_last()), ls.last())
    }
}

/// The manifest a `huzi.toml` text describes.
pub open spec fn parse_manifest_spec(content: Seq<char>) -> ManifestView {
    manifest_scan(lines(content)).m
}

/// Parses a simple `huzi.toml` text; malformed lines are ignored, so this
/// never fails.
pub fn parse_manifest(content: &str) -> (r: Result<Manifest, String>)
    ensures
        r matches Ok(m) && m@ == parse_manifest_spec(content@) && m.wf(),
{
    let cs = chars_of(content);
    let ls = lines_of(cs.as_slice());
    let ghost lv = lines(content@);
    let mut manifest = Manifest::default();
    let mut section: Vec<char> = Vec::new();
    let mut i: usize = 0;
    assert(lv.take(0) =~= Seq::<Seq<char>>::empty());
    assert(manifest_scan(lv.take(0)).m == manifest@) by {
        assert(manifest@.deps =~= Seq::<(Seq<char>, DepView)>::empty());
    }
    while i < ls.len()
        invariant
            0 <= i <= ls.len(),
            views(ls@) == lv,
            lv == lines(content@),
            manifest_scan(lv.take(i as int)).m == manifest@,
            manifest_scan(lv.take(i as int)).section == section@,
            manifest.wf(),
        decreases ls.len() - i,
    {
        assert(lv.take(i + 1).drop_last() =~= lv.take(i as int));
        assert(lv.take(i + 1).last() == ls@[i as int]@);
        let pre = before_first_char(ls[i].as_slice(), '#');
        let line = trim_chars(pre.as_slice());
        let n = line.len();
        if n == 0 {
            i += 1;
            continue;
        }
        if line[0] == '[' && line[n - 1] == ']' {
            let inner = slice_copy(line.as_slice(), 1, n - 1);
            section = trim_chars(inner.as_slice());
            i += 1;
            continue;
        }
        match split_once_char(line.as_slice(), '=') {
            None => {},
            Some((k, v)) => {
                let key = trim_chars(k.as_slice());
                let val = trim_chars(v.as_slice());
                if eq_str(section.as_slice(), "package") {
                    if eq_str(key.as_slice(), "name") {
                        manifest.name = string_of(trim_quotes(val.as_slice()).as_slice());
                    } else if eq_str(key.as_slice(), "version") {
                        manifest.version = string_of(trim_quotes(val.as_slice()).as_slice());
                    } else if eq_str(key.as_slice(), "entry") {
                        manifest.entry = Some(string_of(trim_quotes(val.as_slice()).as_slice()));
                    } else if eq_str(key.as_slice(), "lib_entry") || eq_str(key.as_slice(), "lib") {
                        manifest.lib_entry = Some(
                            string_of(trim_quotes(val.as_slice()).as_slice()),
                        );
                    }
                } else if eq_str(section.as_slice(), "dependencies") {
                    let dep = parse_dependency_val(val.as_slice());
                    insert_dep(&mut manifest.dependencies, key.as_slice(), dep);
                }
            },
        }
        i += 1;
    }
    assert(lv.take(ls.len() as int) =~= lv);
    Ok(manifest)
}

/// Map-style insertion of a dependency.
fn insert_dep(deps: &mut Vec<(String, Dependency)>, key: &[char], dep: Dependency)
    requires
        names_unique(deps_view(old(deps)@)),
    ensures
        deps_view(final(deps)@) == keyed_insert(deps_view(old(deps)@), key@, dep@),
        names_unique(deps_view(final(deps)@)),
{
    let ghost dv = deps_view(deps@);
    let i = find_dep(deps, key);
    proof {
        lemma_first_key(dv, key@);
        lemma_keyed_insert_unique(dv, key@, dep@, i as int);
    }
    let name = string_of(key);
    if i < deps.len() {
        deps.set(i, (name, dep));
    } else {
        deps.push((name, dep));
    }
    assert(deps_view(deps@) =~= keyed_insert(dv, key@, dep@));
}

proof fn lemma_first_key<V>(s: Seq<(Seq<char>, V)>, k: Seq<char>)
    ensures
        0 <= key_index(s, k) <= s.len(),
        forall|j: int| 0 <= j < key_index(s, k) ==> s[j].0 != k,
        key_index(s, k) < s.len() ==> s[key_index(s, k)].0 == k,
    decreases s.len(),
{
    if s.len() > 0 && s[0].0 != k {
        lemma_first_key(s.drop_first(), k);
        assert forall|j: int| 0 <= j < key_index(s, k) implies s[j].0 != k by {
            if j > 0 {
                assert(s[j] == s.drop_first()[j - 1]);
            }
        }
    }
}

/// Reads a dependency value: an inline table or a quoted version.
fn parse_dependency_val(val: &[char]) -> (r: Dependency)
    ensures
        r@ == parse_dep_spec(val@),
{
    let v = trim_chars(val);
    let n = v.len();
    if n > 0 && v[0] == '{' && v[n - 1] == '}' {
        let inner = slice_copy(v.as_slice(), 1, n - 1);
        let pairs = split_chars(inner.as_slice(), ',');
        let ghost pv = split_on(inner@, ',');
        let mut version = chars_of("0.1.0");
        let mut path: Option<Vec<char>> = None;
        let mut i: usize = 0;
        assert(pv.take(0) =~= Seq::<Seq<char>>::empty());
        while i < pairs.len()
            invariant
                0 <= i <= pairs.len(),
                views(pairs@) == pv,
                dep_fold(pv.take(i as int)) == (version@, match path {
                    Some(p) => Some(p@),
                    None => None::<Seq<char>>,
                }),
            decreases pairs.len() - i,
        {
            assert(pv.take(i + 1).drop_last() =~= pv.take(i as int));
            assert(pv.take(i + 1).last() == pairs@[i as int]@);
            let pair = &pairs[i];
            let kv = match split_once_char(pair.as_slice(), ':') {
                Some(x) => Some(x),
                None => split_once_char(pair.as_slice(), '='),
            };
            match kv {
                None => {},
                Some((k, w)) => {
                    let key = trim_chars(k.as_slice());
                    let value = trim_quotes(w.as_slice());
                    if eq_str(key.as_slice(), "version") {
                        version = value;
                    } else if eq_str(key.as_slice(), "path") {
                        path = Some(value);
                    }
                },
            }
            i += 1;
        }
        assert(pv.take(pairs.len() as int) =~= pv);
        let p = match path {
            Some(p) => Some(string_of(p.as_slice())),
            None => None,
        };
        Dependency { version: string_of(version.as_slice()), path: p }
    } else {
        Dependency { version: string_of(trim_quotes(v.as_slice()).as_slice()), path: None }
    }
}

/// The line written for one dependency.
pub open spec fn dep_line(k: Seq<char>, d: DepView) -> Seq<char> {
    match d.1 {
        Some(p) => k + " = { version = \""@ + d.0 + "\", path = \""@ + p + "\" }"@,
        None => quoted(k, d.0),
    }
}

/// `key = "value"`.
pub open spec fn quoted(key: Seq<char>, value: Seq<char>) -> Seq<char> {
    key + " = \""@ + value + "\""@
}

pub open spec fn opt_key_line(key: Seq<char>, o: Option<Seq<char>>) -> Seq<Seq<char>> {
    match o {
        Some(v) => seq![quoted(key, v)],
        None => Seq::empty(),
    }
}

/// The lines `format_manifest` writes: `[package]` with its keys, a blank
/// line, then `[dependencies]` sorted by name.
pub open spec fn manifest_lines(m: ManifestView) -> Seq<Seq<char>> {
    seq!["[package]"@, quoted("name"@, m.name), quoted("version"@, m.version)]
        + opt_key_line("entry"@, m.entry) + opt_key_line("lib_entry"@, m.lib_entry) + seq![
        Seq::empty(),
        "[dependencies]"@,
    ] + sort_by_name(m.deps).map_values(|p: (Seq<char>, DepView)| dep_line(p.0, p.1))
}

/// Appends `line` and a newline.
fn push_line(out: &mut Vec<char>, line: &[char])
    ensures
        final(out)@ == old(out)@ + line@.push('\n'),
{
    push_all(out, line);
    out.push('\n');
    assert(final(out)@ =~= old(out)@ + line@.push('\n'));
}

/// `key = "value"`.
fn quoted_line(key: &str, value: &str) -> (r: Vec<char>)
    ensures
        r@ == quoted(key@, value@),
{
    let mut l: Vec<char> = Vec::new();
    push_str(&mut l, key);
    push_str(&mut l, " = \"");
    push_str(&mut l, value);
    push_str(&mut l, "\"");
    assert(l@ =~= key@ + " = \""@ + value@ + "\""@);
    l
}

proof fn lemma_join_lines_push(ls: Seq<Seq<char>>, l: Seq<char>)
    ensures
        join_lines(ls.push(l)) == join_lines(ls) + l.push('\n'),
{
    assert(ls.push(l).drop_last() =~= ls);
}

/// Writes a manifest as `huzi.toml` text.
pub fn format_manifest(manifest: &Manifest) -> (r: String)
    ensures
        r@ == join_lines(manifest_lines(manifest@)),
{
    let ghost m = manifest@;
    let mut out: Vec<char> = Vec::new();
    let ghost mut done: Seq<Seq<char>> = Seq::empty();
    assert(out@ =~= join_lines(done));
    let l0 = chars_of("[package]");
    push_line(&mut out, l0.as_slice());
    proof {
        lemma_join_lines_push(done, l0@);
        done = done.push(l0@);
    }
    let l1 = quoted_line("name", manifest.name.as_str());
    push_line(&mut out, l1.as_slice());
    proof {
        lemma_join_lines_push(done, l1@);
        done = done.push(l1@);
    }
    let l2 = quoted_line("version", manifest.version.as_str());
    push_line(&mut out, l2.as_slice());
    proof {
        lemma_join_lines_push(done, l2@);
        done = done.push(l2@);
    }
    assert(done =~= seq!["[package]"@, quoted("name"@, m.name), quoted("version"@, m.version)]);
    if let Some(entry) = &manifest.entry {
        let l = quoted_line("entry", entry.as_str());
        push_line(&mut out, l.as_slice());
        proof {
            lemma_join_lines_push(done, l@);
            done = done.push(l@);
        }
    }
    assert(done =~= seq!["[package]"@, quoted("name"@, m.name), quoted("version"@, m.version)] + opt_key_line("entry"@, m.entry));
    if let Some(lib_entry) = &manifest.lib_entry {
        let l = quoted_line("lib_entry", lib_entry.as_str());
        push_line(&mut out, l.as_slice());
        proof {
            lemma_join_lines_push(done, l@);
            done = done.push(l@);
        }
    }
    let ghost head = done;
    assert(head =~= seq!["[package]"@, quoted("name"@, m.name), quoted("version"@, m.version)] + opt_key_line("entry"@, m.entry) + opt_key_line("lib_entry"@, m.lib_entry));
    let blank: Vec<char> = Vec::new();
    push_line(&mut out, blank.as_slice());
    proof {
        lemma_join_lines_push(done, blank@);
        done = done.push(blank@);
    }
    let l3 = chars_of("[dependencies]");
    push_line(&mut out, l3.as_slice());
    proof {
        lemma_join_lines_push(done, l3@);
        done = done.push(l3@);
    }
    assert(done =~= head + seq![Seq::<char>::empty(), "[dependencies]"@]);
    let sorted = sort_deps(manifest.dependencies.as_slice());
    let ghost sv = deps_view(sorted@);
    let ghost base = done;
    let mut i: usize = 0;
    assert(base =~= base + sv.take(0).map_values(|p: (Seq<char>, DepView)| dep_line(p.0, p.1)));
    while i < sorted.len()
        invariant
            0 <= i <= sorted.len(),
            sv == deps_view(sorted@),
            out@ == join_lines(done),
            done == base + sv.take(i as int).map_values(
                |p: (Seq<char>, DepView)| dep_line(p.0, p.1),
            ),
        decreases sorted.len() - i,
    {
        let (k, d) = &sorted[i];
        let mut l: Vec<char> = Vec::new();
        push_str(&mut l, k.as_str());
        match &d.path {
            Some(p) => {
                push_str(&mut l, " = { version = \"");
                push_str(&mut l, d.version.as_str());
                push_str(&mut l, "\", path = \"");
                push_str(&mut l, p.as_str());
                push_str(&mut l, "\" }");
            },
            None => {
                push_str(&mut l, " = \"");
                push_str(&mut l, d.version.as_str());
                push_str(&mut l, "\"");
            },
        }
        assert(l@ =~= dep_line(sv[i as int].0, sv[i as int].1));
        push_line(&mut out, l.as_slice());
        proof {
            lemma_join_lines_push(done, l@);
            done = done.push(l@);
            assert(sv.take(i + 1) =~= sv.take(i as int).push(sv[i as int]));
            assert(done =~= base + sv.take(i + 1).map_values(
                |p: (Seq<char>, DepView)| dep_line(p.0, p.1),
            ));
        }
        i += 1;
    }
    assert(sv.take(sorted.len() as int) =~= sv);
    assert(done =~= manifest_lines(m));
    string_of(out.as_slice())
}

/// An equal copy of a dependency entry.
fn copy_dep(p: &(String, Dependency)) -> (r: (String, Dependency))
    ensures
        r.0@ == p.0@,
        r.1@ == p.1@,
{
    let k = string_of(chars_of(p.0.as_str()).as_slice());
    let v = string_of(chars_of(p.1.version.as_str()).as_slice());
    let path = match &p.1.path {
        Some(x) => Some(string_of(chars_of(x.as_str()).as_slice())),
        None => None,
    };
    (k, Dependency { version: v, path })
}

/// Stable sort of dependencies by name.
pub(crate) fn sort_deps(v: &[(String, Dependency)]) -> (r: Vec<(String, Dependency)>)
    ensures
        deps_view(r@) == sort_by_name(deps_view(v@)),
{
    let mut out: Vec<(String, Dependency)> = Vec::new();
    let mut i: usize = 0;
    let ghost s = deps_view(v@);
    assert(s.take(0) =~= Seq::<(Seq<char>, DepView)>::empty());
    while i < v.len()
        invariant
            0 <= i <= v.len(),
            s == deps_view(v@),
            deps_view(out@) == sort_by_name(s.take(i as int)),
        decreases v.len() - i,
    {
        assert(s.take(i + 1).drop_last() =~= s.take(i as int));
        let e = copy_dep(&v[i]);
        assert(s.take(i + 1).last() == (e.0@, e.1@));
        insert_dep_sorted(&mut out, e);
        i += 1;
    }
    assert(s.take(v.len() as int) =~= s);
    out
}

/// Whether `a`'s key precedes `b`'s.
pub(crate) fn key_lt(a: &String, b: &String) -> (r: bool)
    ensures
        r == seq_lt(a@, b@),
{
    let x = chars_of(a.as_str());
    let y = chars_of(b.as_str());
    chars_lt(x.as_slice(), y.as_slice())
}

fn insert_dep_sorted(v: &mut Vec<(String, Dependency)>, e: (String, Dependency))
    ensures
        deps_view(final(v)@) == crate::keyed::insert_sorted(deps_view(old(v)@), (e.0@, e.1@)),
{
    let ghost s = deps_view(v@);
    let ghost ev = (e.0@, e.1@);
    let mut pos = v.len();
    assert(s.take(pos as int) =~= s);
    assert(s.skip(pos as int) =~= Seq::<(Seq<char>, DepView)>::empty());
    assert(crate::keyed::insert_sorted(s, ev) =~= crate::keyed::insert_sorted(
        s.take(pos as int),
        ev,
    ) + s.skip(pos as int));
    while pos > 0 && key_lt(&e.0, &v[pos - 1].0)
        invariant
            0 <= pos <= v.len(),
            s == deps_view(v@),
            ev == (e.0@, e.1@),
            crate::keyed::insert_sorted(s, ev) == crate::keyed::insert_sorted(
                s.take(pos as int),
                ev,
            ) + s.skip(pos as int),
        decreases pos,
    {
        let ghost t = s.take(pos as int);
        assert(t.drop_last() =~= s.take(pos - 1));
        assert(t.last() == s[pos - 1]);
        assert(s.skip(pos - 1) =~= seq![s[pos - 1]] + s.skip(pos as int));
        assert(crate::keyed::insert_sorted(s.take(pos - 1), ev).push(s[pos - 1]) + s.skip(
            pos as int,
        ) =~= crate::keyed::insert_sorted(s.take(pos - 1), ev) + s.skip(pos - 1));
        pos -= 1;
    }
    if pos > 0 {
        assert(s.take(pos as int).last() == s[pos - 1]);
    } else {
        assert(s.take(0) =~= Seq::<(Seq<char>, DepView)>::empty());
    }
    assert(crate::keyed::insert_sorted(s.take(pos as int), ev) == s.take(pos as int).push(ev));
    v.insert(pos, e);
    assert(deps_view(v@) =~= s.take(pos as int).push(ev) + s.skip(pos as int));
}


// ---------------------------------------------------------------------------
// Writing a manifest and reading it back
// ---------------------------------------------------------------------------

/// A dependency whose text survives the line format: a plain or empty
/// name, a clean version and path, and, in the inline-table form, no `,` or `:` inside the
/// values (they separate the table's pairs).
pub open spec fn clean_dep(e: (Seq<char>, DepView)) -> bool {
    let (k, d) = e;
    let (v, path) = d;
    &&& (k.len() == 0 || plain_key(k))
    &&& clean_name(v)
    &&& match path {
        Some(p) => clean_name(p) && !v.contains(',') && !v.contains(':') && !p.contains(',')
            && !p.contains(':'),
        None => true,
    }
}

/// Manifest values that survive the line format.
pub open spec fn clean_manifest(m: ManifestView) -> bool {
    &&& names_unique(m.deps)
    &&& clean_name(m.name)
    &&& clean_name(m.version)
    &&& match m.entry {
        Some(e) => clean_name(e),
        None => true,
    }
    &&& match m.lib_entry {
        Some(e) => clean_name(e),
        None => true,
    }
    &&& forall|i: int| 0 <= i < m.deps.len() ==> clean_dep(#[trigger] m.deps[i])
}

proof fn lemma_scan_push(ls: Seq<Seq<char>>, l: Seq<char>)
    ensures
        manifest_scan(ls.push(l)) == manifest_line(manifest_scan(ls), l),
{
    assert(ls.push(l).drop_last() =~= ls);
}

proof fn lemma_manifest_lits()
    ensures
        "[package]"@ == seq!['['] + "package"@ + seq![']'],
        "[dependencies]"@ == seq!['['] + "dependencies"@ + seq![']'],
        "package"@ == seq!['p', 'a', 'c', 'k', 'a', 'g', 'e'],
        "dependencies"@ == seq!['d', 'e', 'p', 'e', 'n', 'd', 'e', 'n', 'c', 'i', 'e', 's'],
        "name"@ == seq!['n', 'a', 'm', 'e'],
        "version"@ == seq!['v', 'e', 'r', 's', 'i', 'o', 'n'],
        "entry"@ == seq!['e', 'n', 't', 'r', 'y'],
        "lib_entry"@ == seq!['l', 'i', 'b', '_', 'e', 'n', 't', 'r', 'y'],
        "lib"@ == seq!['l', 'i', 'b'],
        "path"@ == seq!['p', 'a', 't', 'h'],
        " = \""@ == seq![' ', '=', ' ', '"'],
        "\""@ == seq!['"'],
        " = { version = \""@ == seq![' ', '=', ' ', '{', ' ', 'v', 'e', 'r', 's', 'i', 'o', 'n', ' ', '=', ' ', '"'],
        "\", path = \""@ == seq!['"', ',', ' ', 'p', 'a', 't', 'h', ' ', '=', ' ', '"'],
        "\" }"@ == seq!['"', ' ', '}'],
{
    reveal_strlit("[package]");
    reveal_strlit("[dependencies]");
    reveal_strlit("package");
    reveal_strlit("dependencies");
    reveal_strlit("name");
    reveal_strlit("version");
    reveal_strlit("entry");
    reveal_strlit("lib_entry");
    reveal_strlit("lib");
    reveal_strlit("path");
    reveal_strlit(" = \"");
    reveal_strlit("\"");
    reveal_strlit(" = { version = \"");
    reveal_strlit("\", path = \"");
    reveal_strlit("\" }");
    assert("[package]"@ =~= seq!['['] + "package"@ + seq![']']);
    assert("[dependencies]"@ =~= seq!['['] + "dependencies"@ + seq![']']);
    assert("package"@ =~= seq!['p', 'a', 'c', 'k', 'a', 'g', 'e']);
    assert("dependencies"@ =~= seq!['d', 'e', 'p', 'e', 'n', 'd', 'e', 'n', 'c', 'i', 'e', 's']);
    assert("name"@ =~= seq!['n', 'a', 'm', 'e']);
    assert("version"@ =~= seq!['v', 'e', 'r', 's', 'i', 'o', 'n']);
    assert("entry"@ =~= seq!['e', 'n', 't', 'r', 'y']);
    assert("lib_entry"@ =~= seq!['l', 'i', 'b', '_', 'e', 'n', 't', 'r', 'y']);
    assert("lib"@ =~= seq!['l', 'i', 'b']);
    assert("path"@ =~= seq!['p', 'a', 't', 'h']);
    assert(" = \""@ =~= seq![' ', '=', ' ', '"']);
    assert("\""@ =~= seq!['"']);
    assert(" = { version = \""@ =~= seq![' ', '=', ' ', '{', ' ', 'v', 'e', 'r', 's', 'i', 'o', 'n', ' ', '=', ' ', '"']);
    assert("\", path = \""@ =~= seq!['"', ',', ' ', 'p', 'a', 't', 'h', ' ', '=', ' ', '"']);
    assert("\" }"@ =~= seq!['"', ' ', '}']);
}

proof fn lemma_contains_concat(a: Seq<char>, b: Seq<char>, c: char)
    ensures
        (a + b).contains(c) == (a.contains(c) || b.contains(c)),
{
    if (a + b).contains(c) {
        let i = choose|i: int| 0 <= i < (a + b).len() && (a + b)[i] == c;
        if i < a.len() {
            assert(a[i] == c);
        } else {
            assert(b[i - a.len()] == c);
        }
    }
    if a.contains(c) {
        let i = choose|i: int| 0 <= i < a.len() && a[i] == c;
        assert((a + b)[i] == c);
    }
    if b.contains(c) {
        let i = choose|i: int| 0 <= i < b.len() && b[i] == c;
        assert((a + b)[a.len() + i] == c);
    }
}

/// A quoted value with a space before it, and maybe one after, as the
/// reader unwraps it.
proof fn lemma_unquote(val: Seq<char>)
    requires
        clean_name(val),
    ensures
        trim(seq!['"'] + val + seq!['"']) == seq!['"'] + val + seq!['"'],
        trim_quotes_spec(seq!['"'] + val + seq!['"']) == val,
        trim_quotes_spec(seq![' ', '"'] + val + seq!['"']) == val,
        trim_quotes_spec(seq![' ', '"'] + val + seq!['"', ' ']) == val,
{
    let q = seq!['"'] + val.push('"');
    assert(seq!['"'] + val + seq!['"'] =~= q);
    assert(q[0] == '"');
    assert(q.last() == '"');
    lemma_trim_noop(q);
    assert(trim_start(q) == q);
    assert(trim_end(q) == q);
    assert(seq![' ', '"'] + val + seq!['"'] =~= seq![' '] + q);
    lemma_trim_start_space(q);
    assert(seq![' ', '"'] + val + seq!['"', ' '] =~= seq![' '] + q.push(' '));
    lemma_trim_start_space(q.push(' '));
    assert(q.push(' ')[0] == '"');
    assert(trim_start(q.push(' ')) == q.push(' '));
    lemma_trim_end_space(q);
    if val.len() == 0 {
        assert(q =~= seq!['"', '"']);
        assert(q.drop_first() =~= seq!['"']);
        assert(seq!['"'].drop_first() =~= Seq::<char>::empty());
        assert(strip_start(Seq::<char>::empty(), '"') == Seq::<char>::empty());
        assert(strip_start(seq!['"'], '"') == strip_start(Seq::<char>::empty(), '"'));
        assert(strip_start(q, '"') == strip_start(seq!['"'], '"'));
        assert(trim_matches(q, '"') =~= Seq::<char>::empty());
        assert(trim_matches(val, '\'') == val);
    } else {
        assert(val.push('"')[0] == val[0]);
        lemma_strip_start_one(val.push('"'), '"');
        lemma_strip_end_one(val, '"');
        assert(trim_matches(q, '"') == val);
        assert(strip_start(val, '\'') == val);
        assert(strip_end(val, '\'') == val);
    }
}

/// A `[name]` line selects section `name`.
proof fn lemma_section_line(st: ManifestScan, name: Seq<char>)
    requires
        name.len() > 0,
        !name.contains('#'),
        !is_ws(name[0]),
        !is_ws(name.last()),
    ensures
        manifest_line(st, seq!['['] + name + seq![']']) == (ManifestScan { m: st.m, section: name }),
{
    let raw = seq!['['] + name + seq![']'];
    lemma_contains_concat(seq!['['], name, '#');
    lemma_contains_concat(seq!['['] + name, seq![']'], '#');
    assert(!seq!['['].contains('#')) by {
        if seq!['['].contains('#') {
            let i = choose|i: int| 0 <= i < 1 && seq!['['][i] == '#';
        }
    }
    assert(!seq![']'].contains('#')) by {
        if seq![']'].contains('#') {
            let i = choose|i: int| 0 <= i < 1 && seq![']'][i] == '#';
        }
    }
    lemma_before_first_absent(raw, '#');
    assert(raw[0] == '[');
    assert(raw.last() == ']');
    lemma_trim_noop(raw);
    assert(raw.subrange(1, raw.len() - 1) =~= name);
    lemma_trim_noop(name);
}

/// How the reader sees a `key = "value"` line written by `quoted`.
proof fn lemma_quoted_line(key: Seq<char>, val: Seq<char>)
    requires
        plain_key(key),
        clean_name(val),
    ensures
        quoted(key, val) == kv_line(key, val),
        trim(before_first(quoted(key, val), '#')) == quoted(key, val),
        quoted(key, val).len() > 0,
        quoted(key, val).last() == '"',
        !quoted(key, val).contains('\n'),
        split_once(quoted(key, val), '=') == Some((key.push(' '), seq![' ', '"'] + val + seq!['"'])),
        trim(key.push(' ')) == key,
        trim(seq![' ', '"'] + val + seq!['"']) == seq!['"'] + val + seq!['"'],
        trim_quotes_spec(trim(seq![' ', '"'] + val + seq!['"'])) == val,
{
    lemma_manifest_lits();
    assert(quoted(key, val) =~= kv_line(key, val));
    lemma_kv_line(key, val);
    lemma_unquote(val);
    let q = seq!['"'] + val + seq!['"'];
    assert(seq![' ', '"'] + val + seq!['"'] =~= seq![' '] + q);
    lemma_trim_start_space(q);
}

/// The text of an inline-table dependency line after its key.
pub open spec fn table_tail(v: Seq<char>, p: Seq<char>) -> Seq<char> {
    seq!['{'] + (seq![' ', 'v', 'e', 'r', 's', 'i', 'o', 'n', ' ', '=', ' ', '"'] + v + seq!['"'])
        + seq![','] + (seq![' ', 'p', 'a', 't', 'h', ' ', '=', ' ', '"'] + p + seq!['"', ' '])
        + seq!['}']
}

/// How the reader sees the inline table `{ version = "v", path = "p" }`.
proof fn lemma_table_tail(v: Seq<char>, p: Seq<char>)
    requires
        clean_name(v),
        clean_name(p),
        !v.contains(','),
        !v.contains(':'),
        !p.contains(','),
        !p.contains(':'),
    ensures
        parse_dep_spec(table_tail(v, p)) == (v, Some(p)),
        trim(seq![' '] + table_tail(v, p)) == table_tail(v, p),
        !table_tail(v, p).contains('#'),
        !table_tail(v, p).contains('\n'),
{
    lemma_manifest_lits();
    let la = seq![' ', 'v', 'e', 'r', 's', 'i', 'o', 'n', ' ', '=', ' ', '"'];
    let lb = seq![' ', 'p', 'a', 't', 'h', ' ', '=', ' ', '"'];
    let a = la + v + seq!['"'];
    let b = lb + p + seq!['"', ' '];
    let t = table_tail(v, p);
    assert(t =~= seq!['{'] + a + seq![','] + b + seq!['}']);
    // characters
    assert forall|c: char| c == '#' || c == '\n' || c == ',' || c == ':' implies !la.contains(c)
        && !lb.contains(c) && !seq!['"'].contains(c) && !seq!['"', ' '].contains(c) by {
        if la.contains(c) {
            let i = choose|i: int| 0 <= i < 12 && la[i] == c;
        }
        if lb.contains(c) {
            let i = choose|i: int| 0 <= i < 9 && lb[i] == c;
        }
        if seq!['"'].contains(c) {
            let i = choose|i: int| 0 <= i < 1 && seq!['"'][i] == c;
        }
        if seq!['"', ' '].contains(c) {
            let i = choose|i: int| 0 <= i < 2 && seq!['"', ' '][i] == c;
        }
    }
    assert forall|c: char| c == ',' || c == ':' implies !a.contains(c) && !b.contains(c) by {
        lemma_contains_concat(la, v, c);
        lemma_contains_concat(la + v, seq!['"'], c);
        lemma_contains_concat(lb, p, c);
        lemma_contains_concat(lb + p, seq!['"', ' '], c);
    }
    assert forall|c: char| c == '#' || c == '\n' implies !t.contains(c) by {
        lemma_contains_concat(la, v, c);
        lemma_contains_concat(la + v, seq!['"'], c);
        lemma_contains_concat(lb, p, c);
        lemma_contains_concat(lb + p, seq!['"', ' '], c);
        lemma_contains_concat(seq!['{'], a, c);
        lemma_contains_concat(seq!['{'] + a, seq![','], c);
        lemma_contains_concat(seq!['{'] + a + seq![','], b, c);
        lemma_contains_concat(seq!['{'] + a + seq![','] + b, seq!['}'], c);
        if seq!['{'].contains(c) {
            let i = choose|i: int| 0 <= i < 1 && seq!['{'][i] == c;
        }
        if seq![','].contains(c) {
            let i = choose|i: int| 0 <= i < 1 && seq![','][i] == c;
        }
        if seq!['}'].contains(c) {
            let i = choose|i: int| 0 <= i < 1 && seq!['}'][i] == c;
        }
    }
    // trimming
    assert(t[0] == '{');
    assert(t.last() == '}');
    lemma_trim_noop(t);
    lemma_trim_start_space(t);
    assert(trim_start(t) == t);
    // the table's pairs
    assert(t.subrange(1, t.len() - 1) =~= a.push(',') + b);
    lemma_split_join(a, ',', b);
    lemma_split_on_no_sep(a, ',');
    lemma_split_on_no_sep(b, ',');
    let pairs = seq![a, b];
    assert(split_on(t.subrange(1, t.len() - 1), ',') =~= pairs);
    assert(pairs.drop_last() =~= seq![a]);
    assert(seq![a].drop_last() =~= Seq::<Seq<char>>::empty());
    // first pair: ` version = "v"`
    lemma_first_index(a, ':', a.len() as int);
    assert forall|j: int| 0 <= j < 9 implies a[j] != '=' by {
        assert(a[j] == la[j]);
    }
    assert(a[9] == '=');
    lemma_first_index(a, '=', 9);
    let ka = a.take(9);
    assert(ka =~= seq![' '] + "version"@.push(' '));
    lemma_trim_start_space("version"@.push(' '));
    assert("version"@.push(' ')[0] == 'v');
    lemma_trim_end_space("version"@);
    assert(trim(ka) == "version"@);
    assert(a.skip(10) =~= seq![' ', '"'] + v + seq!['"']);
    lemma_unquote(v);
    let acc1 = dep_pair(("0.1.0"@, None), a);
    assert(acc1 == (v, None::<Seq<char>>));
    // second pair: ` path = "p" `
    lemma_first_index(b, ':', b.len() as int);
    assert forall|j: int| 0 <= j < 6 implies b[j] != '=' by {
        assert(b[j] == lb[j]);
    }
    assert(b[6] == '=');
    lemma_first_index(b, '=', 6);
    let kb = b.take(6);
    assert(kb =~= seq![' '] + "path"@.push(' '));
    lemma_trim_start_space("path"@.push(' '));
    assert("path"@.push(' ')[0] == 'p');
    lemma_trim_end_space("path"@);
    assert(trim(kb) == "path"@);
    assert(b.skip(7) =~= seq![' ', '"'] + p + seq!['"', ' ']);
    lemma_unquote(p);
    assert("path"@ != "version"@);
    assert(dep_pair(acc1, b) == (v, Some(p)));
    assert(dep_fold(pairs) == dep_pair(dep_fold(seq![a]), b));
    assert(dep_fold(seq![a]) == dep_pair(dep_fold(Seq::<Seq<char>>::empty()), a));
}

/// How the reader sees the line written for one dependency.
proof fn lemma_dep_line(st: ManifestScan, e: (Seq<char>, DepView))
    requires
        clean_dep(e),
        st.section == "dependencies"@,
    ensures
        manifest_line(st, dep_line(e.0, e.1)) == (ManifestScan {
            m: ManifestView { deps: keyed_insert(st.m.deps, e.0, e.1), ..st.m },
            section: st.section,
        }),
        dep_line(e.0, e.1).len() > 0,
        !dep_line(e.0, e.1).contains('\n'),
        dep_line(e.0, e.1).last() != '\r',
{
    lemma_manifest_lits();
    let (k, d) = e;
    let (v, path) = d;
    assert("dependencies"@ != "package"@);
    if k.len() == 0 {
        assert(k =~= Seq::<char>::empty());
        lemma_empty_key_dep_line(v, path);
        assert(manifest_line(st, dep_line(Seq::empty(), (v, path))) == manifest_line(
            st,
            dep_line(e.0, e.1),
        ));
    } else {
        match path {
            None => {
                lemma_quoted_line(k, v);
                let q = seq!['"'] + v + seq!['"'];
                lemma_unquote(v);
                assert(q[0] == '"');
                assert(parse_dep_spec(q) == (v, None::<Seq<char>>));
            },
            Some(p) => {
                let n = k.len() as int;
                let t = table_tail(v, p);
                let raw = k + seq![' ', '=', ' '] + t;
                assert(dep_line(k, d) =~= raw);
                lemma_table_tail(v, p);
                assert forall|c: char| c == '#' || c == '\n' implies !raw.contains(c) by {
                    lemma_contains_concat(k, seq![' ', '=', ' '], c);
                    lemma_contains_concat(k + seq![' ', '=', ' '], t, c);
                    if seq![' ', '=', ' '].contains(c) {
                        let i = choose|i: int| 0 <= i < 3 && seq![' ', '=', ' '][i] == c;
                    }
                }
                lemma_before_first_absent(raw, '#');
                assert(raw[0] == k[0]);
                assert(raw.last() == '}');
                lemma_trim_noop(raw);
                assert forall|j: int| 0 <= j < n + 1 implies raw[j] != '=' by {
                    if j < n {
                        assert(raw[j] == k[j]);
                    }
                }
                assert(raw[n + 1] == '=');
                lemma_first_index(raw, '=', n + 1);
                assert(raw.take(n + 1) =~= k.push(' '));
                assert(raw.skip(n + 2) =~= seq![' '] + t);
                assert(trim_start(k.push(' ')) == k.push(' ')) by {
                    assert(k.push(' ')[0] == k[0]);
                }
                lemma_trim_end_space(k);
                assert(trim_end(k) == k);
            },
        }
    }
}

/// A dependency line with an empty name: after trimming it starts with
/// `=`, so the reader takes the empty name and the same value.
proof fn lemma_empty_key_dep_line(v: Seq<char>, path: Option<Seq<char>>)
    requires
        clean_dep((Seq::empty(), (v, path))),
    ensures
        forall|st: ManifestScan| #[trigger]
            manifest_line(st, dep_line(Seq::empty(), (v, path))) == (if st.section
                == "dependencies"@ {
                ManifestScan {
                    m: ManifestView {
                        deps: keyed_insert(st.m.deps, Seq::empty(), (v, path)),
                        ..st.m
                    },
                    section: st.section,
                }
            } else {
                manifest_line(st, dep_line(Seq::empty(), (v, path)))
            }),
        dep_line(Seq::empty(), (v, path)).len() > 0,
        !dep_line(Seq::empty(), (v, path)).contains('\n'),
        dep_line(Seq::empty(), (v, path)).last() != '\r',
{
    lemma_manifest_lits();
    let k = Seq::<char>::empty();
    // the text after the name: `= "v"` or `= { .. }`
    let tail: Seq<char> = match path {
        Some(p) => seq!['='] + (seq![' '] + table_tail(v, p)),
        None => seq!['='] + (seq![' '] + (seq!['"'] + v + seq!['"'])),
    };
    let raw = dep_line(k, (v, path));
    assert(raw =~= seq![' '] + tail);
    let rest: Seq<char> = match path {
        Some(p) => table_tail(v, p),
        None => seq!['"'] + v + seq!['"'],
    };
    assert(tail =~= seq!['=', ' '] + rest);
    match path {
        Some(p) => {
            lemma_table_tail(v, p);
            assert(rest.last() == '}');
            assert(rest[0] == '{');
        },
        None => {
            lemma_unquote(v);
            assert(rest.last() == '"');
            assert(rest[0] == '"');
        },
    }
    assert forall|c: char| c == '#' || c == '\n' implies !raw.contains(c) by {
        if raw.contains(c) {
            let i = choose|i: int| 0 <= i < raw.len() && raw[i] == c;
            if i >= 3 {
                assert(raw[i] == rest[i - 3]);
                match path {
                    Some(p) => {
                        assert(rest.contains(c));
                    },
                    None => {
                        if 1 <= i - 3 < rest.len() - 1 {
                            assert(v[i - 4] == c);
                            assert(v.contains(c));
                        }
                    },
                }
            }
        }
    }
    lemma_before_first_absent(raw, '#');
    lemma_trim_start_space(tail);
    assert(trim_start(tail) == tail);
    assert(tail.last() == rest.last());
    assert(trim_end(tail) == tail);
    assert(trim(before_first(raw, '#')) == tail);
    lemma_first_index(tail, '=', 0);
    assert(tail.take(0) =~= k);
    assert(tail.skip(1) =~= seq![' '] + rest);
    lemma_trim_start_space(rest);
    assert(trim_start(rest) == rest);
    assert(trim_end(rest) == rest);
    assert(trim(k) == k);
    match path {
        Some(p) => {},
        None => {
            assert(parse_dep_spec(rest) == (v, None::<Seq<char>>));
        },
    }
    assert(raw.last() == rest.last());
}

/// Scanning the dependency lines of a formatted manifest, one at a time.
proof fn lemma_scan_deps(hd: Seq<Seq<char>>, base: ManifestView, ss: Seq<(Seq<char>, DepView)>, k: int)
    requires
        0 <= k <= ss.len(),
        manifest_scan(hd) == (ManifestScan {
            m: ManifestView { deps: Seq::empty(), ..base },
            section: "dependencies"@,
        }),
        names_unique(ss),
        forall|i: int| 0 <= i < ss.len() ==> clean_dep(#[trigger] ss[i]),
    ensures
        manifest_scan(hd + ss.take(k).map_values(|p: (Seq<char>, DepView)| dep_line(p.0, p.1)))
            == (ManifestScan { m: ManifestView { deps: ss.take(k), ..base }, section: "dependencies"@ }),
    decreases k,
{
    if k == 0 {
        assert(hd + ss.take(0).map_values(|p: (Seq<char>, DepView)| dep_line(p.0, p.1)) =~= hd);
        assert(ss.take(0) =~= Seq::<(Seq<char>, DepView)>::empty());
    } else {
        lemma_scan_deps(hd, base, ss, k - 1);
        let pre = hd + ss.take(k - 1).map_values(|p: (Seq<char>, DepView)| dep_line(p.0, p.1));
        let e = ss[k - 1];
        assert(hd + ss.take(k).map_values(|p: (Seq<char>, DepView)| dep_line(p.0, p.1)) =~= pre.push(
            dep_line(e.0, e.1),
        ));
        lemma_scan_push(pre, dep_line(e.0, e.1));
        lemma_dep_line(manifest_scan(pre), e);
        let s = ss.take(k - 1);
        lemma_key_index(s, e.0, k - 1);
        assert(keyed_insert(s, e.0, e.1) =~= ss.take(k));
    }
}

proof fn lemma_plain_concat(a: Seq<Seq<char>>, b: Seq<Seq<char>>)
    requires
        plain_lines(a),
        plain_lines(b),
    ensures
        plain_lines(a + b),
{
    assert forall|i: int| 0 <= i < (a + b).len() implies !(#[trigger] (a + b)[i]).contains('\n')
        && ((a + b)[i].len() == 0 || (a + b)[i].last() != '\r') by {
        if i < a.len() {
            assert((a + b)[i] == a[i]);
        } else {
            assert((a + b)[i] == b[i - a.len()]);
        }
    }
}

proof fn lemma_plain_one(l: Seq<char>)
    requires
        !l.contains('\n'),
        l.len() == 0 || l.last() != '\r',
    ensures
        plain_lines(seq![l]),
{
    assert forall|i: int| 0 <= i < 1 implies !(#[trigger] seq![l][i]).contains('\n') && (
    seq![l][i].len() == 0 || seq![l][i].last() != '\r') by {
        assert(seq![l][i] == l);
    }
}

/// Writing a manifest and parsing the text back gives the same manifest,
/// with its dependencies sorted by name, provided names are distinct and
/// every value survives the line format.
pub proof fn law_manifest_roundtrip(m: ManifestView)
    requires
        clean_manifest(m),
    ensures
        parse_manifest_spec(join_lines(manifest_lines(m))) == (ManifestView {
            deps: sort_by_name(m.deps),
            ..m
        }),
{
    lemma_manifest_lits();
    let ss = sort_by_name(m.deps);
    lemma_sort_sorted(m.deps);
    lemma_sort_keeps(m.deps);
    assert forall|i: int| 0 <= i < ss.len() implies clean_dep(#[trigger] ss[i]) by {
        assert(m.deps.contains(ss[i]));
        let k = choose|k: int| 0 <= k < m.deps.len() && m.deps[k] == ss[i];
        assert(clean_dep(m.deps[k]));
    }
    // the `[package]` part
    let sec_p = "package"@;
    let sec_d = "dependencies"@;
    assert(!sec_p.contains('#')) by {
        if sec_p.contains('#') {
            let i = choose|i: int| 0 <= i < 7 && sec_p[i] == '#';
        }
    }
    assert(!sec_d.contains('#')) by {
        if sec_d.contains('#') {
            let i = choose|i: int| 0 <= i < 12 && sec_d[i] == '#';
        }
    }
    assert forall|c: char| c == '\n' implies !"[package]"@.contains(c) && !"[dependencies]"@.contains(c) by {
        if "[package]"@.contains(c) {
            let i = choose|i: int| 0 <= i < 9 && "[package]"@[i] == c;
        }
        if "[dependencies]"@.contains(c) {
            let i = choose|i: int| 0 <= i < 14 && "[dependencies]"@[i] == c;
        }
    }
    assert forall|key: Seq<char>| key == "name"@ || key == "version"@ || key == "entry"@ || key
        == "lib_entry"@ implies plain_key(key) by {
        if key.contains('=') {
            let i = choose|i: int| 0 <= i < key.len() && key[i] == '=';
        }
        if key.contains('#') {
            let i = choose|i: int| 0 <= i < key.len() && key[i] == '#';
        }
        if key.contains('\n') {
            let i = choose|i: int| 0 <= i < key.len() && key[i] == '\n';
        }
    }
    let st0 = manifest_scan(Seq::empty());
    let l0 = seq!["[package]"@];
    lemma_scan_push(Seq::empty(), "[package]"@);
    assert(Seq::<Seq<char>>::empty().push("[package]"@) =~= l0);
    lemma_section_line(st0, sec_p);
    let ln = quoted("name"@, m.name);
    let lv = quoted("version"@, m.version);
    lemma_quoted_line("name"@, m.name);
    lemma_quoted_line("version"@, m.version);
    lemma_scan_push(l0, ln);
    lemma_scan_push(l0.push(ln), lv);
    let l2 = l0.push(ln).push(lv);
    assert(l2 =~= seq!["[package]"@, ln, lv]);
    assert(manifest_scan(l2) == (ManifestScan {
        m: ManifestView { name: m.name, version: m.version, ..manifest_default() },
        section: sec_p,
    }));
    let oe = opt_key_line("entry"@, m.entry);
    let l3 = l2 + oe;
    match m.entry {
        Some(e) => {
            lemma_quoted_line("entry"@, e);
            lemma_scan_push(l2, quoted("entry"@, e));
            assert(l3 =~= l2.push(quoted("entry"@, e)));
        },
        None => {
            assert(l3 =~= l2);
        },
    }
    assert(manifest_scan(l3) == (ManifestScan {
        m: ManifestView { name: m.name, version: m.version, entry: m.entry, ..manifest_default() },
        section: sec_p,
    }));
    let ol = opt_key_line("lib_entry"@, m.lib_entry);
    let l4 = l3 + ol;
    match m.lib_entry {
        Some(e) => {
            lemma_quoted_line("lib_entry"@, e);
            lemma_scan_push(l3, quoted("lib_entry"@, e));
            assert(l4 =~= l3.push(quoted("lib_entry"@, e)));
        },
        None => {
            assert(l4 =~= l3);
        },
    }
    let st4 = ManifestScan {
        m: ManifestView {
            name: m.name,
            version: m.version,
            entry: m.entry,
            lib_entry: m.lib_entry,
            deps: Seq::empty(),
        },
        section: sec_p,
    };
    assert(manifest_scan(l4) == st4);
    lemma_scan_push(l4, Seq::empty());
    assert(manifest_line(st4, Seq::<char>::empty()) == st4) by {
        assert(before_first(Seq::<char>::empty(), '#') =~= Seq::<char>::empty());
    }
    lemma_scan_push(l4.push(Seq::empty()), "[dependencies]"@);
    lemma_section_line(st4, sec_d);
    let hd = l4.push(Seq::empty()).push("[dependencies]"@);
    assert(manifest_scan(hd) == (ManifestScan {
        m: ManifestView { deps: Seq::empty(), ..m },
        section: sec_d,
    }));
    // the dependency lines
    lemma_scan_deps(hd, m, ss, ss.len() as int);
    assert(ss.take(ss.len() as int) =~= ss);
    let ls = manifest_lines(m);
    let dl = ss.map_values(|p: (Seq<char>, DepView)| dep_line(p.0, p.1));
    assert(ls =~= hd + dl);
    // every line is plain
    assert(plain_lines(hd)) by {
        lemma_plain_one("[package]"@);
        lemma_plain_one(ln);
        lemma_plain_one(lv);
        lemma_plain_concat(seq!["[package]"@], seq![ln]);
        lemma_plain_concat(seq!["[package]"@] + seq![ln], seq![lv]);
        assert(seq!["[package]"@] + seq![ln] + seq![lv] =~= l2);
        match m.entry {
            Some(e) => {
                lemma_plain_one(quoted("entry"@, e));
            },
            None => {},
        }
        assert(plain_lines(oe)) by {
            assert forall|i: int| 0 <= i < oe.len() implies !(#[trigger] oe[i]).contains('\n')
                && (oe[i].len() == 0 || oe[i].last() != '\r') by {
                assert(oe[i] == quoted("entry"@, m.entry.unwrap()));
            }
        }
        assert(plain_lines(ol)) by {
            if let Some(e) = m.lib_entry {
                lemma_quoted_line("lib_entry"@, e);
            }
            assert forall|i: int| 0 <= i < ol.len() implies !(#[trigger] ol[i]).contains('\n')
                && (ol[i].len() == 0 || ol[i].last() != '\r') by {
                assert(ol[i] == quoted("lib_entry"@, m.lib_entry.unwrap()));
            }
        }
        lemma_plain_concat(l2, oe);
        lemma_plain_concat(l3, ol);
        lemma_plain_one(Seq::empty());
        lemma_plain_one("[dependencies]"@);
        lemma_plain_concat(l4, seq![Seq::empty()]);
        assert(l4 + seq![Seq::<char>::empty()] =~= l4.push(Seq::empty()));
        lemma_plain_concat(l4.push(Seq::empty()), seq!["[dependencies]"@]);
        assert(l4.push(Seq::empty()) + seq!["[dependencies]"@] =~= hd);
    }
    assert(plain_lines(dl)) by {
        assert forall|i: int| 0 <= i < dl.len() implies !(#[trigger] dl[i]).contains('\n') && (
        dl[i].len() == 0 || dl[i].last() != '\r') by {
            let st = ManifestScan { m, section: sec_d };
            lemma_dep_line(st, ss[i]);
        }
    }
    lemma_plain_concat(hd, dl);
    lemma_lines_join(ls);
}

} // verus!
