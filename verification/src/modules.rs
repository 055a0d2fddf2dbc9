//! Module loading: the imports a program names, the module names they bind,
//! how in-memory sources are keyed and found, and which top-level
//! statements a module file may hold.
use crate::ast::{Program, Spanned, Stmt};
use crate::text::{
    chars_eq, chars_of, eq_str, push_all, push_str, split_chars, split_on, string_of, views,
};
use vstd::prelude::*;

verus! {

/// A loaded module: the name it binds, its syntax tree (none for a
/// built-in module) and its source file (none for built-in and in-memory
/// modules).
#[derive(Debug)]
pub struct LoadedModule {
    pub name: String,
    pub program: Option<Program>,
    pub path: Option<String>,
}

/// An imported module as code generation receives it.
#[derive(Debug)]
pub struct ModuleCode {
    pub name: String,
    pub program: Option<Program>,
    pub path: Option<String>,
}

/// The modules the compiler provides itself: importing them reads no file.
pub open spec fn builtin_names() -> Seq<Seq<char>> {
    seq!["math"@]
}

/// The compiler's built-in modules.
pub fn builtin_modules() -> (r: Vec<String>)
    ensures
        views_of(r@) == builtin_names(),
{
    let mut v: Vec<String> = Vec::new();
    v.push(string_of(chars_of("math").as_slice()));
    assert(views_of(v@) =~= builtin_names());
    v
}

/// The built-in table the in-memory loader consults; kept equal to
/// `builtin_modules`.
pub fn memory_builtin_modules() -> (r: Vec<String>)
    ensures
        views_of(r@) == builtin_names(),
{
    builtin_modules()
}

pub open spec fn views_of(v: Seq<String>) -> Seq<Seq<char>> {
    v.map_values(|s: String| s@)
}

/// Whether `name` is a built-in module.
pub fn is_builtin(name: &[char]) -> (r: bool)
    ensures
        r == builtin_names().contains(name@),
{
    let r = eq_str(name, "math");
    proof {
        if name@ == "math"@ {
            assert(builtin_names()[0] == name@);
        }
    }
    r
}

/// `s` holds `pat` starting at `i`.
pub open spec fn sub_at(s: Seq<char>, pat: Seq<char>, i: int) -> bool {
    0 <= i && i + pat.len() <= s.len() && s.subrange(i, i + pat.len()) == pat
}

/// The last start at or below `k` where `pat` occurs, or -1.
pub open spec fn last_sub(s: Seq<char>, pat: Seq<char>, k: int) -> int
    decreases k + 1,
{
    if k < 0 {
        -1
    } else if sub_at(s, pat, k) {
        k
    } else {
        last_sub(s, pat, k - 1)
    }
}

/// The first start at or above `k` where `pat` occurs, or -1.
pub open spec fn first_sub(s: Seq<char>, pat: Seq<char>, k: int) -> int
    decreases s.len() + 1 - k,
{
    if k < 0 || k + pat.len() > s.len() {
        -1
    } else if sub_at(s, pat, k) {
        k
    } else {
        first_sub(s, pat, k + 1)
    }
}

/// `s.rsplit(pat).next()`: the text after the last `pat`, or all of `s`.
pub open spec fn after_last_sub(s: Seq<char>, pat: Seq<char>) -> Seq<char> {
    let i = last_sub(s, pat, s.len() - pat.len());
    if i < 0 {
        s
    } else {
        s.subrange(i + pat.len(), s.len() as int)
    }
}

/// `s.split(pat).next()`: the text before the first `pat`, or all of `s`.
pub open spec fn before_first_sub(s: Seq<char>, pat: Seq<char>) -> Seq<char> {
    let i = first_sub(s, pat, 0);
    if i < 0 {
        s
    } else {
        s.subrange(0, i)
    }
}

/// `s` with every `a` replaced by `b`.
pub open spec fn replace_char(s: Seq<char>, a: char, b: char) -> Seq<char> {
    s.map_values(|c: char| if c == a { b } else { c })
}

/// The module name an import binds: the last `.`-separated segment
/// (`mods.helpers` binds `helpers`).
pub open spec fn bind_name(import_name: Seq<char>) -> Seq<char> {
    after_last_sub(import_name, "."@)
}

fn match_at(s: &[char], pat: &[char], i: usize) -> (r: bool)
    ensures
        r == sub_at(s@, pat@, i as int),
{
    if i > s.len() || pat.len() > s.len() - i {
        return false;
    }
    let mut j: usize = 0;
    while j < pat.len()
        invariant
            0 <= j <= pat.len(),
            i + pat.len() <= s.len(),
            forall|k: int| 0 <= k < j ==> s@[i + k] == pat@[k],
        decreases pat.len() - j,
    {
        if s[i + j] != pat[j] {
            assert(s@.subrange(i as int, i + pat.len())[j as int] != pat@[j as int]);
            return false;
        }
        j += 1;
    }
    assert(s@.subrange(i as int, i + pat.len()) =~= pat@);
    true
}

/// The text after the last occurrence of `pat` (all of `s` without one).
pub fn after_last(s: &[char], pat: &str) -> (r: Vec<char>)
    ensures
        r@ == after_last_sub(s@, pat@),
{
    let p = chars_of(pat);
    if p.len() > s.len() {
        proof {
            let k = s@.len() - pat@.len();
            assert(last_sub(s@, pat@, k) == -1);
        }
        return crate::text::slice_copy(s, 0, s.len());
    }
    let mut k: usize = s.len() - p.len();
    loop
        invariant
            0 <= k <= s.len() - p.len(),
            p@ == pat@,
            p.len() <= s.len(),
            last_sub(s@, pat@, s@.len() - pat@.len()) == last_sub(s@, pat@, k as int),
        decreases k,
    {
        if match_at(s, p.as_slice(), k) {
            return crate::text::slice_copy(s, k + p.len(), s.len());
        }
        if k == 0 {
            assert(last_sub(s@, pat@, -1) == -1);
            assert(s@.subrange(0, s.len() as int) =~= s@);
            return crate::text::slice_copy(s, 0, s.len());
        }
        k -= 1;
    }
}

/// The text before the first occurrence of `pat` (all of `s` without one).
pub fn before_first_pat(s: &[char], pat: &str) -> (r: Vec<char>)
    ensures
        r@ == before_first_sub(s@, pat@),
{
    let p = chars_of(pat);
    if p.len() == 0 {
        assert(sub_at(s@, pat@, 0)) by {
            assert(s@.subrange(0, 0) =~= pat@);
        }
        return Vec::new();
    }
    let mut k: usize = 0;
    while k <= s.len() && p.len() <= s.len() - k
        invariant
            p@ == pat@,
            p.len() >= 1,
            0 <= k,
            k <= s.len() + 1,
            first_sub(s@, pat@, 0) == first_sub(s@, pat@, k as int),
        decreases s.len() + 1 - k,
    {
        if match_at(s, p.as_slice(), k) {
            return crate::text::slice_copy(s, 0, k);
        }
        k += 1;
    }
    crate::text::slice_copy(s, 0, s.len())
}

/// `s` with every `a` replaced by `b`.
pub fn replace_chars(s: &[char], a: char, b: char) -> (r: Vec<char>)
    ensures
        r@ == replace_char(s@, a, b),
{
    let mut out: Vec<char> = Vec::new();
    let mut i: usize = 0;
    while i < s.len()
        invariant
            0 <= i <= s.len(),
            out@ == replace_char(s@.take(i as int), a, b),
        decreases s.len() - i,
    {
        let c = s[i];
        out.push(if c == a {
            b
        } else {
            c
        });
        assert(out@ =~= replace_char(s@.take(i + 1), a, b));
        i += 1;
    }
    assert(s@.take(s.len() as int) =~= s@);
    out
}

/// The module name an import binds.
pub fn module_bind_name(import_name: &str) -> (r: String)
    ensures
        r@ == bind_name(import_name@),
{
    let s = chars_of(import_name);
    string_of(after_last(s.as_slice(), ".").as_slice())
}

/// Drops every leading `c`.
fn strip_leading(s: &[char], c: char) -> (r: Vec<char>)
    ensures
        r@ == crate::text::strip_start(s@, c),
{
    let mut i: usize = 0;
    assert(s@.skip(0) =~= s@);
    while i < s.len() && s[i] == c
        invariant
            0 <= i <= s.len(),
            crate::text::strip_start(s@, c) == crate::text::strip_start(s@.skip(i as int), c),
        decreases s.len() - i,
    {
        assert(s@.skip(i as int).drop_first() =~= s@.skip(i + 1));
        i += 1;
    }
    assert(s@.skip(i as int) =~= s@.subrange(i as int, s.len() as int));
    crate::text::slice_copy(s, i, s.len())
}

/// The non-empty pieces joined by `.`.
pub open spec fn join_nonempty(parts: Seq<Seq<char>>) -> Seq<char>
    decreases parts.len(),
{
    if parts.len() == 0 {
        Seq::empty()
    } else {
        let rest = join_nonempty(parts.drop_last());
        let p = parts.last();
        if p.len() == 0 {
            rest
        } else if rest.len() == 0 {
            p
        } else {
            rest + "."@ + p
        }
    }
}

/// A key path without `.hz` at its end.
pub open spec fn strip_hz(s: Seq<char>) -> Seq<char> {
    if crate::paths::has_suffix(s, ".hz"@) {
        s.take(s.len() - 3)
    } else {
        s
    }
}

/// The dotted import name of an in-memory key: the path after any URL
/// scheme, leading `/` removed, `\` read as `/`, `.hz` dropped, and the
/// non-empty segments joined with `.`; a plain import name stays as it is.
pub open spec fn key_import_name(key: Seq<char>) -> Seq<char> {
    let no_scheme = after_last_sub(key, "://"@);
    let normalized = replace_char(crate::text::strip_start(no_scheme, '/'), '\\', '/');
    join_nonempty(split_on(strip_hz(normalized), '/'))
}

/// The dotted import name of an in-memory key.
pub fn memory_key_to_import_name(key: &str) -> (r: String)
    ensures
        r@ == key_import_name(key@),
{
    let k = chars_of(key);
    let no_scheme = after_last(k.as_slice(), "://");
    let lead = strip_leading(no_scheme.as_slice(), '/');
    let normalized = replace_chars(lead.as_slice(), '\\', '/');
    proof {
        reveal_strlit(".hz");
    }
    let stripped = if crate::paths::has_suffix_chars(normalized.as_slice(), ".hz") {
        crate::text::slice_copy(normalized.as_slice(), 0, normalized.len() - 3)
    } else {
        normalized
    };
    proof {
        reveal_strlit(".hz");
    }
    let parts = split_chars(stripped.as_slice(), '/');
    let ghost pv = split_on(stripped@, '/');
    let mut out: Vec<char> = Vec::new();
    let mut i: usize = 0;
    assert(pv.take(0) =~= Seq::<Seq<char>>::empty());
    while i < parts.len()
        invariant
            0 <= i <= parts.len(),
            views(parts@) == pv,
            out@ == join_nonempty(pv.take(i as int)),
        decreases parts.len() - i,
    {
        assert(pv.take(i + 1).drop_last() =~= pv.take(i as int));
        assert(pv.take(i + 1).last() == parts@[i as int]@);
        if parts[i].len() > 0 {
            if out.len() > 0 {
                out.push('.');
            }
            push_all(&mut out, parts[i].as_slice());
        }
        proof {
            reveal_strlit(".");
        }
        assert(out@ =~= join_nonempty(pv.take(i + 1)));
        i += 1;
    }
    assert(pv.take(parts.len() as int) =~= pv);
    string_of(out.as_slice())
}

/// The path part of a key as the lookup compares it: `\` read as `/`, the
/// text after any URL scheme, leading `/` removed.
pub open spec fn key_path_part(key: Seq<char>) -> Seq<char> {
    crate::text::strip_start(after_last_sub(replace_char(key, '\\', '/'), "://"@), '/')
}

/// Whether a key's path is `rel` or ends in `/rel`.
pub open spec fn key_matches(key: Seq<char>, rel: Seq<char>) -> bool {
    let p = key_path_part(key);
    p == rel || crate::paths::has_suffix(p, "/"@ + rel)
}

/// The library entry files tried under a package directory, in order.
pub open spec fn entry_candidates() -> Seq<Seq<char>> {
    seq!["src/lib.hz"@, "lib.hz"@, "src/mod.hz"@, "mod.hz"@]
}

/// Index of the first key satisfying `key_matches(.., rel)`, or `keys.len()`.
pub open spec fn first_match(keys: Seq<Seq<char>>, rel: Seq<char>, i: int) -> int
    decreases keys.len() - i,
{
    if i >= keys.len() || i < 0 {
        keys.len() as int
    } else if key_matches(keys[i], rel) {
        i
    } else {
        first_match(keys, rel, i + 1)
    }
}

/// Index of the first key equal to `name`, or `keys.len()`.
pub open spec fn first_eq(keys: Seq<Seq<char>>, name: Seq<char>, i: int) -> int
    decreases keys.len() - i,
{
    if i >= keys.len() || i < 0 {
        keys.len() as int
    } else if keys[i] == name {
        i
    } else {
        first_eq(keys, name, i + 1)
    }
}

/// Which entry an import name finds among the in-memory keys: an exact
/// key first, then a key whose path ends in the name's file
/// (`a.b` → `a/b.hz`), then a package entry under the name's directory,
/// then a key equal to the bound name. `None` when nothing matches.
pub open spec fn lookup_index(keys: Seq<Seq<char>>, name: Seq<char>) -> Option<int> {
    let n = keys.len() as int;
    let stem = replace_char(name, '.', '/');
    let exact = first_eq(keys, name, 0);
    let by_file = first_match(keys, stem + ".hz"@, 0);
    let c0 = first_match(keys, stem + "/"@ + entry_candidates()[0], 0);
    let c1 = first_match(keys, stem + "/"@ + entry_candidates()[1], 0);
    let c2 = first_match(keys, stem + "/"@ + entry_candidates()[2], 0);
    let c3 = first_match(keys, stem + "/"@ + entry_candidates()[3], 0);
    let by_bind = first_eq(keys, bind_name(name), 0);
    if exact < n {
        Some(exact)
    } else if by_file < n {
        Some(by_file)
    } else if c0 < n {
        Some(c0)
    } else if c1 < n {
        Some(c1)
    } else if c2 < n {
        Some(c2)
    } else if c3 < n {
        Some(c3)
    } else if by_bind < n {
        Some(by_bind)
    } else {
        None
    }
}

pub open spec fn keys_of(files: Seq<(String, String)>) -> Seq<Seq<char>> {
    files.map_values(|f: (String, String)| f.0@)
}

fn key_matches_exec(key: &String, rel: &[char]) -> (r: bool)
    ensures
        r == key_matches(key@, rel@),
{
    let k = chars_of(key.as_str());
    let normalized = replace_chars(k.as_slice(), '\\', '/');
    let no_scheme = after_last(normalized.as_slice(), "://");
    let p = strip_leading(no_scheme.as_slice(), '/');
    if chars_eq(p.as_slice(), rel) {
        return true;
    }
    let mut slash_rel: Vec<char> = Vec::new();
    slash_rel.push('/');
    push_all(&mut slash_rel, rel);
    proof {
        reveal_strlit("/");
        assert(slash_rel@ =~= "/"@ + rel@);
    }
    crate::paths::has_suffix_slice(p.as_slice(), slash_rel.as_slice())
}

fn find_match(files: &Vec<(String, String)>, rel: &[char]) -> (r: usize)
    ensures
        r as int == first_match(keys_of(files@), rel@, 0),
{
    let ghost keys = keys_of(files@);
    let mut i: usize = 0;
    while i < files.len()
        invariant
            0 <= i <= files.len(),
            keys == keys_of(files@),
            first_match(keys, rel@, 0) == first_match(keys, rel@, i as int),
        decreases files.len() - i,
    {
        if key_matches_exec(&files[i].0, rel) {
            return i;
        }
        i += 1;
    }
    i
}

fn find_eq(files: &Vec<(String, String)>, name: &[char]) -> (r: usize)
    ensures
        r as int == first_eq(keys_of(files@), name@, 0),
{
    let ghost keys = keys_of(files@);
    let mut i: usize = 0;
    while i < files.len()
        invariant
            0 <= i <= files.len(),
            keys == keys_of(files@),
            first_eq(keys, name@, 0) == first_eq(keys, name@, i as int),
        decreases files.len() - i,
    {
        let k = chars_of(files[i].0.as_str());
        if chars_eq(k.as_slice(), name) {
            return i;
        }
        i += 1;
    }
    i
}

/// The library entry file tried in place `c`.
fn candidate(c: usize) -> (r: &'static str)
    requires
        c < 4,
    ensures
        r@ == entry_candidates()[c as int],
{
    if c == 0 {
        "src/lib.hz"
    } else if c == 1 {
        "lib.hz"
    } else if c == 2 {
        "src/mod.hz"
    } else {
        "mod.hz"
    }
}

/// The in-memory source an import name refers to (see `lookup_index`);
/// among several matching keys of one rule the first in `files` wins.
pub fn lookup_memory_source<'a>(files: &'a Vec<(String, String)>, import_name: &str) -> (r: Option<
    &'a String,
>)
    ensures
        match lookup_index(keys_of(files@), import_name@) {
            Some(i) => r matches Some(s) && 0 <= i < files@.len() && *s == files@[i].1,
            None => r is None,
        },
{
    let ghost keys = keys_of(files@);
    let name = chars_of(import_name);
    let exact = find_eq(files, name.as_slice());
    if exact < files.len() {
        return Some(&files[exact].1);
    }
    let stem = replace_chars(name.as_slice(), '.', '/');
    let mut rel = stem.clone();
    push_str(&mut rel, ".hz");
    let by_file = find_match(files, rel.as_slice());
    if by_file < files.len() {
        return Some(&files[by_file].1);
    }
    let mut c: usize = 0;
    while c < 4
        invariant
            0 <= c <= 4,
            stem@ == replace_char(import_name@, '.', '/'),
            keys == keys_of(files@),
            forall|j: int|
                0 <= j < c ==> first_match(keys, stem@ + "/"@ + entry_candidates()[j], 0)
                    >= files@.len(),
            first_eq(keys, import_name@, 0) >= files@.len(),
            first_match(keys, stem@ + ".hz"@, 0) >= files@.len(),
        decreases 4 - c,
    {
        let mut rel_cand = stem.clone();
        push_str(&mut rel_cand, "/");
        push_str(&mut rel_cand, candidate(c));
        let hit = find_match(files, rel_cand.as_slice());
        if hit < files.len() {
            return Some(&files[hit].1);
        }
        c += 1;
    }
    let bind = module_bind_name(import_name);
    let bc = chars_of(bind.as_str());
    let by_bind = find_eq(files, bc.as_slice());
    if by_bind < files.len() {
        Some(&files[by_bind].1)
    } else {
        None
    }
}

/// A module file may hold only definitions (`fn`, `struct`, `enum`,
/// `trait`, `impl`), imports and exports.
pub open spec fn module_stmt_allowed(s: Stmt) -> bool {
    match s {
        Stmt::Fn(_) | Stmt::Struct(_) | Stmt::Enum(_) | Stmt::Import(_) | Stmt::Export(_)
        | Stmt::Trait(_) | Stmt::Impl(_) => true,
        _ => false,
    }
}

pub open spec fn module_error_text(name: Seq<char>) -> Seq<char> {
    "Module '"@ + name
        + "' may only contain fn/struct/enum/trait/impl definitions, imports, and exports"@
}

/// Checks that a module holds only what a module may hold.
pub fn validate_module_program_result(name: &str, program: &Program) -> (r: Result<(), String>)
    ensures
        r is Ok <==> forall|i: int|
            0 <= i < program.statements@.len() ==> module_stmt_allowed(
                #[trigger] program.statements@[i].node,
            ),
        r matches Err(e) ==> e@ == module_error_text(name@),
{
    let mut i: usize = 0;
    while i < program.statements.len()
        invariant
            0 <= i <= program.statements.len(),
            forall|j: int| 0 <= j < i ==> module_stmt_allowed(#[trigger] program.statements@[j].node),
        decreases program.statements.len() - i,
    {
        let ok = match &program.statements[i].node {
            Stmt::Fn(_) | Stmt::Struct(_) | Stmt::Enum(_) | Stmt::Import(_) | Stmt::Export(_)
            | Stmt::Trait(_) | Stmt::Impl(_) => true,
            _ => false,
        };
        if !ok {
            let mut m: Vec<char> = Vec::new();
            push_str(&mut m, "Module '");
            push_str(&mut m, name);
            push_str(
                &mut m,
                "' may only contain fn/struct/enum/trait/impl definitions, imports, and exports",
            );
            return Err(string_of(m.as_slice()));
        }
        i += 1;
    }
    Ok(())
}

/// The names imported by `import` statements, in order.
pub open spec fn import_names(ss: Seq<Spanned<Stmt>>) -> Seq<Seq<char>>
    decreases ss.len(),
{
    if ss.len() == 0 {
        Seq::empty()
    } else {
        let rest = import_names(ss.drop_last());
        match ss.last().node {
            Stmt::Import(i) => rest.push(i.name@),
            _ => rest,
        }
    }
}

/// The statements other than imports, in order.
pub open spec fn without_imports(ss: Seq<Spanned<Stmt>>) -> Seq<Spanned<Stmt>>
    decreases ss.len(),
{
    if ss.len() == 0 {
        Seq::empty()
    } else {
        let rest = without_imports(ss.drop_last());
        match ss.last().node {
            Stmt::Import(_) => rest,
            _ => rest.push(ss.last()),
        }
    }
}

/// The module an export path starts with: before the first `::`, then
/// before the first `.`.
pub open spec fn export_root(path: Seq<char>) -> Seq<char> {
    crate::text::before_first(before_first_sub(path, "::"@), '.')
}

/// `names` extended, in statement order, by the root module of each export
/// that is not yet among them.
pub open spec fn add_export_roots(names: Seq<Seq<char>>, ss: Seq<Spanned<Stmt>>) -> Seq<Seq<char>>
    decreases ss.len(),
{
    if ss.len() == 0 {
        names
    } else {
        let before = add_export_roots(names, ss.drop_last());
        match ss.last().node {
            Stmt::Export(e) => if before.contains(export_root(e.path@)) {
                before
            } else {
                before.push(export_root(e.path@))
            },
            _ => before,
        }
    }
}

fn contains_text(v: &Vec<String>, s: &[char]) -> (r: bool)
    ensures
        r == views_of(v@).contains(s@),
{
    let mut i: usize = 0;
    while i < v.len()
        invariant
            0 <= i <= v.len(),
            forall|j: int| 0 <= j < i ==> v@[j]@ != s@,
        decreases v.len() - i,
    {
        let a = chars_of(v[i].as_str());
        if chars_eq(a.as_slice(), s) {
            assert(views_of(v@)[i as int] == s@);
            return true;
        }
        i += 1;
    }
    proof {
        if views_of(v@).contains(s@) {
            let j = choose|j: int| 0 <= j < views_of(v@).len() && views_of(v@)[j] == s@;
            assert(v@[j]@ == s@);
        }
    }
    false
}

/// Takes the `import` statements out of a program and returns the names
/// they import, followed by the root module of every export not already
/// named (exports stay in the program).
pub fn extract_imports(program: &mut Program) -> (r: Vec<String>)
    ensures
        final(program).statements@ == without_imports(old(program).statements@),
        views_of(r@) == add_export_roots(
            import_names(old(program).statements@),
            without_imports(old(program).statements@),
        ),
{
    let ghost orig = program.statements@;
    let mut rest: Vec<Spanned<Stmt>> = Vec::new();
    std::mem::swap(&mut rest, &mut program.statements);
    let n0 = rest.len();
    let mut kept: Vec<Spanned<Stmt>> = Vec::new();
    let mut names: Vec<String> = Vec::new();
    let mut taken: usize = 0;
    assert(orig.take(0) =~= Seq::<Spanned<Stmt>>::empty());
    while rest.len() > 0
        invariant
            taken + rest.len() == orig.len(),
            orig.len() == n0,
            rest@ == orig.skip(taken as int),
            kept@ == without_imports(orig.take(taken as int)),
            views_of(names@) == import_names(orig.take(taken as int)),
        decreases rest.len(),
    {
        let s = rest.remove(0);
        assert(orig.take(taken + 1).drop_last() =~= orig.take(taken as int));
        assert(orig.take(taken + 1).last() == s);
        match &s.node {
            Stmt::Import(imp) => {
                let n = imp.name.clone();
                names.push(n);
                assert(views_of(names@) =~= import_names(orig.take(taken + 1)));
            },
            _ => {
                kept.push(s);
                assert(kept@ =~= without_imports(orig.take(taken + 1)));
            },
        }
        assert(rest@ =~= orig.skip(taken + 1));
        taken += 1;
    }
    assert(orig.take(taken as int) =~= orig);
    let ghost base = views_of(names@);
    let mut i: usize = 0;
    assert(kept@.take(0) =~= Seq::<Spanned<Stmt>>::empty());
    while i < kept.len()
        invariant
            0 <= i <= kept.len(),
            kept@ == without_imports(orig),
            base == import_names(orig),
            views_of(names@) == add_export_roots(base, kept@.take(i as int)),
        decreases kept.len() - i,
    {
        assert(kept@.take(i + 1).drop_last() =~= kept@.take(i as int));
        assert(kept@.take(i + 1).last() == kept@[i as int]);
        match &kept[i].node {
            Stmt::Export(exp) => {
                let p = chars_of(exp.path.as_str());
                let first = before_first_pat(p.as_slice(), "::");
                let root = crate::text::before_first_char(first.as_slice(), '.');
                if !contains_text(&names, root.as_slice()) {
                    names.push(string_of(root.as_slice()));
                    assert(views_of(names@) =~= views_of(names@).drop_last().push(root@));
                }
            },
            _ => {},
        }
        i += 1;
    }
    assert(kept@.take(kept.len() as int) =~= kept@);
    program.statements = kept;
    names
}

} // verus!
