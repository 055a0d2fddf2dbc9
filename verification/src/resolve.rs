//! Where the file of an imported module is looked for. Each function here
//! gives the paths to try, in the order they are tried; the first that is
//! a file wins. Reading directories and manifests is left to the caller,
//! which hands over what it found.
use crate::keyed::sort_by_name;
use crate::manifest::key_lt;
use crate::modules::{entry_candidates, views_of};
use crate::paths::{
    opt_text, path_file_name, path_file_name_text, path_join, path_join_text, path_with_ext_text,
    path_with_extension,
};
use crate::text::{chars_of, push_str, split_chars, split_on, string_of, views};
use vstd::prelude::*;

verus! {

/// A path built from its segments, as `PathBuf::from_iter` builds it.
pub open spec fn segs_path(segs: Seq<Seq<char>>) -> Seq<char>
    decreases segs.len(),
{
    if segs.len() == 0 {
        Seq::empty()
    } else if segs.len() == 1 {
        segs[0]
    } else {
        path_join_text(segs_path(segs.drop_last()), segs.last())
    }
}

fn push_text(v: &mut Vec<String>, s: String)
    ensures
        views_of(final(v)@) == views_of(old(v)@).push(s@),
{
    v.push(s);
    assert(views_of(v@) =~= views_of(old(v)@).push(s@));
}

pub fn segs_to_path(segs: &Vec<String>) -> (r: String)
    ensures
        r@ == segs_path(views_of(segs@)),
{
    if segs.len() == 0 {
        return String::new();
    }
    let mut acc = segs[0].clone();
    let mut i: usize = 1;
    assert(views_of(segs@).take(1) =~= seq![segs@[0]@]);
    while i < segs.len()
        invariant
            1 <= i <= segs.len(),
            acc@ == segs_path(views_of(segs@).take(i as int)),
        decreases segs.len() - i,
    {
        assert(views_of(segs@).take(i + 1).drop_last() =~= views_of(segs@).take(i as int));
        assert(views_of(segs@).take(i + 1).last() == segs@[i as int]@);
        acc = path_join(acc.as_str(), segs[i].as_str());
        i += 1;
    }
    assert(views_of(segs@).take(segs.len() as int) =~= views_of(segs@));
    acc
}

/// The package-named entry files of a package directory named `stem`:
/// `src/<stem>.hz`, then `<stem>.hz`.
pub open spec fn stem_files(dir: Seq<char>, stem: Seq<char>) -> Seq<Seq<char>> {
    seq![path_join_text(dir, "src/"@ + stem + ".hz"@), path_join_text(dir, stem + ".hz"@)]
}

/// The files tried for a module under `root`. For a submodule `a.b`:
/// `root/a/b.hz`, then `root/src/a/b.hz`. For the package itself: the
/// `lib_entry` its `huzi.toml` names, the usual entry files, then the files
/// named after the directory.
pub open spec fn module_file_cands(root: Seq<char>, segs: Seq<Seq<char>>, lib_entry: Option<Seq<char>>) -> Seq<
    Seq<char>,
> {
    if segs.len() > 0 {
        let fp = segs_path(segs);
        seq![
            path_with_ext_text(path_join_text(root, fp), "hz"@),
            path_with_ext_text(path_join_text(path_join_text(root, "src"@), fp), "hz"@),
        ]
    } else {
        (match lib_entry {
            Some(e) => seq![path_join_text(root, e)],
            None => Seq::empty(),
        }) + entry_candidates().map_values(|c: Seq<char>| path_join_text(root, c)) + match path_file_name_text(root) {
            Some(stem) => stem_files(root, stem),
            None => Seq::empty(),
        }
    }
}

fn push_stem_files(out: &mut Vec<String>, dir: &str, stem: &str)
    ensures
        views_of(final(out)@) == views_of(old(out)@) + stem_files(dir@, stem@),
{
    let mut a: Vec<char> = Vec::new();
    push_str(&mut a, "src/");
    push_str(&mut a, stem);
    push_str(&mut a, ".hz");
    let mut b: Vec<char> = Vec::new();
    push_str(&mut b, stem);
    push_str(&mut b, ".hz");
    let ghost before = views_of(out@);
    push_text(out, path_join(dir, string_of(a.as_slice()).as_str()));
    push_text(out, path_join(dir, string_of(b.as_slice()).as_str()));
    assert(views_of(out@) =~= before + stem_files(dir@, stem@));
}

/// The paths `match_module_file` tries under `root`, given the
/// `lib_entry` of `root/huzi.toml` when there is one.
pub fn module_file_candidates(root: &str, segs: &Vec<String>, lib_entry: Option<&str>) -> (r: Vec<
    String,
>)
    ensures
        views_of(r@) == module_file_cands(
            root@,
            views_of(segs@),
            match lib_entry {
                Some(e) => Some(e@),
                None => None,
            },
        ),
{
    let mut out: Vec<String> = Vec::new();
    if segs.len() > 0 {
        let fp = segs_to_path(segs);
        proof {
            reveal_strlit("hz");
        }
        push_text(&mut out, path_with_extension(path_join(root, fp.as_str()).as_str(), "hz"));
        let src = path_join(root, "src");
        push_text(&mut out, path_with_extension(path_join(src.as_str(), fp.as_str()).as_str(), "hz"));
        assert(views_of(out@) =~= module_file_cands(
            root@,
            views_of(segs@),
            match lib_entry {
                Some(e) => Some(e@),
                None => None,
            },
        ));
        return out;
    }
    if let Some(e) = lib_entry {
        push_text(&mut out, path_join(root, e));
    }
    let ghost head = views_of(out@);
    push_text(&mut out, path_join(root, "src/lib.hz"));
    push_text(&mut out, path_join(root, "lib.hz"));
    push_text(&mut out, path_join(root, "src/mod.hz"));
    push_text(&mut out, path_join(root, "mod.hz"));
    assert(views_of(out@) =~= head + entry_candidates().map_values(
        |c: Seq<char>| path_join_text(root@, c),
    ));
    match path_file_name(root) {
        Some(stem) => push_stem_files(&mut out, root, stem.as_str()),
        None => {},
    }
    assert(views_of(out@) =~= module_file_cands(
        root@,
        views_of(segs@),
        match lib_entry {
            Some(e) => Some(e@),
            None => None,
        },
    ));
    out
}

/// The directory of a module's own package: `root` joined with the file
/// path without its extension.
pub open spec fn stem_dir_text(root: Seq<char>, file: Seq<char>) -> Seq<char> {
    path_join_text(root, path_with_ext_text(file, Seq::empty()))
}

/// Where `probe_entry_file` looks for the package's `huzi.toml`.
pub fn entry_stem_dir(root: &str, file: &str) -> (r: String)
    ensures
        r@ == stem_dir_text(root@, file@),
{
    proof {
        reveal_strlit("");
        assert(""@ =~= Seq::<char>::empty());
    }
    path_join(root, path_with_extension(file, "").as_str())
}

/// The files `probe_entry_file` tries for `file` under `root`: the file
/// itself; then, in the package directory of the same name, the
/// `lib_entry` of its `huzi.toml` and the usual entry files.
pub open spec fn entry_file_cands(root: Seq<char>, file: Seq<char>, lib_entry: Option<Seq<char>>) -> Seq<
    Seq<char>,
> {
    let d = stem_dir_text(root, file);
    seq![path_join_text(root, file)] + (match lib_entry {
        Some(e) => seq![path_join_text(d, e)],
        None => Seq::empty(),
    }) + entry_candidates().map_values(|c: Seq<char>| path_join_text(d, c))
}

pub fn entry_file_candidates(root: &str, file: &str, lib_entry: Option<&str>) -> (r: Vec<String>)
    ensures
        views_of(r@) == entry_file_cands(
            root@,
            file@,
            match lib_entry {
                Some(e) => Some(e@),
                None => None,
            },
        ),
{
    let mut out: Vec<String> = Vec::new();
    push_text(&mut out, path_join(root, file));
    let d = entry_stem_dir(root, file);
    if let Some(e) = lib_entry {
        push_text(&mut out, path_join(d.as_str(), e));
    }
    let ghost head = views_of(out@);
    push_text(&mut out, path_join(d.as_str(), "src/lib.hz"));
    push_text(&mut out, path_join(d.as_str(), "lib.hz"));
    push_text(&mut out, path_join(d.as_str(), "src/mod.hz"));
    push_text(&mut out, path_join(d.as_str(), "mod.hz"));
    assert(views_of(out@) =~= head + entry_candidates().map_values(
        |c: Seq<char>| path_join_text(d@, c),
    ));
    assert(views_of(out@) =~= entry_file_cands(
        root@,
        file@,
        match lib_entry {
            Some(e) => Some(e@),
            None => None,
        },
    ));
    out
}

/// The file an import names: its dotted segments as a path, with `.hz`.
pub open spec fn import_file_text(import: Seq<char>) -> Seq<char> {
    path_with_ext_text(segs_path(split_on(import, '.')), "hz"@)
}

pub fn import_file(import: &str) -> (r: String)
    ensures
        r@ == import_file_text(import@),
{
    let cs = chars_of(import);
    let parts = split_chars(cs.as_slice(), '.');
    let ghost want = split_on(import@, '.');
    let mut segs: Vec<String> = Vec::new();
    let mut i: usize = 0;
    while i < parts.len()
        invariant
            0 <= i <= parts.len(),
            views(parts@) == want,
            views_of(segs@) == want.take(i as int),
        decreases parts.len() - i,
    {
        assert(views(parts@)[i as int] == parts@[i as int]@);
        push_text(&mut segs, string_of(parts[i].as_slice()));
        i += 1;
        assert(views_of(segs@) =~= want.take(i as int));
    }
    assert(want.take(parts.len() as int) =~= want);
    let p = segs_to_path(&segs);
    proof {
        reveal_strlit("hz");
    }
    path_with_extension(p.as_str(), "hz")
}

/// The report when no file is found for an import: the two places tried
/// first.
pub open spec fn missing_module_text(import: Seq<char>, base_dir: Seq<char>) -> Seq<char> {
    let f = import_file_text(import);
    "Cannot find module '"@ + import + "': tried "@ + path_join_text(base_dir, f) + " and "@
        + path_join_text("."@, f)
}

pub fn missing_module_message(import: &str, base_dir: &str) -> (r: String)
    ensures
        r@ == missing_module_text(import@, base_dir@),
{
    let f = import_file(import);
    let mut v: Vec<char> = Vec::new();
    push_str(&mut v, "Cannot find module '");
    push_str(&mut v, import);
    push_str(&mut v, "': tried ");
    push_str(&mut v, path_join(base_dir, f.as_str()).as_str());
    push_str(&mut v, " and ");
    push_str(&mut v, path_join(".", f.as_str()).as_str());
    string_of(v.as_slice())
}

/// The package roots searched for package `pkg`, in order: the `path` the
/// project's manifest gives it; the project's `vendor/`; `vendor/` beside
/// the importing file; `vendor/` in the working directory; the global
/// cache `~/.huzi/packages/`.
pub open spec fn package_roots_text(
    pkg: Seq<char>,
    base_dir: Seq<char>,
    manifest_dir: Option<Seq<char>>,
    dep_path: Option<Seq<char>>,
    home: Option<Seq<char>>,
) -> Seq<Seq<char>> {
    (match (manifest_dir, dep_path) {
        (Some(m), Some(p)) => seq![path_join_text(m, p)],
        _ => Seq::empty(),
    }) + (match manifest_dir {
        Some(m) => seq![path_join_text(path_join_text(m, "vendor"@), pkg)],
        None => Seq::empty(),
    }) + seq![
        path_join_text(path_join_text(base_dir, "vendor"@), pkg),
        path_join_text("vendor"@, pkg),
    ] + match home {
        Some(h) => seq![
            path_join_text(path_join_text(path_join_text(h, ".huzi"@), "packages"@), pkg),
        ],
        None => Seq::empty(),
    }
}

/// The roots `resolve_package_module` searches, given the directory of the
/// project manifest found above the importing file, the `path` that
/// manifest gives the package, and the home directory.
pub fn package_roots(
    pkg: &str,
    base_dir: &str,
    manifest_dir: Option<&str>,
    dep_path: Option<&str>,
    home: Option<&str>,
) -> (r: Vec<String>)
    ensures
        views_of(r@) == package_roots_text(
            pkg@,
            base_dir@,
            match manifest_dir {
                Some(m) => Some(m@),
                None => None,
            },
            match dep_path {
                Some(p) => Some(p@),
                None => None,
            },
            match home {
                Some(h) => Some(h@),
                None => None,
            },
        ),
{
    let mut out: Vec<String> = Vec::new();
    match (manifest_dir, dep_path) {
        (Some(m), Some(p)) => push_text(&mut out, path_join(m, p)),
        _ => {},
    }
    if let Some(m) = manifest_dir {
        push_text(&mut out, path_join(path_join(m, "vendor").as_str(), pkg));
    }
    push_text(&mut out, path_join(path_join(base_dir, "vendor").as_str(), pkg));
    push_text(&mut out, path_join("vendor", pkg));
    if let Some(h) = home {
        let a = path_join(h, ".huzi");
        let b = path_join(a.as_str(), "packages");
        push_text(&mut out, path_join(b.as_str(), pkg));
    }
    proof {
        let ghost want = package_roots_text(
            pkg@,
            base_dir@,
            match manifest_dir {
                Some(m) => Some(m@),
                None => None,
            },
            match dep_path {
                Some(p) => Some(p@),
                None => None,
            },
            match home {
                Some(h) => Some(h@),
                None => None,
            },
        );
        assert(views_of(out@) =~= want);
    }
    out
}

/// A version directory of a package: its name, its path, and the
/// `lib_entry` of its `huzi.toml` when it names one.
pub struct VersionDir {
    pub name: String,
    pub path: String,
    pub lib_entry: Option<String>,
}

pub open spec fn vdir_view(d: VersionDir) -> (Seq<char>, (Seq<char>, Option<Seq<char>>)) {
    (d.name@, (d.path@, opt_text(d.lib_entry)))
}

pub open spec fn vdirs_view(ds: Seq<VersionDir>) -> Seq<(Seq<char>, (Seq<char>, Option<Seq<char>>))> {
    ds.map_values(|d: VersionDir| vdir_view(d))
}

/// The files tried in each version directory, highest name first.
pub open spec fn vdir_cands(
    ds: Seq<(Seq<char>, (Seq<char>, Option<Seq<char>>))>,
    segs: Seq<Seq<char>>,
    pkg_stem: Option<Seq<char>>,
) -> Seq<Seq<char>>
    decreases ds.len(),
{
    if ds.len() == 0 {
        Seq::empty()
    } else {
        let d = ds.last();
        module_file_cands(d.1.0, segs, d.1.1) + (if segs.len() == 0 && pkg_stem is Some {
            stem_files(d.1.0, pkg_stem->0)
        } else {
            Seq::empty()
        }) + vdir_cands(ds.drop_last(), segs, pkg_stem)
    }
}

/// The files `find_in_package_dir` tries in package directory `pkg_dir`:
/// in each of its subdirectories, highest name first, the module's files
/// and, for the package itself, the files named after the package; then
/// the module's files in `pkg_dir` itself.
pub open spec fn package_dir_cands(
    pkg_dir: Seq<char>,
    segs: Seq<Seq<char>>,
    subdirs: Seq<(Seq<char>, (Seq<char>, Option<Seq<char>>))>,
    own_lib_entry: Option<Seq<char>>,
) -> Seq<Seq<char>> {
    vdir_cands(sort_by_name(subdirs), segs, path_file_name_text(pkg_dir)) + module_file_cands(
        pkg_dir,
        segs,
        own_lib_entry,
    )
}

fn insert_vdir_sorted(v: &mut Vec<VersionDir>, e: VersionDir)
    ensures
        vdirs_view(final(v)@) == crate::keyed::insert_sorted(vdirs_view(old(v)@), vdir_view(e)),
{
    let ghost s = vdirs_view(v@);
    let ghost ev = vdir_view(e);
    let mut pos = v.len();
    assert(s.take(pos as int) =~= s);
    assert(s.skip(pos as int) =~= Seq::<(Seq<char>, (Seq<char>, Option<Seq<char>>))>::empty());
    assert(crate::keyed::insert_sorted(s, ev) =~= crate::keyed::insert_sorted(
        s.take(pos as int),
        ev,
    ) + s.skip(pos as int));
    while pos > 0 && key_lt(&e.name, &v[pos - 1].name)
        invariant
            0 <= pos <= v.len(),
            s == vdirs_view(v@),
            ev == vdir_view(e),
            crate::keyed::insert_sorted(s, ev) == crate::keyed::insert_sorted(
                s.take(pos as int),
                ev,
            ) + s.skip(pos as int),
        decreases pos,
    {
        let ghost t = s.take(pos as int);
        assert(t.drop_last() =~= s.take(pos - 1));
        assert(t.last() == s[pos - 1]);
        assert(s[pos - 1] == vdir_view(v@[pos - 1]));
        assert(s.skip(pos - 1) =~= seq![s[pos - 1]] + s.skip(pos as int));
        assert(crate::keyed::insert_sorted(s.take(pos - 1), ev).push(s[pos - 1]) + s.skip(
            pos as int,
        ) =~= crate::keyed::insert_sorted(s.take(pos - 1), ev) + s.skip(pos - 1));
        pos -= 1;
    }
    if pos > 0 {
        assert(s.take(pos as int).last() == s[pos - 1]);
        assert(s[pos - 1] == vdir_view(v@[pos - 1]));
    } else {
        assert(s.take(0) =~= Seq::<(Seq<char>, (Seq<char>, Option<Seq<char>>))>::empty());
    }
    assert(crate::keyed::insert_sorted(s.take(pos as int), ev) == s.take(pos as int).push(ev));
    v.insert(pos, e);
    assert(vdirs_view(v@) =~= s.take(pos as int).push(ev) + s.skip(pos as int));
}

/// The paths `find_in_package_dir` tries, given the subdirectories of
/// `pkg_dir` and the `lib_entry` of `pkg_dir/huzi.toml`.
pub fn package_dir_candidates(
    pkg_dir: &str,
    segs: &Vec<String>,
    subdirs: Vec<VersionDir>,
    own_lib_entry: Option<&str>,
) -> (r: Vec<String>)
    ensures
        views_of(r@) == package_dir_cands(
            pkg_dir@,
            views_of(segs@),
            vdirs_view(subdirs@),
            match own_lib_entry {
                Some(e) => Some(e@),
                None => None,
            },
        ),
{
    let ghost sv = vdirs_view(subdirs@);
    let n = subdirs.len();
    let mut sorted: Vec<VersionDir> = Vec::new();
    let mut rest = subdirs;
    let ghost orig = rest@;
    let mut taken: usize = 0;
    assert(vdirs_view(orig).take(0) =~= Seq::<(Seq<char>, (Seq<char>, Option<Seq<char>>))>::empty());
    while rest.len() > 0
        invariant
            taken + rest.len() == n,
            orig.len() == n,
            sv == vdirs_view(orig),
            rest@ == orig.skip(taken as int),
            vdirs_view(sorted@) == sort_by_name(sv.take(taken as int)),
        decreases rest.len(),
    {
        let e = rest.remove(0);
        assert(orig.skip(taken as int)[0] == e);
        assert(sv.take(taken + 1).drop_last() =~= sv.take(taken as int));
        assert(sv.take(taken + 1).last() == vdir_view(e));
        insert_vdir_sorted(&mut sorted, e);
        taken += 1;
        assert(rest@ =~= orig.skip(taken as int));
    }
    assert(sv.take(n as int) =~= sv);
    let ghost srt = sort_by_name(sv);
    let stem = path_file_name(pkg_dir);
    let mut out: Vec<String> = Vec::new();
    let mut k = sorted.len();
    assert(srt.take(k as int) =~= srt);
    assert(views_of(out@) + vdir_cands(srt, views_of(segs@), opt_text(stem)) =~= vdir_cands(
        srt,
        views_of(segs@),
        opt_text(stem),
    ));
    while k > 0
        invariant
            0 <= k <= sorted.len(),
            vdirs_view(sorted@) == srt,
            opt_text(stem) == path_file_name_text(pkg_dir@),
            views_of(out@) + vdir_cands(srt.take(k as int), views_of(segs@), opt_text(stem))
                == vdir_cands(srt, views_of(segs@), opt_text(stem)),
        decreases k,
    {
        let d = &sorted[k - 1];
        let ghost dv = vdir_view(*d);
        assert(srt.take(k as int).last() == dv);
        assert(srt.take(k as int).drop_last() =~= srt.take(k - 1));
        let ghost before = views_of(out@);
        let lib = match &d.lib_entry {
            Some(e) => Some(e.as_str()),
            None => None,
        };
        let cs = module_file_candidates(d.path.as_str(), segs, lib);
        let mut j: usize = 0;
        while j < cs.len()
            invariant
                0 <= j <= cs.len(),
                views_of(out@) == before + views_of(cs@).take(j as int),
            decreases cs.len() - j,
        {
            push_text(&mut out, cs[j].clone());
            j += 1;
            assert(views_of(out@) =~= before + views_of(cs@).take(j as int));
        }
        assert(views_of(cs@).take(cs.len() as int) =~= views_of(cs@));
        if segs.len() == 0 {
            match &stem {
                Some(st) => push_stem_files(&mut out, d.path.as_str(), st.as_str()),
                None => {},
            }
        }
        k -= 1;
        proof {
            let tail = if segs@.len() == 0 && opt_text(stem) is Some {
                stem_files(dv.1.0, opt_text(stem)->0)
            } else {
                Seq::empty()
            };
            assert(views_of(out@) =~= before + module_file_cands(dv.1.0, views_of(segs@), dv.1.1)
                + tail);
            assert(vdir_cands(srt.take(k + 1), views_of(segs@), opt_text(stem)) == module_file_cands(
                dv.1.0,
                views_of(segs@),
                dv.1.1,
            ) + tail + vdir_cands(srt.take(k as int), views_of(segs@), opt_text(stem)));
            assert(views_of(out@) + vdir_cands(srt.take(k as int), views_of(segs@), opt_text(stem))
                =~= before + vdir_cands(srt.take(k + 1), views_of(segs@), opt_text(stem)));
        }
    }
    assert(srt.take(0) =~= Seq::<(Seq<char>, (Seq<char>, Option<Seq<char>>))>::empty());
    assert(views_of(out@) =~= vdir_cands(srt, views_of(segs@), opt_text(stem)));
    let own = module_file_candidates(pkg_dir, segs, own_lib_entry);
    let ghost before = views_of(out@);
    let mut j: usize = 0;
    while j < own.len()
        invariant
            0 <= j <= own.len(),
            views_of(out@) == before + views_of(own@).take(j as int),
        decreases own.len() - j,
    {
        push_text(&mut out, own[j].clone());
        j += 1;
        assert(views_of(out@) =~= before + views_of(own@).take(j as int));
    }
    assert(views_of(own@).take(own.len() as int) =~= views_of(own@));
    out
}

/// `dir` joined with each of `subs`, in order.
pub open spec fn joined_all(dir: Seq<char>, subs: Seq<Seq<char>>) -> Seq<Seq<char>> {
    subs.map_values(|s: Seq<char>| path_join_text(dir, s))
}

/// Where the standard library is looked for, in order: the `HUZI_LIB`
/// directory; `../huzi-src`, `../../huzi-src`, `../../../huzi-src`,
/// `../lib/huzi-src` and `huzi-src` beside the executable; `huzi-src`,
/// `../huzi-src`, `../../huzi-src` and `../../../huzi-src` beside the
/// importing file's directory, then beside the working directory; and
/// `.huzi/huzi-src`, `.huzi/std` in the home directory.
pub open spec fn std_dirs(
    lib: Option<Seq<char>>,
    exe_dir: Option<Seq<char>>,
    base_dir: Seq<char>,
    home: Option<Seq<char>>,
) -> Seq<Seq<char>> {
    let local = seq!["huzi-src"@, "../huzi-src"@, "../../huzi-src"@, "../../../huzi-src"@];
    (match lib {
        Some(l) => seq![l],
        None => Seq::empty(),
    }) + (match exe_dir {
        Some(x) => joined_all(
            x,
            seq!["../huzi-src"@, "../../huzi-src"@, "../../../huzi-src"@, "../lib/huzi-src"@, "huzi-src"@],
        ),
        None => Seq::empty(),
    }) + joined_all(base_dir, local) + joined_all("."@, local) + (match home {
        Some(h) => joined_all(path_join_text(h, ".huzi"@), seq!["huzi-src"@, "std"@]),
        None => Seq::empty(),
    })
}

/// Pushes `dir` joined with each of `subs`.
fn push_joined(out: &mut Vec<String>, dir: &str, subs: &[&str])
    ensures
        views_of(final(out)@) == views_of(old(out)@) + joined_all(
            dir@,
            subs@.map_values(|s: &str| s@),
        ),
{
    let ghost base = views_of(out@);
    let ghost want = joined_all(dir@, subs@.map_values(|s: &str| s@));
    let mut i: usize = 0;
    while i < subs.len()
        invariant
            0 <= i <= subs.len(),
            want == joined_all(dir@, subs@.map_values(|s: &str| s@)),
            views_of(out@) == base + want.take(i as int),
        decreases subs.len() - i,
    {
        let ghost before = views_of(out@);
        push_text(out, path_join(dir, subs[i]));
        assert(views_of(out@) =~= before.push(want[i as int]));
        assert(want.take(i + 1) =~= want.take(i as int).push(want[i as int]));
        i += 1;
    }
    assert(want.take(subs.len() as int) =~= want);
}

/// The directories the standard library is looked for in, in the order
/// they are tried (see `std_dirs`); the caller finds out the `HUZI_LIB`
/// setting, the executable's directory and the home directory.
pub fn std_search_dirs(lib: Option<&str>, exe_dir: Option<&str>, base_dir: &str, home: Option<&str>) -> (r: Vec<String>)
    ensures
        views_of(r@) == std_dirs(
            match lib {
                Some(l) => Some(l@),
                None => None,
            },
            match exe_dir {
                Some(x) => Some(x@),
                None => None,
            },
            base_dir@,
            match home {
                Some(h) => Some(h@),
                None => None,
            },
        ),
{
    let mut out: Vec<String> = Vec::new();
    let ghost l0 = match lib {
        Some(l) => seq![l@],
        None => Seq::<Seq<char>>::empty(),
    };
    match lib {
        Some(l) => {
            push_text(&mut out, string_of(chars_of(l).as_slice()));
        },
        None => {},
    }
    assert(views_of(out@) =~= l0);
    let exe_subs: [&str; 5] = ["../huzi-src", "../../huzi-src", "../../../huzi-src", "../lib/huzi-src", "huzi-src"];
    let local: [&str; 4] = ["huzi-src", "../huzi-src", "../../huzi-src", "../../../huzi-src"];
    let home_subs: [&str; 2] = ["huzi-src", "std"];
    proof {
        reveal_strlit("../huzi-src");
        reveal_strlit("../../huzi-src");
        reveal_strlit("../../../huzi-src");
        reveal_strlit("../lib/huzi-src");
        reveal_strlit("huzi-src");
        reveal_strlit("std");
        reveal_strlit(".");
        reveal_strlit(".huzi");
    }
    let ghost after_lib = views_of(out@);
    match exe_dir {
        Some(x) => {
            push_joined(&mut out, x, exe_subs.as_slice());
            assert(exe_subs@.map_values(|s: &str| s@) =~= seq!["../huzi-src"@, "../../huzi-src"@, "../../../huzi-src"@, "../lib/huzi-src"@, "huzi-src"@]);
        },
        None => {},
    }
    let ghost after_exe = views_of(out@);
    push_joined(&mut out, base_dir, local.as_slice());
    push_joined(&mut out, ".", local.as_slice());
    assert(local@.map_values(|s: &str| s@) =~= seq!["huzi-src"@, "../huzi-src"@, "../../huzi-src"@, "../../../huzi-src"@]);
    match home {
        Some(h) => {
            let root = path_join(h, ".huzi");
            push_joined(&mut out, root.as_str(), home_subs.as_slice());
            assert(home_subs@.map_values(|s: &str| s@) =~= seq!["huzi-src"@, "std"@]);
        },
        None => {},
    }
    assert(views_of(out@) =~= std_dirs(
        match lib {
            Some(l) => Some(l@),
            None => None,
        },
        match exe_dir {
            Some(x) => Some(x@),
            None => None,
        },
        base_dir@,
        match home {
            Some(h) => Some(h@),
            None => None,
        },
    ));
    out
}

/// The entry files `huzc build` tries when the manifest names none, in
/// order: `src/main.hz`, `main.hz`, then the file named after the package.
pub open spec fn build_entry_cands(proj_dir: Seq<char>, name: Seq<char>) -> Seq<Seq<char>> {
    seq![
        path_join_text(proj_dir, "src/main.hz"@),
        path_join_text(proj_dir, "main.hz"@),
        path_join_text(proj_dir, name + ".hz"@),
    ]
}

pub fn build_entry_candidates(proj_dir: &str, name: &str) -> (r: Vec<String>)
    ensures
        views_of(r@) == build_entry_cands(proj_dir@, name@),
{
    let mut out: Vec<String> = Vec::new();
    push_text(&mut out, path_join(proj_dir, "src/main.hz"));
    push_text(&mut out, path_join(proj_dir, "main.hz"));
    let mut f: Vec<char> = Vec::new();
    push_str(&mut f, name);
    push_str(&mut f, ".hz");
    push_text(&mut out, path_join(proj_dir, string_of(f.as_slice()).as_str()));
    assert(views_of(out@) =~= build_entry_cands(proj_dir@, name@));
    out
}

/// Where a selected dependency is kept in the project:
/// `vendor/<pkg>/<version>` under the project directory.
pub open spec fn vendor_dir_text(proj_dir: Seq<char>, pkg: Seq<char>, version: Seq<char>) -> Seq<char> {
    path_join_text(path_join_text(path_join_text(proj_dir, "vendor"@), pkg), version)
}

pub fn vendor_dir(proj_dir: &str, pkg: &str, version: &str) -> (r: String)
    ensures
        r@ == vendor_dir_text(proj_dir@, pkg@, version@),
{
    let v = path_join(proj_dir, "vendor");
    let p = path_join(v.as_str(), pkg);
    path_join(p.as_str(), version)
}

/// The report when a selected dependency has not been fetched.
pub open spec fn missing_vendor_text(pkg: Seq<char>, version: Seq<char>, path_arg: Seq<char>) -> Seq<char> {
    "缺少已选依赖 vendor/"@ + pkg + "/"@ + version + ":请先运行 `huzc fetch --path "@ + path_arg + "`"@
}

pub fn missing_vendor_message(pkg: &str, version: &str, path_arg: &str) -> (r: String)
    ensures
        r@ == missing_vendor_text(pkg@, version@, path_arg@),
{
    let mut v: Vec<char> = Vec::new();
    push_str(&mut v, "缺少已选依赖 vendor/");
    push_str(&mut v, pkg);
    push_str(&mut v, "/");
    push_str(&mut v, version);
    push_str(&mut v, ":请先运行 `huzc fetch --path ");
    push_str(&mut v, path_arg);
    push_str(&mut v, "`");
    string_of(v.as_slice())
}

} // verus!
