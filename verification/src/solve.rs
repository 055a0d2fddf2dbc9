//! Transitive dependency closure: every version constraint of the root
//! manifest and of the dependencies it pulls in, resolved per package to the
//! highest version that satisfies all of them.
//!
//! The solver is a state machine. Its caller pops a queued requirement and
//! records it with `apply_requirement`, lists the candidate versions of
//! that package from the sources `sources_of` names, and hands them to
//! `reselect`; when a newly selected version has not been expanded yet, the
//! caller reads that version's manifest and hands it to
//! `expand_transitive`. A package and version are expanded once, so cyclic
//! dependencies end.
use crate::keyed::sort_by_name;
use crate::manifest::{deps_view, parse_manifest, parse_manifest_spec, DepView, Manifest};
use crate::modules::views_of;
use crate::paths::{path_join, path_join_text};
use crate::text::{chars_eq, chars_of, debug_chars, debug_text, push_all, push_str, string_of};
use crate::version::{
    parse_req_spec, parse_semver, parse_version_req, req_defined, req_holds, sv_le, sv_lt, sv_text,
    ReqParse, SemVersion, VersionReq,
};
use vstd::prelude::*;

verus! {

/// The package version a closure selected, and the directory of its sources.
#[derive(Debug, Clone, PartialEq)]
pub struct SelectedDep {
    pub version: SemVersion,
    pub source_dir: String,
}

/// One requirement to apply: the package, its requirement text, the
/// directory of the manifest that declared it, and its `path` if any.
#[derive(Debug, Clone)]
pub struct QueueItem {
    pub name: String,
    pub raw: String,
    pub declarer_dir: String,
    pub path: Option<String>,
}

/// The solver's state.
pub struct ClosureSolver {
    pub root_dir: String,
    /// Requirement texts per package, each once, in the order first seen.
    pub constraints: Vec<(String, Vec<String>)>,
    /// Source directories per package from `path` dependencies.
    pub path_sources: Vec<(String, Vec<String>)>,
    /// Packages required without a `path`: looked up in the registry.
    pub needs_registry: Vec<String>,
    /// The selection so far.
    pub selected: Vec<(String, SelectedDep)>,
    /// Package versions whose own dependencies were queued.
    pub expanded: Vec<(String, SemVersion)>,
    /// Requirements not yet applied; the last one is applied next.
    pub queue: Vec<QueueItem>,
    /// The candidate versions the last selection of each package weighed.
    pub seen: Ghost<Map<Seq<char>, Seq<SemVersion>>>,
}

/// The version selected for `n`, if any.
pub open spec fn selected_version(s: Seq<(String, SelectedDep)>, n: Seq<char>) -> Option<SemVersion> {
    if 0 <= pos_of(s, n) < s.len() {
        Some(s[pos_of(s, n)].1.version)
    } else {
        None
    }
}

/// A requirement text the solver can use: it parses without overflowing
/// and, parsed, can be evaluated.
pub open spec fn raw_usable(raw: Seq<char>) -> bool {
    !(parse_req_spec(raw) is Overflows) && match parse_req_spec(raw) {
        ReqParse::Parsed(m) => req_defined(m),
        _ => true,
    }
}

/// Index of the entry named `name`, or `m.len()`.
pub open spec fn pos_of<V>(m: Seq<(String, V)>, name: Seq<char>) -> int
    decreases m.len(),
{
    if m.len() == 0 {
        0
    } else if m[0].0@ == name {
        0
    } else {
        1 + pos_of(m.drop_first(), name)
    }
}

/// The value listed under `name`, as texts (empty when absent).
pub open spec fn list_of(m: Seq<(String, Vec<String>)>, name: Seq<char>) -> Seq<Seq<char>> {
    let p = pos_of(m, name);
    if 0 <= p < m.len() {
        views_of(m[p].1@)
    } else {
        Seq::empty()
    }
}

/// Every requirement text parses and holds for `v`.
pub open spec fn all_reqs_hold(raws: Seq<Seq<char>>, v: SemVersion) -> bool {
    forall|i: int|
        0 <= i < raws.len() ==> (parse_req_spec(#[trigger] raws[i]) matches ReqParse::Parsed(m)
            && req_holds(m, v))
}

/// The error for a requirement text that does not parse.
pub open spec fn bad_req_text(name: Seq<char>, raw: Seq<char>) -> Seq<char> {
    "依赖 '"@ + name + "' 的版本需求 "@ + debug_text(raw) + " 非法"@
}

/// Parses every requirement text of a package.
pub fn parse_all_reqs(name: &str, raws: &Vec<String>) -> (r: Result<Vec<VersionReq>, String>)
    requires
        forall|i: int| 0 <= i < raws@.len() ==> raw_usable(#[trigger] raws@[i]@),
    ensures
        match r {
            Ok(reqs) => reqs@.len() == raws@.len() && forall|i: int|
                0 <= i < raws@.len() ==> parse_req_spec(#[trigger] raws@[i]@) == ReqParse::Parsed(
                    reqs@[i]@,
                ) && req_defined(reqs@[i]@),
            Err(e) => exists|i: int|
                0 <= i < raws@.len() && parse_req_spec(#[trigger] raws@[i]@) is Rejected && e@.len()
                    >= bad_req_text(name@, raws@[i]@).len() && e@.subrange(
                    0,
                    bad_req_text(name@, raws@[i]@).len() as int,
                ) == bad_req_text(name@, raws@[i]@),
        },
{
    let mut reqs: Vec<VersionReq> = Vec::new();
    let mut i: usize = 0;
    while i < raws.len()
        invariant
            0 <= i <= raws.len(),
            reqs@.len() == i,
            forall|j: int| 0 <= j < raws@.len() ==> raw_usable(#[trigger] raws@[j]@),
            forall|j: int|
                0 <= j < i ==> parse_req_spec(#[trigger] raws@[j]@) == ReqParse::Parsed(reqs@[j]@)
                    && req_defined(reqs@[j]@),
        decreases raws.len() - i,
    {
        assert(raw_usable(raws@[i as int]@));
        match parse_version_req(raws[i].as_str()) {
            Ok(q) => {
                reqs.push(q);
            },
            Err(e) => {
                let m = bad_req_message(name, raws[i].as_str(), e.as_str());
                return Err(m);
            },
        }
        i += 1;
    }
    Ok(reqs)
}

/// `依赖 '<name>' 的版本需求 <raw:?> 非法: <why>`.
fn bad_req_message(name: &str, raw: &str, why: &str) -> (r: String)
    ensures
        r@ == bad_req_text(name@, raw@) + ": "@ + why@,
{
    let mut m: Vec<char> = Vec::new();
    push_str(&mut m, "依赖 '");
    push_str(&mut m, name);
    push_str(&mut m, "' 的版本需求 ");
    let d = debug_chars(chars_of(raw).as_slice());
    push_all(&mut m, d.as_slice());
    push_str(&mut m, " 非法");
    push_str(&mut m, ": ");
    push_str(&mut m, why);
    assert(m@ =~= bad_req_text(name@, raw@) + ": "@ + why@);
    string_of(m.as_slice())
}

/// Whether every requirement holds for `v`.
fn satisfies_all(reqs: &Vec<VersionReq>, v: &SemVersion) -> (r: bool)
    requires
        forall|i: int| 0 <= i < reqs@.len() ==> req_defined(#[trigger] reqs@[i]@),
    ensures
        r == forall|i: int| 0 <= i < reqs@.len() ==> req_holds(#[trigger] reqs@[i]@, *v),
{
    let mut i: usize = 0;
    while i < reqs.len()
        invariant
            0 <= i <= reqs.len(),
            forall|j: int| 0 <= j < reqs@.len() ==> req_defined(#[trigger] reqs@[j]@),
            forall|j: int| 0 <= j < i ==> req_holds(#[trigger] reqs@[j]@, *v),
        decreases reqs.len() - i,
    {
        if !reqs[i].matches(v) {
            return false;
        }
        i += 1;
    }
    true
}

pub open spec fn cand_ok(reqs: Seq<VersionReq>, v: SemVersion) -> bool {
    forall|i: int| 0 <= i < reqs.len() ==> req_holds(#[trigger] reqs[i]@, v)
}

/// The candidate with the highest version among those every requirement
/// accepts; `None` when no candidate is accepted.
pub fn pick_best(reqs: &Vec<VersionReq>, cands: &Vec<(SemVersion, String)>) -> (r: Option<(SemVersion, String)>)
    requires
        forall|i: int| 0 <= i < reqs@.len() ==> req_defined(#[trigger] reqs@[i]@),
    ensures
        match r {
            None => forall|j: int| 0 <= j < cands@.len() ==> !cand_ok(reqs@, #[trigger] cands@[j].0),
            Some(b) => exists|j: int|
                0 <= j < cands@.len() && cands@[j].0 == b.0 && cands@[j].1@ == b.1@ && cand_ok(
                    reqs@,
                    b.0,
                ) && forall|k: int|
                    0 <= k < cands@.len() && cand_ok(reqs@, #[trigger] cands@[k].0) ==> sv_le(
                        cands@[k].0,
                        b.0,
                    ),
        },
{
    let mut best: Option<usize> = None;
    let mut i: usize = 0;
    while i < cands.len()
        invariant
            0 <= i <= cands.len(),
            forall|j: int| 0 <= j < reqs@.len() ==> req_defined(#[trigger] reqs@[j]@),
            match best {
                None => forall|j: int| 0 <= j < i ==> !cand_ok(reqs@, #[trigger] cands@[j].0),
                Some(b) => b < i && cand_ok(reqs@, cands@[b as int].0) && forall|k: int|
                    0 <= k < i && cand_ok(reqs@, #[trigger] cands@[k].0) ==> sv_le(
                        cands@[k].0,
                        cands@[b as int].0,
                    ),
            },
        decreases cands.len() - i,
    {
        let v = cands[i].0;
        if satisfies_all(reqs, &v) {
            match best {
                None => {
                    best = Some(i);
                },
                Some(b) => {
                    if !v.precedes(&cands[b].0) {
                        best = Some(i);
                    }
                },
            }
        }
        i += 1;
    }
    match best {
        None => None,
        Some(b) => Some((cands[b].0, cands[b].1.clone())),
    }
}

/// Versions in ascending order, each once.
pub open spec fn ascending(vs: Seq<SemVersion>) -> bool {
    forall|i: int, j: int| 0 <= i < j < vs.len() ==> sv_lt(vs[i], vs[j])
}

/// Inserts `v` into an ascending list unless it is already there.
fn insert_version(vs: &mut Vec<SemVersion>, v: SemVersion)
    requires
        ascending(old(vs)@),
    ensures
        ascending(final(vs)@),
        forall|x: SemVersion| final(vs)@.contains(x) <==> (old(vs)@.contains(x) || x == v),
{
    let mut i: usize = 0;
    while i < vs.len() && vs[i].precedes(&v)
        invariant
            0 <= i <= vs.len(),
            vs@ == old(vs)@,
            ascending(vs@),
            forall|j: int| 0 <= j < i ==> sv_lt(#[trigger] vs@[j], v),
        decreases vs.len() - i,
    {
        i += 1;
    }
    if i < vs.len() && vs[i] == v {
        return;
    }
    vs.insert(i, v);
    assert forall|a: int, b: int| 0 <= a < b < vs@.len() implies sv_lt(vs@[a], vs@[b]) by {
        if b < i {
            assert(vs@[a] == old(vs)@[a] && vs@[b] == old(vs)@[b]);
        } else if b == i {
            assert(vs@[a] == old(vs)@[a]);
        } else if a < i {
            assert(vs@[a] == old(vs)@[a] && vs@[b] == old(vs)@[b - 1]);
            assert(sv_lt(old(vs)@[a], v));
            assert(!sv_lt(old(vs)@[i as int], v) && old(vs)@[i as int] != v);
            if b - 1 > i {
                assert(sv_lt(old(vs)@[i as int], old(vs)@[b - 1]));
            }
        } else if a == i {
            assert(vs@[b] == old(vs)@[b - 1]);
            assert(!sv_lt(old(vs)@[i as int], v) && old(vs)@[i as int] != v);
            if b - 1 > i {
                assert(sv_lt(old(vs)@[i as int], old(vs)@[b - 1]));
            }
        } else {
            assert(vs@[a] == old(vs)@[a - 1] && vs@[b] == old(vs)@[b - 1]);
        }
    }
    assert forall|x: SemVersion| vs@.contains(x) <==> (old(vs)@.contains(x) || x == v) by {
        if vs@.contains(x) {
            let k = choose|k: int| 0 <= k < vs@.len() && vs@[k] == x;
            if k < i {
                assert(old(vs)@[k] == x);
            } else if k > i {
                assert(old(vs)@[k - 1] == x);
            }
        }
        if old(vs)@.contains(x) {
            let k = choose|k: int| 0 <= k < old(vs)@.len() && old(vs)@[k] == x;
            if k < i {
                assert(vs@[k] == x);
            } else {
                assert(vs@[k + 1] == x);
            }
        }
        if x == v {
            assert(vs@[i as int] == v);
        }
    }
}

/// `a, b, c` of the version texts.
pub open spec fn versions_text(vs: Seq<SemVersion>) -> Seq<char>
    decreases vs.len(),
{
    if vs.len() == 0 {
        Seq::empty()
    } else if vs.len() == 1 {
        sv_text(vs[0])
    } else {
        versions_text(vs.drop_last()) + ", "@ + sv_text(vs.last())
    }
}

/// `a, b, c` of the texts.
pub open spec fn texts_joined(ts: Seq<Seq<char>>) -> Seq<char> {
    crate::ast::join_comma(ts)
}

/// The conflict report: the package, all its requirement texts and the
/// known versions in ascending order (`无` when there are none).
pub open spec fn conflict_text(name: Seq<char>, raws: Seq<Seq<char>>, known: Seq<SemVersion>) -> Seq<char> {
    "依赖冲突: 包 '"@ + name + "' 的版本约束 ["@ + texts_joined(raws) + "] 无共同满足版本(已知可用版本: "@
        + (if known.len() == 0 {
        "无"@
    } else {
        versions_text(known)
    }) + ");请统一各 huzi.toml 中的版本需求后重试"@
}

/// `e` is the conflict report for `name` under `raws`, listing the versions
/// of `cands` in ascending order.
pub open spec fn is_conflict_report(
    e: Seq<char>,
    name: Seq<char>,
    raws: Seq<Seq<char>>,
    cands: Seq<(SemVersion, String)>,
) -> bool {
    exists|vs: Seq<SemVersion>|
        ascending(vs) && (forall|x: SemVersion|
            vs.contains(x) <==> exists|j: int| 0 <= j < cands.len() && cands[j].0 == x)
            && e == conflict_text(name, raws, vs)
}

/// The conflict report for a package whose requirements no candidate meets.
pub fn conflict_message(name: &str, raws: &Vec<String>, known: &Vec<(SemVersion, String)>) -> (r: String)
    ensures
        exists|vs: Seq<SemVersion>|
            ascending(vs) && (forall|x: SemVersion|
                vs.contains(x) <==> exists|j: int| 0 <= j < known@.len() && known@[j].0 == x)
                && r@ == conflict_text(name@, views_of(raws@), vs),
{
    let mut vs: Vec<SemVersion> = Vec::new();
    let mut i: usize = 0;
    while i < known.len()
        invariant
            0 <= i <= known.len(),
            ascending(vs@),
            forall|x: SemVersion|
                vs@.contains(x) <==> exists|j: int| 0 <= j < i && known@[j].0 == x,
        decreases known.len() - i,
    {
        insert_version(&mut vs, known[i].0);
        proof {
            assert forall|x: SemVersion|
                vs@.contains(x) <==> exists|j: int| 0 <= j < i + 1 && known@[j].0 == x by {
                if x == known@[i as int].0 {
                    assert(0 <= i < i + 1 && known@[i as int].0 == x);
                }
            }
        }
        i += 1;
    }
    let mut m: Vec<char> = Vec::new();
    push_str(&mut m, "依赖冲突: 包 '");
    push_str(&mut m, name);
    push_str(&mut m, "' 的版本约束 [");
    let ghost rv = views_of(raws@);
    let ghost b0 = m@;
    let mut k: usize = 0;
    assert(rv.take(0) =~= Seq::<Seq<char>>::empty());
    while k < raws.len()
        invariant
            0 <= k <= raws.len(),
            rv == views_of(raws@),
            m@ == b0 + texts_joined(rv.take(k as int)),
        decreases raws.len() - k,
    {
        assert(rv.take(k + 1).drop_last() =~= rv.take(k as int));
        assert(rv.take(k + 1).last() == raws@[k as int]@);
        if k > 0 {
            push_str(&mut m, ", ");
        }
        push_str(&mut m, raws[k].as_str());
        proof {
            if k == 0 {
                assert(rv.take(1) =~= seq![rv[0]]);
            }
        }
        assert(m@ =~= b0 + texts_joined(rv.take(k + 1)));
        k += 1;
    }
    assert(rv.take(raws.len() as int) =~= rv);
    push_str(&mut m, "] 无共同满足版本(已知可用版本: ");
    let ghost b1 = m@;
    if vs.len() == 0 {
        push_str(&mut m, "无");
    } else {
        let mut j: usize = 0;
        assert(vs@.take(0) =~= Seq::<SemVersion>::empty());
        while j < vs.len()
            invariant
                0 <= j <= vs.len(),
                m@ == b1 + versions_text(vs@.take(j as int)),
            decreases vs.len() - j,
        {
            assert(vs@.take(j + 1).drop_last() =~= vs@.take(j as int));
            assert(vs@.take(j + 1).last() == vs@[j as int]);
            if j > 0 {
                push_str(&mut m, ", ");
            }
            vs[j].push_text(&mut m);
            proof {
                if j == 0 {
                    assert(vs@.take(1) =~= seq![vs@[0]]);
                }
            }
            assert(m@ =~= b1 + versions_text(vs@.take(j + 1)));
            j += 1;
        }
        assert(vs@.take(vs.len() as int) =~= vs@);
    }
    push_str(&mut m, ");请统一各 huzi.toml 中的版本需求后重试");
    assert(m@ =~= conflict_text(name@, views_of(raws@), vs@));
    string_of(m.as_slice())
}


/// Index of the entry named `name` (`m.len()` when absent).
fn find_pos<V>(m: &Vec<(String, V)>, name: &[char]) -> (r: usize)
    ensures
        r as int == pos_of(m@, name@),
        r <= m.len(),
        r < m.len() ==> m@[r as int].0@ == name@,
        forall|j: int| 0 <= j < r ==> m@[j].0@ != name@,
{
    let mut i: usize = 0;
    assert(m@.skip(0) =~= m@);
    while i < m.len()
        invariant
            0 <= i <= m.len(),
            pos_of(m@, name@) == i + pos_of(m@.skip(i as int), name@),
            forall|j: int| 0 <= j < i ==> m@[j].0@ != name@,
        decreases m.len() - i,
    {
        assert(m@.skip(i as int).drop_first() =~= m@.skip(i + 1));
        let k = chars_of(m[i].0.as_str());
        if chars_eq(k.as_slice(), name) {
            return i;
        }
        i += 1;
    }
    i
}

fn contains_string(v: &Vec<String>, s: &String) -> (r: bool)
    ensures
        r == views_of(v@).contains(s@),
{
    let mut i: usize = 0;
    let t = chars_of(s.as_str());
    while i < v.len()
        invariant
            0 <= i <= v.len(),
            t@ == s@,
            forall|j: int| 0 <= j < i ==> v@[j]@ != s@,
        decreases v.len() - i,
    {
        let a = chars_of(v[i].as_str());
        if chars_eq(a.as_slice(), t.as_slice()) {
            assert(views_of(v@)[i as int] == s@);
            return true;
        }
        i += 1;
    }
    proof {
        if views_of(v@).contains(s@) {
            let j = choose|j: int| 0 <= j < views_of(v@).len() && views_of(v@)[j] == s@;
            assert(v@[j]@ == s@);
        }
    }
    false
}

/// A copy of a list of strings.
fn copy_strings(v: &Vec<String>) -> (r: Vec<String>)
    ensures
        views_of(r@) == views_of(v@),
{
    let mut out: Vec<String> = Vec::new();
    let mut i: usize = 0;
    while i < v.len()
        invariant
            0 <= i <= v.len(),
            views_of(out@) == views_of(v@.take(i as int)),
        decreases v.len() - i,
    {
        let c = v[i].clone();
        let ghost before = out@;
        out.push(c);
        assert(views_of(out@) =~= views_of(before).push(v@[i as int]@));
        assert(views_of(v@.take(i + 1)) =~= views_of(v@.take(i as int)).push(v@[i as int]@));
        i += 1;
    }
    assert(v@.take(v.len() as int) =~= v@);
    out
}

/// The queued form of a dependency declared in the manifest in `dir`.
pub open spec fn dep_item(d: (Seq<char>, DepView), dir: Seq<char>) -> (Seq<char>, Seq<char>, Seq<char>, Option<Seq<char>>) {
    (d.0, d.1.0, dir, d.1.1)
}

pub open spec fn item_view(i: QueueItem) -> (Seq<char>, Seq<char>, Seq<char>, Option<Seq<char>>) {
    (i.name@, i.raw@, i.declarer_dir@, match i.path {
        Some(p) => Some(p@),
        None => None,
    })
}

pub open spec fn queue_view(q: Seq<QueueItem>) -> Seq<(Seq<char>, Seq<char>, Seq<char>, Option<Seq<char>>)> {
    q.map_values(|i: QueueItem| item_view(i))
}

/// Every requirement text declared in the manifest can be used.
pub open spec fn manifest_usable(m: Manifest) -> bool {
    forall|i: int| 0 <= i < m.dependencies@.len() ==> raw_usable(#[trigger] m.dependencies@[i].1.version@)
}

/// Whether every requirement a manifest declares can be used by the
/// solver (see `req_usable`).
pub fn manifest_is_usable(m: &Manifest) -> (r: bool)
    ensures
        r == manifest_usable(*m),
{
    let mut i: usize = 0;
    while i < m.dependencies.len()
        invariant
            0 <= i <= m.dependencies.len(),
            forall|j: int| 0 <= j < i ==> raw_usable(#[trigger] m.dependencies@[j].1.version@),
        decreases m.dependencies.len() - i,
    {
        if !crate::version::req_usable(m.dependencies[i].1.version.as_str()) {
            return false;
        }
        i += 1;
    }
    true
}

impl ClosureSolver {
    /// A solver for the project in `root_dir`, with nothing queued.
    pub fn new(root_dir: &str) -> (r: ClosureSolver)
        ensures
            r.root_dir@ == root_dir@,
            r.constraints@.len() == 0,
            r.path_sources@.len() == 0,
            r.needs_registry@.len() == 0,
            r.selected@.len() == 0,
            r.expanded@.len() == 0,
            r.queue@.len() == 0,
            r.settled_except(None),
    {
        ClosureSolver {
            root_dir: string_of(chars_of(root_dir).as_slice()),
            constraints: Vec::new(),
            path_sources: Vec::new(),
            needs_registry: Vec::new(),
            selected: Vec::new(),
            expanded: Vec::new(),
            queue: Vec::new(),
            seen: Ghost(Map::empty()),
        }
    }

    /// Queues the dependencies of a manifest found in `dir`, by name; a
    /// requirement that does not parse is an error.
    fn enqueue_deps(&mut self, m: &Manifest, dir: &String) -> (r: Result<(), String>)
        requires
            manifest_usable(*m),
        ensures
            r is Ok ==> queue_view(final(self).queue@) == queue_view(old(self).queue@) + sort_by_name(
                deps_view(m.dependencies@),
            ).map_values(|d: (Seq<char>, DepView)| dep_item(d, dir@)),
            r is Err <==> exists|i: int|
                0 <= i < m.dependencies@.len() && parse_req_spec(
                    #[trigger] m.dependencies@[i].1.version@,
                ) is Rejected,
            final(self).constraints@ == old(self).constraints@,
            final(self).selected@ == old(self).selected@,
            final(self).expanded@ == old(self).expanded@,
            final(self).root_dir@ == old(self).root_dir@,
            final(self).seen == old(self).seen,
    {
        let sorted = crate::manifest::sort_deps(m.dependencies.as_slice());
        let ghost sv = deps_view(sorted@);
        let ghost want = sv.map_values(|d: (Seq<char>, DepView)| dep_item(d, dir@));
        proof {
            crate::keyed::lemma_sort_keeps(deps_view(m.dependencies@));
            crate::keyed::lemma_sort_covers(deps_view(m.dependencies@));
        }
        let ghost base = queue_view(self.queue@);
        let mut i: usize = 0;
        assert(want.take(0) =~= Seq::<(Seq<char>, Seq<char>, Seq<char>, Option<Seq<char>>)>::empty());
        while i < sorted.len()
            invariant
                0 <= i <= sorted.len(),
                sv == deps_view(sorted@),
                sv == sort_by_name(deps_view(m.dependencies@)),
                want == sv.map_values(|d: (Seq<char>, DepView)| dep_item(d, dir@)),
                queue_view(self.queue@) == base + want.take(i as int),
                manifest_usable(*m),
                forall|x: (Seq<char>, DepView)| sv.contains(x) ==> deps_view(m.dependencies@).contains(x),
                forall|k: int| 0 <= k < deps_view(m.dependencies@).len() ==> sv.contains(#[trigger] deps_view(m.dependencies@)[k]),
                forall|j: int| 0 <= j < i ==> !(parse_req_spec(#[trigger] sv[j].1.0) is Rejected),
                self.constraints@ == old(self).constraints@,
                self.selected@ == old(self).selected@,
                self.expanded@ == old(self).expanded@,
                self.root_dir@ == old(self).root_dir@,
                self.seen == old(self).seen,
            decreases sorted.len() - i,
        {
            let (name, dep) = (&sorted[i].0, &sorted[i].1);
            proof {
                assert(sv.contains(sv[i as int]));
                let k = choose|k: int| 0 <= k < deps_view(m.dependencies@).len() && deps_view(m.dependencies@)[k] == sv[i as int];
                assert(m.dependencies@[k].1.version@ == dep.version@);
                assert(raw_usable(m.dependencies@[k].1.version@));
            }
            match parse_version_req(dep.version.as_str()) {
                Ok(_) => {},
                Err(e) => {
                    proof {
                        let k = choose|k: int| 0 <= k < deps_view(m.dependencies@).len() && deps_view(m.dependencies@)[k] == sv[i as int];
                        assert(m.dependencies@[k].1.version@ == dep.version@);
                    }
                    return Err(bad_req_message(name.as_str(), dep.version.as_str(), e.as_str()));
                },
            }
            let item = QueueItem {
                name: name.clone(),
                raw: dep.version.clone(),
                declarer_dir: dir.clone(),
                path: match &dep.path {
                    Some(p) => Some(p.clone()),
                    None => None,
                },
            };
            assert(item_view(item) == want[i as int]);
            let ghost before = self.queue@;
            self.queue.push(item);
            assert(queue_view(self.queue@) =~= queue_view(before).push(want[i as int]));
            assert(want.take(i + 1) =~= want.take(i as int).push(want[i as int]));
            assert(queue_view(self.queue@) =~= base + want.take(i + 1));
            i += 1;
        }
        assert(want.take(sorted.len() as int) =~= want);
        assert forall|k: int| 0 <= k < m.dependencies@.len() implies !(parse_req_spec(
            #[trigger] m.dependencies@[k].1.version@,
        ) is Rejected) by {
            let x = deps_view(m.dependencies@)[k];
            assert(sv.contains(x));
            let j = choose|j: int| 0 <= j < sv.len() && sv[j] == x;
            assert(sv[j].1.0 == m.dependencies@[k].1.version@);
        }
        Ok(())
    }

    /// Queues the root manifest's direct dependencies.
    pub fn seed_root(&mut self, root: &Manifest) -> (r: Result<(), String>)
        requires
            manifest_usable(*root),
        ensures
            r is Ok ==> queue_view(final(self).queue@) == queue_view(old(self).queue@) + sort_by_name(
                deps_view(root.dependencies@),
            ).map_values(|d: (Seq<char>, DepView)| dep_item(d, old(self).root_dir@)),
            r is Err <==> exists|i: int|
                0 <= i < root.dependencies@.len() && parse_req_spec(
                    #[trigger] root.dependencies@[i].1.version@,
                ) is Rejected,
            final(self).root_dir@ == old(self).root_dir@,
            final(self).constraints@ == old(self).constraints@,
            final(self).selected@ == old(self).selected@,
            final(self).seen == old(self).seen,
            old(self).settled_except(None) ==> final(self).settled_except(None),
    {
        let dir = self.root_dir.clone();
        let r = self.enqueue_deps(root, &dir);
        proof {
            if old(self).settled_except(None) {
                lemma_settled_kept(*old(self), *self, None);
            }
        }
        r
    }

    /// Queues the dependencies of the selected version whose sources are in
    /// `src`, read from its manifest; the caller reads the manifest only when
    /// `reselect` asked for it, and passes nothing when the source
    /// directory has no `huzi.toml`.
    pub fn expand_transitive(&mut self, src: &String, manifest: Option<&Manifest>) -> (r: Result<(), String>)
        requires
            manifest matches Some(m) ==> manifest_usable(*m),
        ensures
            manifest is None ==> r is Ok && final(self).queue@ == old(self).queue@,
            manifest matches Some(m) ==> (r is Ok ==> queue_view(final(self).queue@) == queue_view(
                old(self).queue@,
            ) + sort_by_name(deps_view(m.dependencies@)).map_values(
                |d: (Seq<char>, DepView)| dep_item(d, src@),
            )),
            manifest matches Some(m) ==> (r is Err <==> exists|i: int|
                0 <= i < m.dependencies@.len() && parse_req_spec(
                    #[trigger] m.dependencies@[i].1.version@,
                ) is Rejected),
            final(self).constraints@ == old(self).constraints@,
            final(self).selected@ == old(self).selected@,
            final(self).seen == old(self).seen,
            old(self).settled_except(None) ==> final(self).settled_except(None),
    {
        let r = match manifest {
            None => Ok(()),
            Some(m) => self.enqueue_deps(m, src),
        };
        proof {
            if old(self).settled_except(None) {
                lemma_settled_kept(*old(self), *self, None);
            }
        }
        r
    }

    /// The next requirement to apply (the last queued).
    pub fn pop_item(&mut self) -> (r: Option<QueueItem>)
        ensures
            match r {
                None => old(self).queue@.len() == 0 && final(self).queue@.len() == 0,
                Some(it) => old(self).queue@.len() > 0 && it == old(self).queue@.last()
                    && final(self).queue@ == old(self).queue@.drop_last(),
            },
            final(self).constraints@ == old(self).constraints@,
            final(self).selected@ == old(self).selected@,
            final(self).root_dir@ == old(self).root_dir@,
            final(self).seen == old(self).seen,
            old(self).settled_except(None) ==> final(self).settled_except(None),
            r is None && old(self).settled_except(None) ==> final(self).closure_settled(),
    {
        let r = self.queue.pop();
        proof {
            if old(self).settled_except(None) {
                lemma_settled_kept(*old(self), *self, None);
            }
        }
        r
    }
}


pub open spec fn exp_view(s: Seq<(String, SemVersion)>) -> Seq<(Seq<char>, SemVersion)> {
    s.map_values(|e: (String, SemVersion)| (e.0@, e.1))
}

pub open spec fn sel_view(s: Seq<(String, SelectedDep)>) -> Seq<(Seq<char>, (SemVersion, Seq<char>))> {
    s.map_values(|e: (String, SelectedDep)| (e.0@, (e.1.version, e.1.source_dir@)))
}

impl ClosureSolver {
    /// Every recorded requirement text can be used.
    pub open spec fn usable(&self) -> bool {
        constraints_usable(self.constraints@)
    }

    /// Package `n`, when selected, has a version that meets every
    /// requirement recorded for it and is the highest of the candidates its
    /// last selection weighed that do.
    pub open spec fn best_for(&self, n: Seq<char>) -> bool {
        match selected_version(self.selected@, n) {
            None => true,
            Some(v) => {
                &&& all_reqs_hold(list_of(self.constraints@, n), v)
                &&& self.seen@.contains_key(n)
                &&& self.seen@[n].contains(v)
                &&& forall|j: int|
                    0 <= j < self.seen@[n].len() && all_reqs_hold(list_of(self.constraints@, n), #[trigger] self.seen@[n][j])
                        ==> sv_le(self.seen@[n][j], v)
            },
        }
    }

    /// Every package but `skip` is selected at its best.
    pub open spec fn settled_except(&self, skip: Option<Seq<char>>) -> bool {
        forall|n: Seq<char>| skip != Some(n) ==> #[trigger] self.best_for(n)
    }

    /// The closure is finished: no requirement waits, and every selected
    /// package meets every requirement recorded for it, from the root
    /// manifest and the manifests of the selected versions alike, with the
    /// highest candidate its last selection weighed.
    pub open spec fn closure_settled(&self) -> bool {
        self.queue@.len() == 0 && self.settled_except(None)
    }

    /// Records a requirement: its text under the package (once), and where
    /// to look for versions: the declared `path` (relative to the declaring
    /// manifest) or the registry.
    pub fn apply_requirement(&mut self, item: &QueueItem)
        requires
            old(self).usable(),
            raw_usable(item.raw@),
        ensures
            final(self).usable(),
            list_of(final(self).constraints@, item.name@) == if list_of(
                old(self).constraints@,
                item.name@,
            ).contains(item.raw@) {
                list_of(old(self).constraints@, item.name@)
            } else {
                list_of(old(self).constraints@, item.name@).push(item.raw@)
            },
            final(self).selected@ == old(self).selected@,
            final(self).expanded@ == old(self).expanded@,
            final(self).queue@ == old(self).queue@,
            final(self).root_dir@ == old(self).root_dir@,
            final(self).seen == old(self).seen,
            old(self).settled_except(None) ==> final(self).settled_except(Some(item.name@)),
            forall|n: Seq<char>|
                n != item.name@ ==> #[trigger] list_of(final(self).constraints@, n) == list_of(
                    old(self).constraints@,
                    n,
                ),
            forall|n: Seq<char>|
                n != item.name@ && selection_meets(old(self).constraints@, old(self).selected@, n)
                    ==> #[trigger] selection_meets(final(self).constraints@, final(self).selected@, n),
            match item.path {
                Some(p) => list_of(final(self).path_sources@, item.name@).contains(
                    path_join_text(item.declarer_dir@, p@),
                ),
                None => views_of(final(self).needs_registry@).contains(item.name@),
            },
    {
        let nm = chars_of(item.name.as_str());
        let pos = find_pos(&self.constraints, nm.as_slice());
        if pos < self.constraints.len() {
            let ghost old_list = self.constraints@[pos as int].1@;
            let mut entry = (String::new(), Vec::new());
            std::mem::swap(&mut entry, &mut self.constraints[pos]);
            if !contains_string(&entry.1, &item.raw) {
                entry.1.push(item.raw.clone());
                assert(views_of(entry.1@) =~= views_of(old_list).push(item.raw@));
            }
            std::mem::swap(&mut entry, &mut self.constraints[pos]);
            proof {
                lemma_pos_same(old(self).constraints@, self.constraints@, item.name@, pos as int);
                assert forall|n: Seq<char>| n != item.name@ implies #[trigger] list_of(
                    self.constraints@,
                    n,
                ) == list_of(old(self).constraints@, n) by {
                    lemma_pos_keys_same(old(self).constraints@, self.constraints@, n);
                    lemma_pos_key(old(self).constraints@, n);
                }
            }
        } else {
            let mut v: Vec<String> = Vec::new();
            v.push(item.raw.clone());
            let ghost before = self.constraints@;
            let new_entry = (item.name.clone(), v);
            self.constraints.push(new_entry);
            proof {
                assert forall|n: Seq<char>| n != item.name@ implies #[trigger] list_of(
                    self.constraints@,
                    n,
                ) == list_of(old(self).constraints@, n) by {
                    lemma_pos_push_other(before, new_entry, n);
                }
                lemma_pos_pushed(old(self).constraints@, self.constraints@, item.name@);
                assert(views_of(v@) =~= seq![item.raw@]);
                assert(list_of(old(self).constraints@, item.name@) =~= Seq::<Seq<char>>::empty());
            }
        }
        match &item.path {
            Some(p) => {
                let dir = path_join(item.declarer_dir.as_str(), p.as_str());
                let sp = find_pos(&self.path_sources, nm.as_slice());
                if sp < self.path_sources.len() {
                    let ghost old_list = self.path_sources@[sp as int].1@;
                    let mut entry = (String::new(), Vec::new());
                    std::mem::swap(&mut entry, &mut self.path_sources[sp]);
                    if !contains_string(&entry.1, &dir) {
                        entry.1.push(dir);
                        assert(views_of(entry.1@).last() == path_join_text(item.declarer_dir@, p@));
                    }
                    std::mem::swap(&mut entry, &mut self.path_sources[sp]);
                    proof {
                        lemma_pos_same(old(self).path_sources@, self.path_sources@, item.name@, sp as int);
                    }
                } else {
                    let mut v: Vec<String> = Vec::new();
                    v.push(dir);
                    self.path_sources.push((item.name.clone(), v));
                    proof {
                        lemma_pos_pushed(old(self).path_sources@, self.path_sources@, item.name@);
                        assert(views_of(v@)[0] == path_join_text(item.declarer_dir@, p@));
                    }
                }
            },
            None => {
                if !contains_string(&self.needs_registry, &item.name) {
                    self.needs_registry.push(item.name.clone());
                    assert(views_of(self.needs_registry@).last() == item.name@);
                }
            },
        }
        proof {
            if old(self).settled_except(None) {
                lemma_settled_kept(*old(self), *self, Some(item.name@));
            }
        }
    }

    /// The requirement texts recorded for a package.
    pub fn requirements_of(&self, name: &String) -> (r: Vec<String>)
        ensures
            views_of(r@) == list_of(self.constraints@, name@),
    {
        let nm = chars_of(name.as_str());
        let pos = find_pos(&self.constraints, nm.as_slice());
        if pos < self.constraints.len() {
            copy_strings(&self.constraints[pos].1)
        } else {
            let v: Vec<String> = Vec::new();
            assert(views_of(v@) =~= Seq::<Seq<char>>::empty());
            v
        }
    }

    /// Where versions of a package are looked for: the `path` source
    /// directories, and whether the registry is consulted.
    pub fn sources_of(&self, name: &String) -> (r: (Vec<String>, bool))
        ensures
            views_of(r.0@) == list_of(self.path_sources@, name@),
            r.1 == views_of(self.needs_registry@).contains(name@),
    {
        let nm = chars_of(name.as_str());
        let pos = find_pos(&self.path_sources, nm.as_slice());
        let dirs = if pos < self.path_sources.len() {
            copy_strings(&self.path_sources[pos].1)
        } else {
            let v: Vec<String> = Vec::new();
            assert(views_of(v@) =~= Seq::<Seq<char>>::empty());
            v
        };
        (dirs, contains_string(&self.needs_registry, name))
    }

    /// Re-selects a package from its candidates (version, source directory)
    /// under all its requirements: the highest accepted version. A conflict
    /// when none is accepted. `Some` when the selection changed to a
    /// version not expanded before: the caller then reads that version's
    /// manifest for `expand_transitive`.
    pub fn reselect(&mut self, name: &String, cands: &Vec<(SemVersion, String)>) -> (r: Result<Option<(SemVersion, String)>, String>)
        requires
            old(self).usable(),
        ensures
            final(self).usable(),
            final(self).constraints@ == old(self).constraints@,
            final(self).queue@ == old(self).queue@,
            r is Err ==> (exists|i: int|
                0 <= i < list_of(old(self).constraints@, name@).len() && parse_req_spec(
                    #[trigger] list_of(old(self).constraints@, name@)[i],
                ) is Rejected) || forall|j: int|
                0 <= j < cands@.len() ==> !all_reqs_hold(list_of(old(self).constraints@, name@), #[trigger] cands@[j].0),
            r is Ok ==> {
                let p = pos_of(final(self).selected@, name@);
                &&& 0 <= p < final(self).selected@.len()
                &&& all_reqs_hold(list_of(old(self).constraints@, name@), final(self).selected@[p].1.version)
                &&& exists|j: int| 0 <= j < cands@.len() && #[trigger] cands@[j].0 == final(self).selected@[p].1.version
                &&& forall|j: int|
                    0 <= j < cands@.len() && all_reqs_hold(list_of(old(self).constraints@, name@), #[trigger] cands@[j].0)
                        ==> sv_le(cands@[j].0, final(self).selected@[p].1.version)
            },
            r matches Ok(Some(x)) ==> !exp_view(old(self).expanded@).contains((name@, x.0)) && exp_view(final(self).expanded@) == exp_view(old(self).expanded@).push((name@, x.0)),
            (forall|i: int|
                0 <= i < list_of(old(self).constraints@, name@).len() ==> !(parse_req_spec(
                    #[trigger] list_of(old(self).constraints@, name@)[i],
                ) is Rejected)) && (forall|j: int|
                0 <= j < cands@.len() ==> !all_reqs_hold(list_of(old(self).constraints@, name@), #[trigger] cands@[j].0))
                ==> (r matches Err(e) && is_conflict_report(e@, name@, list_of(old(self).constraints@, name@), cands@)),
            r is Ok ==> selection_meets(final(self).constraints@, final(self).selected@, name@),
            r is Ok ==> forall|n: Seq<char>|
                n != name@ ==> #[trigger] selected_version(final(self).selected@, n) == selected_version(
                    old(self).selected@,
                    n,
                ),
            r is Ok && old(self).settled_except(Some(name@)) ==> final(self).settled_except(None),
            r is Ok ==> forall|n: Seq<char>|
                n != name@ && selection_meets(old(self).constraints@, old(self).selected@, n)
                    ==> #[trigger] selection_meets(final(self).constraints@, final(self).selected@, n),
    {
        proof {
            self.seen@ = self.seen@.insert(name@, cands@.map_values(|c: (SemVersion, String)| c.0));
        }
        let raws = self.requirements_of(name);
        let ghost rv = list_of(self.constraints@, name@);
        proof {
            lemma_raws_usable(self.constraints@, name@, raws@);
        }
        let reqs = match parse_all_reqs(name.as_str(), &raws) {
            Ok(q) => q,
            Err(e) => {
                proof {
                    lemma_rejected_listed(raws@, rv, name@, e@);
                }
                return Err(e);
            },
        };
        proof {
            lemma_cand_iff(reqs@, raws@, rv);
            assert forall|i: int| 0 <= i < reqs@.len() implies req_defined(#[trigger] reqs@[i]@) by {
                assert(parse_req_spec(raws@[i]@) == ReqParse::Parsed(reqs@[i]@));
            }
        }
        match pick_best(&reqs, cands) {
            None => {
                let e = conflict_message(name.as_str(), &raws, cands);
                assert(is_conflict_report(e@, name@, rv, cands@));
                Err(e)
            },
            Some((ver, src)) => {
                let nm = chars_of(name.as_str());
                let sp = find_pos(&self.selected, nm.as_slice());
                let changed = sp >= self.selected.len() || self.selected[sp].1.version != ver;
                if changed {
                    let dep = SelectedDep { version: ver, source_dir: src.clone() };
                    if sp < self.selected.len() {
                        self.selected.set(sp, (name.clone(), dep));
                        proof {
                            lemma_pos_same(old(self).selected@, self.selected@, name@, sp as int);
                            assert forall|n: Seq<char>|
                                n != name@ && selection_meets(
                                    old(self).constraints@,
                                    old(self).selected@,
                                    n,
                                ) implies #[trigger] selection_meets(
                                self.constraints@,
                                self.selected@,
                                n,
                            ) by {
                                lemma_pos_keys_same(old(self).selected@, self.selected@, n);
                                lemma_pos_key(old(self).selected@, n);
                            }
                            assert forall|n: Seq<char>| n != name@ implies #[trigger] selected_version(
                                self.selected@,
                                n,
                            ) == selected_version(old(self).selected@, n) by {
                                lemma_pos_keys_same(old(self).selected@, self.selected@, n);
                                lemma_pos_key(old(self).selected@, n);
                            }
                        }
                    } else {
                        let ghost before = self.selected@;
                        let ne = (name.clone(), dep);
                        self.selected.push(ne);
                        proof {
                            lemma_pos_pushed(old(self).selected@, self.selected@, name@);
                            assert forall|n: Seq<char>|
                                n != name@ && selection_meets(
                                    old(self).constraints@,
                                    old(self).selected@,
                                    n,
                                ) implies #[trigger] selection_meets(
                                self.constraints@,
                                self.selected@,
                                n,
                            ) by {
                                lemma_pos_push_other(before, ne, n);
                                lemma_pos_key(before, n);
                            }
                            assert forall|n: Seq<char>| n != name@ implies #[trigger] selected_version(
                                self.selected@,
                                n,
                            ) == selected_version(old(self).selected@, n) by {
                                lemma_pos_push_other(before, ne, n);
                                lemma_pos_key(before, n);
                                assert(self.selected@ == before.push(ne));
                            }
                        }
                    }
                    if !self.is_expanded(name, ver) {
                        let ghost before = self.expanded@;
                        self.expanded.push((name.clone(), ver));
                        assert(exp_view(self.expanded@) =~= exp_view(before).push((name@, ver)));
                        proof {
                            lemma_settle(*old(self), *self, name@, cands@);
                        }
                        return Ok(Some((ver, src)));
                    }
                }
                proof {
                    lemma_settle(*old(self), *self, name@, cands@);
                }
                Ok(None)
            },
        }
    }

    fn is_expanded(&self, name: &String, ver: SemVersion) -> (r: bool)
        ensures
            r == exp_view(self.expanded@).contains((name@, ver)),
    {
        let mut i: usize = 0;
        let nm = chars_of(name.as_str());
        while i < self.expanded.len()
            invariant
                0 <= i <= self.expanded.len(),
                nm@ == name@,
                forall|j: int| 0 <= j < i ==> exp_view(self.expanded@)[j] != (name@, ver),
            decreases self.expanded.len() - i,
        {
            let k = chars_of(self.expanded[i].0.as_str());
            if chars_eq(k.as_slice(), nm.as_slice()) && self.expanded[i].1 == ver {
                assert(exp_view(self.expanded@)[i as int] == (name@, ver));
                return true;
            }
            i += 1;
        }
        proof {
            if exp_view(self.expanded@).contains((name@, ver)) {
                let j = choose|j: int| 0 <= j < exp_view(self.expanded@).len() && exp_view(self.expanded@)[j] == (name@, ver);
                assert(exp_view(self.expanded@)[j] != (name@, ver));
            }
        }
        false
    }
}

pub open spec fn constraints_usable(c: Seq<(String, Vec<String>)>) -> bool {
    forall|i: int, j: int|
        0 <= i < c.len() && 0 <= j < c[i].1@.len() ==> raw_usable(#[trigger] c[i].1@[j]@)
}

proof fn lemma_raws_usable(c: Seq<(String, Vec<String>)>, name: Seq<char>, raws: Seq<String>)
    requires
        constraints_usable(c),
        views_of(raws) == list_of(c, name),
    ensures
        forall|i: int| 0 <= i < raws.len() ==> raw_usable(#[trigger] raws[i]@),
{
    let p = pos_of(c, name);
    let rv = list_of(c, name);
    assert forall|i: int| 0 <= i < raws.len() implies raw_usable(#[trigger] raws[i]@) by {
        assert(views_of(raws)[i] == raws[i]@);
        assert(views_of(raws).len() == raws.len());
        if 0 <= p < c.len() {
            assert(rv == views_of(c[p].1@));
            assert(rv.len() == c[p].1@.len());
            assert(views_of(c[p].1@)[i] == c[p].1@[i]@);
        }
    }
}

proof fn lemma_rejected_listed(raws: Seq<String>, rv: Seq<Seq<char>>, name: Seq<char>, e: Seq<char>)
    requires
        views_of(raws) == rv,
        exists|i: int|
            0 <= i < raws.len() && parse_req_spec(#[trigger] raws[i]@) is Rejected && e.len()
                >= bad_req_text(name, raws[i]@).len() && e.subrange(
                0,
                bad_req_text(name, raws[i]@).len() as int,
            ) == bad_req_text(name, raws[i]@),
    ensures
        exists|i: int| 0 <= i < rv.len() && parse_req_spec(#[trigger] rv[i]) is Rejected,
{
    let i = choose|i: int|
        0 <= i < raws.len() && parse_req_spec(#[trigger] raws[i]@) is Rejected && e.len()
            >= bad_req_text(name, raws[i]@).len() && e.subrange(
            0,
            bad_req_text(name, raws[i]@).len() as int,
        ) == bad_req_text(name, raws[i]@);
    assert(views_of(raws)[i] == raws[i]@);
}

proof fn lemma_cand_iff(reqs: Seq<VersionReq>, raws: Seq<String>, rv: Seq<Seq<char>>)
    requires
        views_of(raws) == rv,
        reqs.len() == raws.len(),
        forall|i: int|
            0 <= i < raws.len() ==> parse_req_spec(#[trigger] raws[i]@) == ReqParse::Parsed(
                reqs[i]@,
            ),
    ensures
        forall|v: SemVersion| cand_ok(reqs, v) <==> all_reqs_hold(rv, v),
{
    assert forall|v: SemVersion| cand_ok(reqs, v) <==> all_reqs_hold(rv, v) by {
        if cand_ok(reqs, v) {
            assert forall|i: int| 0 <= i < rv.len() implies (parse_req_spec(#[trigger] rv[i]) matches ReqParse::Parsed(m) && req_holds(m, v)) by {
                assert(views_of(raws)[i] == raws[i]@);
                assert(req_holds(reqs[i]@, v));
            }
        }
        if all_reqs_hold(rv, v) {
            assert forall|i: int| 0 <= i < reqs.len() implies req_holds(#[trigger] reqs[i]@, v) by {
                assert(views_of(raws)[i] == raws[i]@);
                assert(parse_req_spec(rv[i]) matches ReqParse::Parsed(m) && req_holds(m, v));
            }
        }
    }
}

proof fn lemma_pos_same<V>(a: Seq<(String, V)>, b: Seq<(String, V)>, name: Seq<char>, p: int)
    requires
        a.len() == b.len(),
        0 <= p < a.len(),
        pos_of(a, name) == p,
        b[p].0@ == name,
        forall|j: int| 0 <= j < a.len() && j != p ==> b[j] == a[j],
    ensures
        pos_of(b, name) == p,
    decreases a.len(),
{
    if p > 0 {
        assert(a[0].0@ != name);
        lemma_pos_same(a.drop_first(), b.drop_first(), name, p - 1);
    }
}

proof fn lemma_pos_pushed<V>(a: Seq<(String, V)>, b: Seq<(String, V)>, name: Seq<char>)
    requires
        pos_of(a, name) >= a.len(),
        b.len() == a.len() + 1,
        b[a.len() as int].0@ == name,
        forall|j: int| 0 <= j < a.len() ==> b[j] == a[j],
    ensures
        pos_of(b, name) == a.len(),
        pos_of(a, name) == a.len(),
    decreases a.len(),
{
    if a.len() > 0 {
        assert(a[0].0@ != name) by {
            if a[0].0@ == name {
                assert(pos_of(a, name) == 0);
            }
        }
        lemma_pos_pushed(a.drop_first(), b.drop_first(), name);
    }
}


/// One round of the closure (recording a requirement of `name`, then
/// reselecting `name`) keeps every selected package meeting every
/// requirement recorded for it: recording touches only `name`'s
/// requirements, reselecting only `name`'s selection, and the new
/// selection meets them.
pub proof fn law_round_keeps_selection_consistent(
    c0: Seq<(String, Vec<String>)>,
    s0: Seq<(String, SelectedDep)>,
    c1: Seq<(String, Vec<String>)>,
    c2: Seq<(String, Vec<String>)>,
    s2: Seq<(String, SelectedDep)>,
    name: Seq<char>,
)
    requires
        selection_consistent(c0, s0),
        forall|n: Seq<char>|
            n != name && selection_meets(c0, s0, n) ==> #[trigger] selection_meets(c1, s0, n),
        forall|n: Seq<char>|
            n != name && selection_meets(c1, s0, n) ==> #[trigger] selection_meets(c2, s2, n),
        selection_meets(c2, s2, name),
    ensures
        selection_consistent(c2, s2),
{
    assert forall|n: Seq<char>| #[trigger] selection_meets(c2, s2, n) by {
        if n != name {
            assert(selection_meets(c0, s0, n));
            assert(selection_meets(c1, s0, n));
        }
    }
}

/// Entries whose names are unchanged are found at the same places.
proof fn lemma_pos_keys_same<V, W>(a: Seq<(String, V)>, b: Seq<(String, W)>, n: Seq<char>)
    requires
        a.len() == b.len(),
        forall|j: int| 0 <= j < a.len() ==> b[j].0@ == a[j].0@,
    ensures
        pos_of(b, n) == pos_of(a, n),
    decreases a.len(),
{
    if a.len() > 0 {
        lemma_pos_keys_same(a.drop_first(), b.drop_first(), n);
    }
}

/// Appending an entry under another name leaves where `n` is found, and
/// that it is absent, as they were.
proof fn lemma_pos_push_other<V>(a: Seq<(String, V)>, x: (String, V), n: Seq<char>)
    requires
        x.0@ != n,
    ensures
        pos_of(a, n) < a.len() ==> pos_of(a.push(x), n) == pos_of(a, n),
        pos_of(a, n) >= a.len() ==> pos_of(a.push(x), n) >= a.len() + 1,
    decreases a.len(),
{
    if a.len() > 0 {
        assert(a.push(x).drop_first() =~= a.drop_first().push(x));
        assert(a.push(x)[0] == a[0]);
        lemma_pos_push_other(a.drop_first(), x, n);
        if a[0].0@ != n {
            assert(pos_of(a, n) == 1 + pos_of(a.drop_first(), n));
            assert(pos_of(a.push(x), n) == 1 + pos_of(a.drop_first().push(x), n));
        }
    } else {
        assert(a.push(x).drop_first() =~= Seq::<(String, V)>::empty());
        assert(a.push(x)[0] == x);
        assert(pos_of(Seq::<(String, V)>::empty(), n) == 0);
        assert(pos_of(a.push(x), n) == 1 + pos_of(a.push(x).drop_first(), n));
    }
}

/// The entry found for `n` is named `n`.
proof fn lemma_pos_key<V>(a: Seq<(String, V)>, n: Seq<char>)
    ensures
        0 <= pos_of(a, n) <= a.len(),
        pos_of(a, n) < a.len() ==> a[pos_of(a, n)].0@ == n,
    decreases a.len(),
{
    if a.len() > 0 && a[0].0@ != n {
        lemma_pos_key(a.drop_first(), n);
    }
}

/// A step that keeps the selection and the weighed candidates, and every
/// requirement list but `name`'s, keeps every package but `name` at its
/// best.
proof fn lemma_settled_kept(a: ClosureSolver, b: ClosureSolver, name: Option<Seq<char>>)
    requires
        b.selected@ == a.selected@,
        b.seen@ == a.seen@,
        forall|n: Seq<char>| name != Some(n) ==> #[trigger] list_of(b.constraints@, n) == list_of(a.constraints@, n),
        a.settled_except(None),
    ensures
        b.settled_except(name),
{
    assert forall|n: Seq<char>| name != Some(n) implies #[trigger] b.best_for(n) by {
        assert(a.best_for(n));
        assert(list_of(b.constraints@, n) == list_of(a.constraints@, n));
    }
}

/// A selection of `name` at its best, with every other selection kept,
/// settles a solver that was settled but for `name`.
proof fn lemma_settle(a: ClosureSolver, b: ClosureSolver, name: Seq<char>, cands: Seq<(SemVersion, String)>)
    requires
        b.constraints@ == a.constraints@,
        b.seen@ == a.seen@.insert(name, cands.map_values(|c: (SemVersion, String)| c.0)),
        forall|n: Seq<char>|
            n != name ==> #[trigger] selected_version(b.selected@, n) == selected_version(a.selected@, n),
        ({
            let p = pos_of(b.selected@, name);
            &&& 0 <= p < b.selected@.len()
            &&& all_reqs_hold(list_of(a.constraints@, name), b.selected@[p].1.version)
            &&& exists|j: int| 0 <= j < cands.len() && #[trigger] cands[j].0 == b.selected@[p].1.version
            &&& forall|j: int|
                0 <= j < cands.len() && all_reqs_hold(list_of(a.constraints@, name), #[trigger] cands[j].0)
                    ==> sv_le(cands[j].0, b.selected@[p].1.version)
        }),
    ensures
        a.settled_except(Some(name)) ==> b.settled_except(None),
{
    if a.settled_except(Some(name)) {
        assert forall|n: Seq<char>| None::<Seq<char>> != Some(n) implies #[trigger] b.best_for(n) by {
            if n != name {
                assert(a.best_for(n));
                assert(selected_version(b.selected@, n) == selected_version(a.selected@, n));
            } else {
                let p = pos_of(b.selected@, name);
                let v = b.selected@[p].1.version;
                let sc = cands.map_values(|c: (SemVersion, String)| c.0);
                let j = choose|j: int| 0 <= j < cands.len() && #[trigger] cands[j].0 == v;
                assert(sc[j] == v);
                assert(b.seen@[name] == sc);
                assert forall|k: int|
                    0 <= k < sc.len() && all_reqs_hold(list_of(b.constraints@, name), #[trigger] sc[k])
                        implies sv_le(sc[k], v) by {
                    assert(sc[k] == cands[k].0);
                }
            }
        }
    }
}

/// The package `n`, when selected, has a version that meets every
/// requirement recorded for it.
pub open spec fn selection_meets(
    c: Seq<(String, Vec<String>)>,
    s: Seq<(String, SelectedDep)>,
    n: Seq<char>,
) -> bool {
    0 <= pos_of(s, n) < s.len() ==> all_reqs_hold(list_of(c, n), s[pos_of(s, n)].1.version)
}

/// Every selected package meets every requirement recorded for it.
pub open spec fn selection_consistent(c: Seq<(String, Vec<String>)>, s: Seq<(String, SelectedDep)>) -> bool {
    forall|n: Seq<char>| #[trigger] selection_meets(c, s, n)
}

fn insert_sel_sorted(v: &mut Vec<(String, SelectedDep)>, e: (String, SelectedDep))
    ensures
        sel_view(final(v)@) == crate::keyed::insert_sorted(
            sel_view(old(v)@),
            (e.0@, (e.1.version, e.1.source_dir@)),
        ),
{
    let ghost s = sel_view(v@);
    let ghost ev = (e.0@, (e.1.version, e.1.source_dir@));
    let mut pos = v.len();
    assert(s.take(pos as int) =~= s);
    assert(s.skip(pos as int) =~= Seq::<(Seq<char>, (SemVersion, Seq<char>))>::empty());
    assert(crate::keyed::insert_sorted(s, ev) =~= crate::keyed::insert_sorted(s.take(pos as int), ev)
        + s.skip(pos as int));
    while pos > 0 && crate::manifest::key_lt(&e.0, &v[pos - 1].0)
        invariant
            0 <= pos <= v.len(),
            s == sel_view(v@),
            ev == (e.0@, (e.1.version, e.1.source_dir@)),
            crate::keyed::insert_sorted(s, ev) == crate::keyed::insert_sorted(s.take(pos as int), ev)
                + s.skip(pos as int),
        decreases pos,
    {
        let ghost t = s.take(pos as int);
        assert(t.drop_last() =~= s.take(pos - 1));
        assert(t.last() == s[pos - 1]);
        assert(s.skip(pos - 1) =~= seq![s[pos - 1]] + s.skip(pos as int));
        assert(crate::keyed::insert_sorted(s.take(pos - 1), ev).push(s[pos - 1]) + s.skip(pos as int)
            =~= crate::keyed::insert_sorted(s.take(pos - 1), ev) + s.skip(pos - 1));
        pos -= 1;
    }
    if pos > 0 {
        assert(s.take(pos as int).last() == s[pos - 1]);
    } else {
        assert(s.take(0) =~= Seq::<(Seq<char>, (SemVersion, Seq<char>))>::empty());
    }
    assert(crate::keyed::insert_sorted(s.take(pos as int), ev) == s.take(pos as int).push(ev));
    v.insert(pos, e);
    assert(sel_view(v@) =~= s.take(pos as int).push(ev) + s.skip(pos as int));
}

impl ClosureSolver {
    /// The selection, by package name.
    pub fn selection(&self) -> (r: Vec<(String, SelectedDep)>)
        ensures
            sel_view(r@) == sort_by_name(sel_view(self.selected@)),
    {
        let mut out: Vec<(String, SelectedDep)> = Vec::new();
        let ghost s = sel_view(self.selected@);
        let mut i: usize = 0;
        assert(s.take(0) =~= Seq::<(Seq<char>, (SemVersion, Seq<char>))>::empty());
        while i < self.selected.len()
            invariant
                0 <= i <= self.selected.len(),
                s == sel_view(self.selected@),
                sel_view(out@) == sort_by_name(s.take(i as int)),
            decreases self.selected.len() - i,
        {
            assert(s.take(i + 1).drop_last() =~= s.take(i as int));
            let e = (
                self.selected[i].0.clone(),
                SelectedDep {
                    version: self.selected[i].1.version,
                    source_dir: self.selected[i].1.source_dir.clone(),
                },
            );
            assert(s.take(i + 1).last() == (e.0@, (e.1.version, e.1.source_dir@)));
            insert_sel_sorted(&mut out, e);
            i += 1;
        }
        assert(s.take(self.selected.len() as int) =~= s);
        out
    }
}

/// Candidates as values: (version, source directory).
pub open spec fn cands_view(c: Seq<(SemVersion, String)>) -> Seq<(SemVersion, Seq<char>)> {
    c.map_values(|e: (SemVersion, String)| (e.0, e.1@))
}

/// The subdirectories, given as (name, path), whose name is a version.
pub open spec fn subdir_versions(entries: Seq<(Seq<char>, Seq<char>)>) -> Seq<(SemVersion, Seq<char>)>
    decreases entries.len(),
{
    if entries.len() == 0 {
        Seq::empty()
    } else {
        subdir_versions(entries.drop_last()) + match parse_semver(entries.last().0) {
            Some(v) => seq![(v, entries.last().1)],
            None => Seq::empty(),
        }
    }
}

pub open spec fn entries_view(e: Seq<(String, String)>) -> Seq<(Seq<char>, Seq<char>)> {
    e.map_values(|x: (String, String)| (x.0@, x.1@))
}

/// The version subdirectories among a directory's subdirectories, each
/// given as (name, path), in the order given.
pub fn version_subdirs(entries: &Vec<(String, String)>) -> (r: Vec<(SemVersion, String)>)
    ensures
        cands_view(r@) == subdir_versions(entries_view(entries@)),
{
    let mut out: Vec<(SemVersion, String)> = Vec::new();
    let mut i: usize = 0;
    while i < entries.len()
        invariant
            0 <= i <= entries.len(),
            cands_view(out@) == subdir_versions(entries_view(entries@).take(i as int)),
        decreases entries.len() - i,
    {
        let ghost ev = entries_view(entries@);
        assert(ev.take(i + 1).drop_last() =~= ev.take(i as int));
        assert(ev.take(i + 1).last() == (entries@[i as int].0@, entries@[i as int].1@));
        match SemVersion::parse(entries[i].0.as_str()) {
            Ok(v) => {
                let ghost before = cands_view(out@);
                out.push((v, entries[i].1.clone()));
                assert(cands_view(out@) =~= before.push((v, entries@[i as int].1@)));
            },
            Err(_) => {},
        }
        i += 1;
        assert(cands_view(out@) =~= subdir_versions(entries_view(entries@).take(i as int)));
    }
    assert(entries_view(entries@).take(entries.len() as int) =~= entries_view(entries@));
    out
}

/// The package version a `huzi.toml` text declares, when it is a version.
pub open spec fn manifest_version(content: Option<Seq<char>>) -> Option<SemVersion> {
    match content {
        None => None,
        Some(c) => parse_semver(parse_manifest_spec(c).version),
    }
}

/// The version of the package whose `huzi.toml` reads `content` (`None`
/// when there is no manifest).
pub fn package_version_of(content: Option<&str>) -> (r: Option<SemVersion>)
    ensures
        r == manifest_version(
            match content {
                Some(c) => Some(c@),
                None => None,
            },
        ),
{
    match content {
        None => None,
        Some(c) => match parse_manifest(c) {
            Ok(m) => match SemVersion::parse(m.version.as_str()) {
                Ok(v) => Some(v),
                Err(_) => None,
            },
            Err(_) => None,
        },
    }
}

/// The exact versions among the requirement texts, each with `dir`.
pub open spec fn exact_versions(raws: Seq<Seq<char>>, dir: Seq<char>) -> Seq<(SemVersion, Seq<char>)>
    decreases raws.len(),
{
    if raws.len() == 0 {
        Seq::empty()
    } else {
        exact_versions(raws.drop_last(), dir) + match parse_semver(raws.last()) {
            Some(v) => seq![(v, dir)],
            None => Seq::empty(),
        }
    }
}

/// The candidates of a `path` source directory: its version
/// subdirectories; else the version its own `huzi.toml` declares; else
/// each requirement text that is an exact version, with the directory
/// itself.
pub open spec fn path_dir_cands(
    subdirs: Seq<(SemVersion, Seq<char>)>,
    own: Option<SemVersion>,
    raws: Seq<Seq<char>>,
    dir: Seq<char>,
) -> Seq<(SemVersion, Seq<char>)> {
    if subdirs.len() > 0 {
        subdirs
    } else {
        match own {
            Some(v) => seq![(v, dir)],
            None => exact_versions(raws, dir),
        }
    }
}

/// The candidates of the `path` source directory `dir`, from its version
/// subdirectories (`version_subdirs`) and its own package version
/// (`package_version_of`).
pub fn candidates_from_path_dir(
    subdirs: Vec<(SemVersion, String)>,
    own: Option<SemVersion>,
    raws: &Vec<String>,
    dir: &String,
) -> (r: Vec<(SemVersion, String)>)
    ensures
        cands_view(r@) == path_dir_cands(cands_view(subdirs@), own, views_of(raws@), dir@),
{
    if subdirs.len() > 0 {
        return subdirs;
    }
    let mut out: Vec<(SemVersion, String)> = Vec::new();
    match own {
        Some(v) => {
            out.push((v, dir.clone()));
            assert(cands_view(out@) =~= seq![(v, dir@)]);
            return out;
        },
        None => {},
    }
    let mut i: usize = 0;
    while i < raws.len()
        invariant
            0 <= i <= raws.len(),
            cands_view(out@) == exact_versions(views_of(raws@).take(i as int), dir@),
        decreases raws.len() - i,
    {
        assert(views_of(raws@).take(i + 1).drop_last() =~= views_of(raws@).take(i as int));
        assert(views_of(raws@).take(i + 1).last() == raws@[i as int]@);
        match SemVersion::parse(raws[i].as_str()) {
            Ok(v) => {
                let ghost before = cands_view(out@);
                out.push((v, dir.clone()));
                assert(cands_view(out@) =~= before.push((v, dir@)));
            },
            Err(_) => {},
        }
        i += 1;
        assert(cands_view(out@) =~= exact_versions(views_of(raws@).take(i as int), dir@));
    }
    assert(views_of(raws@).take(raws.len() as int) =~= views_of(raws@));
    out
}

} // verus!
