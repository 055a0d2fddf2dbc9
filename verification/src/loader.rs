//! Loading modules from sources held in memory (the language server's open
//! documents). The loader is a state machine: its caller asks for the next
//! step, parses the source the step names and hands the result back, until
//! the loader reports that it is finished. Modules are keyed by the name
//! they bind; a name is loaded once, so cyclic imports end. Every problem
//! is collected, and the result is an error when there is any.
use crate::keyed::sort_by_name;
use crate::manifest::key_lt;
use crate::modules::{
    add_export_roots, bind_name, builtin_names, extract_imports, import_names, is_builtin, keys_of,
    key_import_name, lookup_index, lookup_memory_source, memory_key_to_import_name,
    module_bind_name, module_error_text, module_stmt_allowed, validate_module_program_result,
    views_of, without_imports, LoadedModule,
};
use crate::ast::Program;
use crate::render::{render_spec, render_with_color, HuziError};
use crate::text::{chars_of, push_str, string_of};
use vstd::prelude::*;

verus! {

/// A module whose own imports are being loaded: its bound name, its syntax
/// tree without the imports, the modules it imports and how many of them
/// were visited.
pub struct Frame {
    pub name: String,
    pub program: Program,
    pub nested: Vec<String>,
    pub next: usize,
}

/// What the loader needs next.
pub enum LoadStep {
    /// The source of module `name`, to be parsed and handed to `parsed`.
    Parse { name: String, source: String },
    /// Every module is loaded or has failed.
    Finished,
}

pub struct MemLoader {
    /// The in-memory sources: (key, source text).
    pub files: Vec<(String, String)>,
    /// The import names of the keys, in key order.
    pub order: Vec<String>,
    pub next_key: usize,
    /// The names already claimed.
    pub done: Vec<String>,
    pub modules: Vec<LoadedModule>,
    pub errors: Vec<String>,
    pub stack: Vec<Frame>,
    /// The module whose parse result is awaited.
    pub pending: Option<String>,
    /// The claimed names that failed, one for each collected problem.
    pub failed: Ghost<Seq<Seq<char>>>,
}

pub open spec fn distinct(s: Seq<Seq<char>>) -> bool {
    forall|i: int, j: int| 0 <= i < j < s.len() ==> s[i] != s[j]
}

pub open spec fn mod_names(ms: Seq<LoadedModule>) -> Seq<Seq<char>> {
    ms.map_values(|m: LoadedModule| m.name@)
}

pub open spec fn frame_names(fs: Seq<Frame>) -> Seq<Seq<char>> {
    fs.map_values(|f: Frame| f.name@)
}

/// The imports still to visit in the frames.
pub open spec fn frames_work(fs: Seq<Frame>) -> int
    decreases fs.len(),
{
    if fs.len() == 0 {
        0
    } else {
        frames_work(fs.drop_last()) + (fs.last().nested@.len() - fs.last().next)
    }
}

/// Keys as (key, ()) pairs, for sorting by name.
pub open spec fn unit_keys(ks: Seq<Seq<char>>) -> Seq<(Seq<char>, ())> {
    ks.map_values(|k: Seq<char>| (k, ()))
}

/// The import names of sorted keys.
pub open spec fn key_imports(ps: Seq<(Seq<char>, ())>) -> Seq<Seq<char>> {
    ps.map_values(|p: (Seq<char>, ())| key_import_name(p.0))
}

/// Sorted keys' import names.
pub open spec fn key_order(files: Seq<(String, String)>) -> Seq<Seq<char>> {
    key_imports(sort_by_name(unit_keys(keys_of(files))))
}

/// The source an import finds in memory, if any.
pub open spec fn source_for(files: Seq<(String, String)>, import: Seq<char>) -> Option<Seq<char>> {
    match lookup_index(keys_of(files), import) {
        Some(i) => Some(files[i].1@),
        None => None,
    }
}

/// The texts joined with a newline between each two.
pub open spec fn join_newline(ls: Seq<Seq<char>>) -> Seq<char>
    decreases ls.len(),
{
    if ls.len() == 0 {
        Seq::empty()
    } else if ls.len() == 1 {
        ls[0]
    } else {
        join_newline(ls.drop_last()) + seq!['\n'] + ls.last()
    }
}

/// `e` reports an import that finds no source and binds the name `name`.
pub open spec fn is_missing_report(files: Seq<(String, String)>, e: Seq<char>, name: Seq<char>) -> bool {
    exists|x: Seq<char>| source_for(files, x) is None && e == missing_text(x) && bind_name(x) == name
}

/// A built-in module as the loader records it: no tree and no path.
pub open spec fn builtin_module(m: LoadedModule) -> bool {
    builtin_names().contains(m.name@) && m.program is None && m.path is None
}

/// `m` is the module of one of the frames `fs`, carrying that frame's tree
/// and no path.
pub open spec fn finished_from(m: LoadedModule, fs: Seq<Frame>) -> bool {
    exists|i: int|
        0 <= i < fs.len() && m.name@ == fs[i].name@ && m.program == Some(fs[i].program)
            && m.path is None
}

/// The report of an import that finds no source.
pub open spec fn missing_text(import: Seq<char>) -> Seq<char> {
    "Cannot find module '"@ + import + "' in memory"@
}

impl MemLoader {
    pub open spec fn wf(&self) -> bool {
        &&& self.next_key <= self.order@.len()
        &&& forall|i: int|
            0 <= i < self.stack@.len() ==> (#[trigger] self.stack@[i]).next <= self.stack@[i].nested@.len()
        &&& distinct(views_of(self.done@))
        &&& distinct(mod_names(self.modules@))
        &&& distinct(frame_names(self.stack@))
        &&& forall|i: int, j: int|
            0 <= i < self.modules@.len() && 0 <= j < self.stack@.len() ==> mod_names(
                self.modules@,
            )[i] != frame_names(self.stack@)[j]
        &&& forall|i: int|
            0 <= i < self.modules@.len() ==> views_of(self.done@).contains(
                #[trigger] mod_names(self.modules@)[i],
            )
        &&& forall|i: int|
            0 <= i < self.stack@.len() ==> views_of(self.done@).contains(
                #[trigger] frame_names(self.stack@)[i],
            )
        &&& self.pending matches Some(p) ==> {
            &&& views_of(self.done@).contains(p@)
            &&& !mod_names(self.modules@).contains(p@)
            &&& !frame_names(self.stack@).contains(p@)
        }
    }

    /// Every claimed name is accounted for: loaded, on the stack, awaiting
    /// its parse result, or failed, with one problem collected per failure.
    pub open spec fn accounted(&self) -> bool {
        &&& self.failed@.len() == self.errors@.len()
        &&& forall|x: Seq<char>|
            #[trigger] views_of(self.done@).contains(x) ==> mod_names(self.modules@).contains(x)
                || frame_names(self.stack@).contains(x) || (self.pending matches Some(p) && p@ == x)
                || self.failed@.contains(x)
    }

    /// Everything the traversal has passed is claimed: the keys before
    /// `next_key` and, in each frame, the imports before its `next`.
    pub open spec fn passed_claimed(&self) -> bool {
        &&& forall|k: int|
            0 <= k < self.next_key ==> views_of(self.done@).contains(
                bind_name(#[trigger] self.order@[k]@),
            )
        &&& forall|i: int, j: int|
            0 <= i < self.stack@.len() && 0 <= j < self.stack@[i].next ==> views_of(
                self.done@,
            ).contains(bind_name(#[trigger] self.stack@[i].nested@[j]@))
    }

    /// The stack after a step, against the stack before it: frames leave
    /// only from the top, a frame that stays keeps its module and imports
    /// and only advances, and a frame that left had every import claimed
    /// and its module loaded.
    pub open spec fn stack_follows(&self, old: &MemLoader) -> bool {
        &&& self.stack@.len() <= old.stack@.len()
        &&& forall|i: int|
            0 <= i < self.stack@.len() ==> #[trigger] self.stack@[i].name@ == old.stack@[i].name@
                && self.stack@[i].nested@ == old.stack@[i].nested@ && self.stack@[i].next
                >= old.stack@[i].next && self.stack@[i].program == old.stack@[i].program
        &&& forall|i: int, j: int|
            self.stack@.len() <= i < old.stack@.len() && 0 <= j < old.stack@[i].nested@.len()
                ==> views_of(self.done@).contains(bind_name(#[trigger] old.stack@[i].nested@[j]@))
        &&& forall|i: int|
            self.stack@.len() <= i < old.stack@.len() ==> mod_names(self.modules@).contains(
                #[trigger] old.stack@[i].name@,
            )
    }

    /// What a step adds besides the module it asks to parse: problems only
    /// for imports with no source, each beside the name that failed with it
    /// (one failed name per problem), and modules that are built in (never
    /// parsed: no tree, no path) or whose frame was finished (the frame's
    /// module with its tree, no path).
    pub open spec fn adds_only_skips(&self, old: &MemLoader) -> bool {
        &&& self.failed@.len() == self.errors@.len()
        &&& forall|k: int|
            old.errors@.len() <= k < self.errors@.len() ==> is_missing_report(
                self.files@,
                #[trigger] self.errors@[k]@,
                self.failed@[k],
            )
        &&& forall|k: int|
            #![trigger self.modules@[k]]
            old.modules@.len() <= k < self.modules@.len() ==> builtin_module(self.modules@[k])
                || finished_from(self.modules@[k], old.stack@)
    }

    /// Every loaded module is a built-in one (never parsed: no tree, no
    /// path) or carries its syntax tree and no path.
    pub open spec fn shaped(&self) -> bool {
        forall|k: int|
            0 <= k < self.modules@.len() ==> builtin_module(#[trigger] self.modules@[k]) || (
            self.modules@[k].program is Some && self.modules@[k].path is None)
    }

    /// The work left before `Finished`, for termination.
    pub open spec fn work(&self) -> int {
        (self.order@.len() - self.next_key) + frames_work(self.stack@) + self.stack@.len()
    }

    /// The steps so far only add: names claimed, modules loaded and errors
    /// collected stay.
    pub open spec fn grows_from(&self, old: &MemLoader) -> bool {
        &&& self.files@ == old.files@
        &&& self.order@ == old.order@
        &&& views_of(old.done@) == views_of(self.done@).take(old.done@.len() as int)
        &&& old.done@.len() <= self.done@.len()
        &&& old.modules@.len() <= self.modules@.len()
        &&& old.modules@ == self.modules@.take(old.modules@.len() as int)
        &&& old.errors@.len() <= self.errors@.len()
        &&& views_of(old.errors@) == views_of(self.errors@).take(old.errors@.len() as int)
        &&& old.failed@.len() <= self.failed@.len()
        &&& old.failed@ == self.failed@.take(old.failed@.len() as int)
    }
}

/// A step that adds only built-in modules and modules of finished frames
/// keeps every module shaped.
proof fn lemma_shaped_kept(a: MemLoader, b: MemLoader)
    requires
        a.shaped(),
        b.grows_from(&a),
        b.adds_only_skips(&a),
    ensures
        b.shaped(),
{
    assert forall|k: int| 0 <= k < b.modules@.len() implies builtin_module(#[trigger] b.modules@[k]) || (
    b.modules@[k].program is Some && b.modules@[k].path is None) by {
        if k < a.modules@.len() {
            assert(b.modules@.take(a.modules@.len() as int)[k] == a.modules@[k]);
            assert(a.modules@[k] == b.modules@[k]);
        } else if !builtin_module(b.modules@[k]) {
            assert(finished_from(b.modules@[k], a.stack@));
        }
    }
}

proof fn lemma_grows_refl(l: MemLoader)
    ensures
        l.grows_from(&l),
{
    assert(views_of(l.done@).take(l.done@.len() as int) =~= views_of(l.done@));
    assert(l.modules@.take(l.modules@.len() as int) =~= l.modules@);
    assert(views_of(l.errors@).take(l.errors@.len() as int) =~= views_of(l.errors@));
    assert(l.failed@.take(l.failed@.len() as int) =~= l.failed@);
}

proof fn lemma_grows_same(a: MemLoader, b: MemLoader)
    requires
        b.files@ == a.files@,
        b.order@ == a.order@,
        b.done@ == a.done@,
        b.modules@ == a.modules@,
        b.errors@ == a.errors@,
        b.failed@ == a.failed@,
    ensures
        b.grows_from(&a),
{
    lemma_grows_refl(a);
}

proof fn lemma_grows_trans(a: MemLoader, b: MemLoader, c: MemLoader)
    requires
        b.grows_from(&a),
        c.grows_from(&b),
    ensures
        c.grows_from(&a),
{
    assert(views_of(c.done@).take(b.done@.len() as int).take(a.done@.len() as int) =~= views_of(
        c.done@,
    ).take(a.done@.len() as int));
    assert(c.modules@.take(b.modules@.len() as int).take(a.modules@.len() as int)
        =~= c.modules@.take(a.modules@.len() as int));
    assert(views_of(c.errors@).take(b.errors@.len() as int).take(a.errors@.len() as int)
        =~= views_of(c.errors@).take(a.errors@.len() as int));
    assert(c.failed@.take(b.failed@.len() as int).take(a.failed@.len() as int)
        =~= c.failed@.take(a.failed@.len() as int));
}

/// What was claimed or loaded stays so.
proof fn lemma_grows_contains(a: MemLoader, b: MemLoader)
    requires
        b.grows_from(&a),
    ensures
        forall|x: Seq<char>| views_of(a.done@).contains(x) ==> #[trigger] views_of(b.done@).contains(x),
        forall|x: Seq<char>| mod_names(a.modules@).contains(x) ==> #[trigger] mod_names(b.modules@).contains(x),
{
    assert forall|x: Seq<char>| views_of(a.done@).contains(x) implies #[trigger] views_of(b.done@).contains(x) by {
        let k = choose|k: int| 0 <= k < views_of(a.done@).len() && views_of(a.done@)[k] == x;
        assert(views_of(b.done@).take(a.done@.len() as int)[k] == x);
        assert(views_of(b.done@)[k] == x);
    }
    assert forall|x: Seq<char>| mod_names(a.modules@).contains(x) implies #[trigger] mod_names(b.modules@).contains(x) by {
        let k = choose|k: int| 0 <= k < mod_names(a.modules@).len() && mod_names(a.modules@)[k] == x;
        assert(a.modules@[k] == b.modules@.take(a.modules@.len() as int)[k]);
        assert(mod_names(b.modules@)[k] == x);
    }
}

/// Two steps that each add only skips add only skips together, when the
/// frames in between were frames before.
proof fn lemma_skips_trans(a: MemLoader, b: MemLoader, c: MemLoader)
    requires
        b.adds_only_skips(&a),
        c.adds_only_skips(&b),
        b.grows_from(&a),
        c.grows_from(&b),
        b.stack@.len() <= a.stack@.len(),
        forall|i: int|
            0 <= i < b.stack@.len() ==> #[trigger] b.stack@[i].name@ == a.stack@[i].name@
                && b.stack@[i].program == a.stack@[i].program,
    ensures
        c.adds_only_skips(&a),
{
    assert forall|k: int| a.errors@.len() <= k < c.errors@.len() implies is_missing_report(
        c.files@,
        #[trigger] c.errors@[k]@,
        c.failed@[k],
    ) by {
        if k < b.errors@.len() {
            assert(views_of(c.errors@).take(b.errors@.len() as int)[k] == views_of(b.errors@)[k]);
            assert(c.errors@[k]@ == b.errors@[k]@);
            assert(c.failed@.take(b.failed@.len() as int)[k] == b.failed@[k]);
            assert(is_missing_report(b.files@, b.errors@[k]@, b.failed@[k]));
        }
    }
    assert forall|k: int|
        #![trigger c.modules@[k]]
        a.modules@.len() <= k < c.modules@.len() implies builtin_module(c.modules@[k])
        || finished_from(c.modules@[k], a.stack@) by {
        let m = c.modules@[k];
        if k < b.modules@.len() {
            assert(c.modules@.take(b.modules@.len() as int)[k] == b.modules@[k]);
            assert(m == b.modules@[k]);
        } else {
            if !builtin_module(m) {
                assert(finished_from(m, b.stack@));
                let i = choose|i: int|
                    0 <= i < b.stack@.len() && m.name@ == b.stack@[i].name@ && m.program == Some(b.stack@[i].program)
                        && m.path is None;
                assert(b.stack@[i].name@ == a.stack@[i].name@);
            }
        }
    }
}

/// Claiming `name` keeps every name accounted for when the new name is and
/// nothing accounted before was lost.
proof fn lemma_accounted_claim(a: MemLoader, b: MemLoader, name: Seq<char>)
    requires
        a.accounted(),
        a.pending is None,
        views_of(b.done@) == views_of(a.done@).push(name),
        forall|x: Seq<char>| mod_names(a.modules@).contains(x) ==> #[trigger] mod_names(b.modules@).contains(x),
        frame_names(b.stack@) == frame_names(a.stack@),
        forall|x: Seq<char>| a.failed@.contains(x) ==> #[trigger] b.failed@.contains(x),
        b.failed@.len() == b.errors@.len(),
        mod_names(b.modules@).contains(name) || (b.pending matches Some(p) && p@ == name)
            || b.failed@.contains(name),
    ensures
        b.accounted(),
{
    broadcast use vstd::seq_lib::lemma_seq_contains_after_push;

    assert forall|x: Seq<char>| #[trigger] views_of(b.done@).contains(x) implies mod_names(b.modules@).contains(x)
        || frame_names(b.stack@).contains(x) || (b.pending matches Some(p) && p@ == x)
        || b.failed@.contains(x) by {
        if x != name {
            assert(views_of(a.done@).contains(x));
        }
    }
}

/// A name not yet claimed is neither loaded nor on the stack.
proof fn lemma_fresh(l: MemLoader, name: Seq<char>)
    requires
        l.wf(),
        !views_of(l.done@).contains(name),
    ensures
        !mod_names(l.modules@).contains(name),
        !frame_names(l.stack@).contains(name),
{
    if mod_names(l.modules@).contains(name) {
        let i = choose|i: int| 0 <= i < mod_names(l.modules@).len() && mod_names(l.modules@)[i] == name;
        assert(views_of(l.done@).contains(mod_names(l.modules@)[i]));
    }
    if frame_names(l.stack@).contains(name) {
        let i = choose|i: int| 0 <= i < frame_names(l.stack@).len() && frame_names(l.stack@)[i] == name;
        assert(views_of(l.done@).contains(frame_names(l.stack@)[i]));
    }
}

/// Claiming a fresh name keeps the loader well formed.
proof fn lemma_claim_keeps(a: MemLoader, b: MemLoader, name: Seq<char>)
    requires
        a.wf(),
        a.pending is None,
        !views_of(a.done@).contains(name),
        views_of(b.done@) == views_of(a.done@).push(name),
        b.files == a.files,
        b.order == a.order,
        b.next_key == a.next_key,
        b.modules == a.modules,
        b.errors == a.errors,
        b.failed == a.failed,
        b.stack == a.stack,
        b.pending is None,
    ensures
        b.wf(),
        b.grows_from(&a),
{
    let d = views_of(a.done@);
    assert forall|x: Seq<char>| d.contains(x) implies views_of(b.done@).contains(x) by {
        let k = choose|k: int| 0 <= k < d.len() && d[k] == x;
        assert(views_of(b.done@)[k] == x);
    }
    assert forall|i: int, j: int|
        0 <= i < j < views_of(b.done@).len() implies views_of(b.done@)[i] != views_of(
        b.done@,
    )[j] by {
        if j == d.len() {
            assert(views_of(b.done@)[i] == d[i]);
            assert(d.contains(d[i]));
        } else {
            assert(views_of(b.done@)[i] == d[i]);
            assert(views_of(b.done@)[j] == d[j]);
        }
    }
    assert(views_of(b.done@).take(d.len() as int) =~= d);
    assert(b.modules@.take(a.modules@.len() as int) =~= a.modules@);
    assert(views_of(b.errors@).take(a.errors@.len() as int) =~= views_of(a.errors@));
    assert(b.failed@.take(a.failed@.len() as int) =~= a.failed@);
}

/// Loading a module under a claimed name that nothing else holds keeps
/// the loader well formed.
proof fn lemma_module_added(a: MemLoader, b: MemLoader, name: Seq<char>)
    requires
        a.wf(),
        a.pending is None,
        views_of(a.done@).contains(name),
        !mod_names(a.modules@).contains(name),
        !frame_names(a.stack@).contains(name),
        mod_names(b.modules@) == mod_names(a.modules@).push(name),
        b.modules@.len() == a.modules@.len() + 1,
        b.done == a.done,
        b.stack == a.stack,
        b.next_key == a.next_key,
        b.order == a.order,
        b.pending is None,
    ensures
        b.wf(),
{
    let m = mod_names(a.modules@);
    assert forall|i: int, j: int|
        0 <= i < j < mod_names(b.modules@).len() implies mod_names(b.modules@)[i] != mod_names(
        b.modules@,
    )[j] by {
        if j == m.len() {
            assert(mod_names(b.modules@)[i] == m[i]);
            assert(m.contains(m[i]));
        } else {
            assert(mod_names(b.modules@)[i] == m[i]);
            assert(mod_names(b.modules@)[j] == m[j]);
        }
    }
    assert forall|i: int, j: int|
        0 <= i < b.modules@.len() && 0 <= j < b.stack@.len() implies mod_names(b.modules@)[i]
        != frame_names(b.stack@)[j] by {
        if i == m.len() {
            assert(frame_names(a.stack@).contains(frame_names(a.stack@)[j]));
        } else {
            assert(mod_names(b.modules@)[i] == m[i]);
        }
    }
    assert forall|i: int| 0 <= i < b.modules@.len() implies views_of(b.done@).contains(
        #[trigger] mod_names(b.modules@)[i],
    ) by {
        if i < m.len() {
            assert(mod_names(b.modules@)[i] == m[i]);
        }
    }
}

proof fn lemma_frames_work_nonneg(fs: Seq<Frame>)
    requires
        forall|i: int| 0 <= i < fs.len() ==> (#[trigger] fs[i]).next <= fs[i].nested@.len(),
    ensures
        frames_work(fs) >= 0,
    decreases fs.len(),
{
    if fs.len() > 0 {
        assert forall|i: int| 0 <= i < fs.drop_last().len() implies (
        #[trigger] fs.drop_last()[i]).next <= fs.drop_last()[i].nested@.len() by {
            assert(fs.drop_last()[i] == fs[i]);
        }
        lemma_frames_work_nonneg(fs.drop_last());
        assert(fs.last() == fs[fs.len() - 1]);
    }
}

/// A sorted copy of the keys with their import names.
fn sorted_import_names(files: &Vec<(String, String)>) -> (r: Vec<String>)
    ensures
        views_of(r@) == key_order(files@),
{
    let ghost ks = unit_keys(keys_of(files@));
    let mut sorted: Vec<String> = Vec::new();
    let mut i: usize = 0;
    assert(ks.take(0) =~= Seq::<(Seq<char>, ())>::empty());
    while i < files.len()
        invariant
            0 <= i <= files.len(),
            ks == unit_keys(keys_of(files@)),
            unit_keys(views_of(sorted@)) == sort_by_name(
                ks.take(i as int),
            ),
        decreases files.len() - i,
    {
        assert(ks.take(i + 1).drop_last() =~= ks.take(i as int));
        assert(ks.take(i + 1).last() == (files@[i as int].0@, ()));
        let key = files[i].0.clone();
        insert_key_sorted(&mut sorted, key);
        i += 1;
    }
    assert(ks.take(files.len() as int) =~= ks);
    assert(key_imports(sort_by_name(ks).take(0)) =~= Seq::<Seq<char>>::empty());
    let mut out: Vec<String> = Vec::new();
    let mut j: usize = 0;
    let ghost srt = sort_by_name(ks);
    while j < sorted.len()
        invariant
            0 <= j <= sorted.len(),
            srt == sort_by_name(ks),
            unit_keys(views_of(sorted@)) == srt,
            views_of(out@) == key_imports(srt.take(j as int)),
        decreases sorted.len() - j,
    {
        assert(srt[j as int] == (sorted@[j as int]@, ()));
        let name = memory_key_to_import_name(sorted[j].as_str());
        let ghost before = views_of(out@);
        out.push(name);
        assert(key_imports(srt.take(j + 1)) =~= key_imports(srt.take(j as int)).push(
            key_import_name(srt[j as int].0),
        ));
        assert(views_of(out@) =~= before.push(name@));
        j += 1;
    }
    assert(srt.take(sorted.len() as int) =~= srt);
    assert(srt.len() == sorted@.len());
    out
}

fn insert_key_sorted(v: &mut Vec<String>, e: String)
    ensures
        unit_keys(views_of(final(v)@)) == crate::keyed::insert_sorted(
            unit_keys(views_of(old(v)@)),
            (e@, ()),
        ),
{
    let ghost s = unit_keys(views_of(v@));
    let ghost ev = (e@, ());
    let mut pos = v.len();
    assert(s.take(pos as int) =~= s);
    assert(s.skip(pos as int) =~= Seq::<(Seq<char>, ())>::empty());
    assert(crate::keyed::insert_sorted(s, ev) =~= crate::keyed::insert_sorted(
        s.take(pos as int),
        ev,
    ) + s.skip(pos as int));
    while pos > 0 && key_lt(&e, &v[pos - 1])
        invariant
            0 <= pos <= v.len(),
            s == unit_keys(views_of(v@)),
            ev == (e@, ()),
            crate::keyed::insert_sorted(s, ev) == crate::keyed::insert_sorted(
                s.take(pos as int),
                ev,
            ) + s.skip(pos as int),
        decreases pos,
    {
        let ghost t = s.take(pos as int);
        assert(t.drop_last() =~= s.take(pos - 1));
        assert(t.last() == s[pos - 1]);
        assert(s[pos - 1] == (v@[pos - 1]@, ()));
        assert(s.skip(pos - 1) =~= seq![s[pos - 1]] + s.skip(pos as int));
        assert(crate::keyed::insert_sorted(s.take(pos - 1), ev).push(s[pos - 1]) + s.skip(
            pos as int,
        ) =~= crate::keyed::insert_sorted(s.take(pos - 1), ev) + s.skip(pos - 1));
        pos -= 1;
    }
    if pos > 0 {
        assert(s.take(pos as int).last() == s[pos - 1]);
        assert(s[pos - 1] == (v@[pos - 1]@, ()));
    } else {
        assert(s.take(0) =~= Seq::<(Seq<char>, ())>::empty());
    }
    assert(crate::keyed::insert_sorted(s.take(pos as int), ev) == s.take(pos as int).push(ev));
    v.insert(pos, e);
    assert(unit_keys(views_of(v@)) =~= s.take(pos as int).push(ev) + s.skip(pos as int));
}

/// Whether `name` is among `v`.
fn contains_name(v: &Vec<String>, name: &String) -> (r: bool)
    ensures
        r == views_of(v@).contains(name@),
{
    let mut i: usize = 0;
    while i < v.len()
        invariant
            0 <= i <= v.len(),
            forall|k: int| 0 <= k < i ==> v@[k]@ != name@,
        decreases v.len() - i,
    {
        if v[i] == *name {
            assert(views_of(v@)[i as int] == name@);
            return true;
        }
        i += 1;
    }
    assert(!views_of(v@).contains(name@)) by {
        if views_of(v@).contains(name@) {
            let k = choose|k: int| 0 <= k < views_of(v@).len() && views_of(v@)[k] == name@;
            assert(v@[k]@ == name@);
        }
    }
    false
}

impl MemLoader {
    /// A loader over the in-memory sources; each key is loaded in key
    /// order, under the import name it stands for.
    pub fn new(files: Vec<(String, String)>) -> (r: MemLoader)
        ensures
            r.wf(),
            r.files@ == files@,
            views_of(r.order@) == key_order(files@),
            r.next_key == 0,
            r.done@.len() == 0,
            r.modules@.len() == 0,
            r.errors@.len() == 0,
            r.stack@.len() == 0,
            r.pending is None,
            r.accounted(),
            r.passed_claimed(),
            r.shaped(),
    {
        let order = sorted_import_names(&files);
        let r = MemLoader {
            files,
            order,
            next_key: 0,
            done: Vec::new(),
            modules: Vec::new(),
            errors: Vec::new(),
            stack: Vec::new(),
            pending: None,
            failed: Ghost(Seq::empty()),
        };
        proof {
            assert(views_of(r.done@) =~= Seq::<Seq<char>>::empty());
            assert(mod_names(r.modules@) =~= Seq::<Seq<char>>::empty());
            assert(frame_names(r.stack@) =~= Seq::<Seq<char>>::empty());
        }
        r
    }

    /// Claims the name `import` binds and, unless it was claimed before,
    /// loads a built-in module at once, reports a missing source, or asks
    /// for the source to be parsed.
    fn load_memory_module(&mut self, import: &String) -> (r: Option<LoadStep>)
        requires
            old(self).wf(),
            old(self).accounted(),
            old(self).pending is None,
        ensures
            final(self).wf(),
            final(self).accounted(),
            views_of(final(self).done@).contains(bind_name(import@)),
            final(self).failed@.len() >= old(self).failed@.len(),
            final(self).adds_only_skips(old(self)),
            r is Some ==> !builtin_names().contains(bind_name(import@)),
            final(self).grows_from(old(self)),
            final(self).next_key == old(self).next_key,
            final(self).stack@ == old(self).stack@,
            views_of(old(self).done@).contains(bind_name(import@)) ==> *final(self) == *old(self)
                && r is None,
            !views_of(old(self).done@).contains(bind_name(import@)) ==> views_of(final(self).done@)
                == views_of(old(self).done@).push(bind_name(import@)),
            !views_of(old(self).done@).contains(bind_name(import@)) && builtin_names().contains(
                bind_name(import@),
            ) ==> r is None && final(self).pending is None && final(self).errors@ == old(
                self,
            ).errors@ && mod_names(final(self).modules@) == mod_names(old(self).modules@).push(
                bind_name(import@),
            ),
            !views_of(old(self).done@).contains(bind_name(import@)) && !builtin_names().contains(
                bind_name(import@),
            ) ==> final(self).modules@ == old(self).modules@ && match source_for(
                old(self).files@,
                import@,
            ) {
                None => r is None && final(self).pending is None && views_of(final(self).errors@)
                    == views_of(old(self).errors@).push(missing_text(import@)),
                Some(src) => {
                    &&& final(self).errors@ == old(self).errors@
                    &&& final(self).pending matches Some(p) && p@ == bind_name(import@)
                    &&& r matches Some(LoadStep::Parse { name, source }) && name@ == bind_name(
                        import@,
                    ) && source@ == src
                },
            },
    {
        let name = module_bind_name(import.as_str());
        if contains_name(&self.done, &name) {
            proof {
                lemma_grows_refl(*self);
            }
            return None;
        }
        let ghost a = *self;
        proof {
            lemma_fresh(*self, name@);
        }
        let ghost old_done = views_of(self.done@);
        self.done.push(name.clone());
        proof {
            assert(views_of(self.done@) =~= old_done.push(name@));
            lemma_claim_keeps(*old(self), *self, name@);
            assert(views_of(self.done@)[old_done.len() as int] == name@);
        }
        let nc = chars_of(name.as_str());
        if is_builtin(nc.as_slice()) {
            let ghost old_names = mod_names(self.modules@);
            let ghost before = *self;
            self.modules.push(LoadedModule { name, program: None, path: None });
            proof {
                assert(mod_names(self.modules@) =~= old_names.push(bind_name(import@)));
                lemma_module_added(before, *self, bind_name(import@));
                assert(self.modules@.take(old(self).modules@.len() as int) =~= old(self).modules@);
                assert(views_of(self.errors@).take(old(self).errors@.len() as int) =~= views_of(
                    old(self).errors@,
                ));
                broadcast use vstd::seq_lib::lemma_seq_contains_after_push;
                assert(mod_names(self.modules@).contains(name@));
                lemma_accounted_claim(a, *self, name@);
                assert(self.modules@.last().name@ == name@);
                assert(builtin_names().contains(self.modules@.last().name@));
            }
            return None;
        }
        match lookup_memory_source(&self.files, import.as_str()) {
            None => {
                let mut msg: Vec<char> = Vec::new();
                push_str(&mut msg, "Cannot find module '");
                push_str(&mut msg, import.as_str());
                push_str(&mut msg, "' in memory");
                let ghost old_errors = views_of(self.errors@);
                self.errors.push(string_of(msg.as_slice()));
                proof {
                    broadcast use vstd::seq_lib::lemma_seq_contains_after_push;
                    self.failed@ = self.failed@.push(name@);
                    lemma_accounted_claim(a, *self, name@);
                    assert(self.errors@.last()@ == missing_text(import@));
                    assert(bind_name(import@) == name@);
                    assert(is_missing_report(
                        self.files@,
                        self.errors@[self.errors@.len() - 1]@,
                        self.failed@[self.failed@.len() - 1],
                    ));
                    assert(self.failed@.take(old(self).failed@.len() as int) =~= old(self).failed@);
                    assert(views_of(self.errors@) =~= old_errors.push(missing_text(import@)));
                    assert(views_of(self.errors@).take(old_errors.len() as int) =~= old_errors);
                    assert(self.modules@.take(old(self).modules@.len() as int) =~= old(
                        self,
                    ).modules@);
                }
                None
            },
            Some(src) => {
                let source = src.clone();
                self.pending = Some(name.clone());
                proof {
                    lemma_accounted_claim(a, *self, name@);
                    assert(views_of(self.errors@).take(old(self).errors@.len() as int) =~= views_of(
                        old(self).errors@,
                    ));
                    assert(self.modules@.take(old(self).modules@.len() as int) =~= old(
                        self,
                    ).modules@);
                }
                Some(LoadStep::Parse { name, source })
            },
        }
    }

    /// Runs the loader up to the next module to parse, or to its end. The
    /// traversal takes the top frame's next import, else finishes the top
    /// frame (its module is loaded), else takes the next key; an import
    /// whose name is claimed already, that is built in (loaded at once,
    /// never parsed) or that has no source (a problem) is passed over.
    #[verifier::spinoff_prover]
    #[verifier::rlimit(100)]
    pub fn next(&mut self) -> (r: LoadStep)
        requires
            old(self).wf(),
            old(self).accounted(),
            old(self).passed_claimed(),
            old(self).pending is None,
        ensures
            final(self).wf(),
            final(self).accounted(),
            final(self).passed_claimed(),
            final(self).grows_from(old(self)),
            final(self).stack_follows(old(self)),
            final(self).adds_only_skips(old(self)),
            old(self).shaped() ==> final(self).shaped(),
            final(self).next_key >= old(self).next_key,
            match r {
                LoadStep::Parse { name, source } => {
                    &&& final(self).pending matches Some(p) && p@ == name@
                    &&& !views_of(old(self).done@).contains(name@)
                    &&& !builtin_names().contains(name@)
                    &&& if final(self).stack@.len() > 0 {
                        let f = final(self).stack@.last();
                        &&& final(self).next_key == old(self).next_key
                        &&& 0 < f.next <= f.nested@.len()
                        &&& bind_name(f.nested@[f.next - 1]@) == name@
                        &&& source_for(final(self).files@, f.nested@[f.next - 1]@) == Some(source@)
                    } else {
                        &&& 0 < final(self).next_key <= final(self).order@.len()
                        &&& bind_name(final(self).order@[final(self).next_key - 1]@) == name@
                        &&& source_for(final(self).files@, final(self).order@[final(self).next_key - 1]@)
                            == Some(source@)
                    }
                },
                LoadStep::Finished => {
                    &&& final(self).pending is None
                    &&& final(self).stack@.len() == 0
                    &&& final(self).next_key == final(self).order@.len()
                },
            },
    {
        proof {
            lemma_frames_work_nonneg(self.stack@);
            lemma_grows_refl(*self);
            assert(self.stack_follows(old(self)));
        }
        loop
            invariant
                self.wf(),
                self.accounted(),
                self.passed_claimed(),
                self.grows_from(old(self)),
                self.stack_follows(old(self)),
                self.adds_only_skips(old(self)),
                self.next_key >= old(self).next_key,
                self.pending is None,
                self.files@ == old(self).files@,
                self.order@ == old(self).order@,
                self.stack@.len() > 0 ==> self.next_key == old(self).next_key,
            decreases self.work(),
        {
            let ghost prev = *self;
            let ghost st = self.stack@;
            proof {
                lemma_frames_work_nonneg(self.stack@);
            }
            let n = self.stack.len();
            if n > 0 && self.stack[n - 1].next < self.stack[n - 1].nested.len() {
                let k = self.stack[n - 1].next;
                let import = self.stack[n - 1].nested[k].clone();
                let step = self.load_memory_module(&import);
                let ghost mid = *self;
                proof {
                    lemma_grows_trans(*old(self), prev, mid);
                    lemma_grows_contains(prev, mid);
                    lemma_skips_trans(*old(self), prev, mid);
                }
                let mut f = match self.stack.pop() {
                    Some(f) => f,
                    None => {
                        assert(false);
                        return LoadStep::Finished;
                    },
                };
                f.next = f.next + 1;
                self.stack.push(f);
                proof {
                    assert(self.stack@.drop_last() =~= st.drop_last());
                    assert(self.stack@.len() == st.len());
                    assert forall|i: int| 0 <= i < self.stack@.len() - 1 implies #[trigger] self.stack@[i] == st[i] by {
                        assert(self.stack@.drop_last()[i] == st.drop_last()[i]);
                    }
                    assert(frame_names(self.stack@) =~= frame_names(st));
                    assert forall|i: int| 0 <= i < self.stack@.len() implies (
                    #[trigger] self.stack@[i]).next <= self.stack@[i].nested@.len() by {
                        if i < st.len() - 1 {
                            assert(self.stack@[i] == st[i]);
                        }
                    }
                    lemma_grows_same(mid, *self);
                    lemma_grows_trans(*old(self), mid, *self);
                    assert forall|i: int, j: int|
                        0 <= i < self.stack@.len() && 0 <= j < self.stack@[i].next implies views_of(
                        self.done@,
                    ).contains(bind_name(#[trigger] self.stack@[i].nested@[j]@)) by {
                        if i < st.len() - 1 {
                            assert(self.stack@[i] == st[i]);
                            assert(views_of(prev.done@).contains(bind_name(st[i].nested@[j]@)));
                        } else if j < k {
                            assert(views_of(prev.done@).contains(bind_name(st[i].nested@[j]@)));
                        }
                    }
                    assert forall|kk: int| 0 <= kk < self.next_key implies views_of(self.done@).contains(
                        bind_name(#[trigger] self.order@[kk]@),
                    ) by {
                        assert(views_of(prev.done@).contains(bind_name(prev.order@[kk]@)));
                    }
                    lemma_frames_work_nonneg(self.stack@.drop_last());
                    assert(frames_work(self.stack@) == frames_work(self.stack@.drop_last()) + (
                    self.stack@.last().nested@.len() - self.stack@.last().next));
                    assert(frames_work(st) == frames_work(st.drop_last()) + (st.last().nested@.len()
                        - st.last().next));
                    assert forall|i: int| 0 <= i < self.stack@.len() implies #[trigger] self.stack@[i].name@
                        == old(self).stack@[i].name@ && self.stack@[i].nested@ == old(self).stack@[i].nested@
                        && self.stack@[i].next >= old(self).stack@[i].next
                        && self.stack@[i].program == old(self).stack@[i].program by {
                        assert(prev.stack@[i].name@ == old(self).stack@[i].name@);
                        assert(prev.stack@[i].program == old(self).stack@[i].program);
                        if i < st.len() - 1 {
                            assert(self.stack@[i] == st[i]);
                        }
                    }
                    assert forall|i: int, j: int|
                        self.stack@.len() <= i < old(self).stack@.len() && 0 <= j < old(self).stack@[i].nested@.len()
                            implies views_of(self.done@).contains(bind_name(#[trigger] old(self).stack@[i].nested@[j]@)) by {
                        assert(views_of(prev.done@).contains(bind_name(old(self).stack@[i].nested@[j]@)));
                    }
                    assert forall|i: int| self.stack@.len() <= i < old(self).stack@.len() implies mod_names(
                        self.modules@,
                    ).contains(#[trigger] old(self).stack@[i].name@) by {
                        assert(mod_names(prev.modules@).contains(old(self).stack@[i].name@));
                    }
                    assert(self.adds_only_skips(old(self)));
                    assert(self.stack_follows(old(self)));
                }
                match step {
                    Some(s) => {
                        proof {
                            assert(!views_of(prev.done@).contains(bind_name(import@)));
                            assert(source_for(prev.files@, import@) is Some);
                            assert(self.errors@ == prev.errors@);
                            assert(self.modules@ == prev.modules@);
                            lemma_grows_contains(*old(self), prev);
                            assert(!views_of(old(self).done@).contains(bind_name(import@)));
                        }
                        proof {
                            if old(self).shaped() {
                                lemma_shaped_kept(*old(self), *self);
                            }
                        }
                        return s;
                    },
                    None => {},
                }
            } else if n > 0 {
                let f = match self.stack.pop() {
                    Some(f) => f,
                    None => {
                        assert(false);
                        return LoadStep::Finished;
                    },
                };
                proof {
                    assert(st.last() == f);
                    assert(st.drop_last() == self.stack@);
                    assert(frame_names(self.stack@) =~= frame_names(st).drop_last());
                    assert(frame_names(st)[st.len() - 1] == f.name@);
                }
                let ghost old_names = mod_names(self.modules@);
                self.modules.push(LoadedModule { name: f.name, program: Some(f.program), path: None });
                proof {
                    broadcast use vstd::seq_lib::lemma_seq_contains_after_push;

                    assert(mod_names(self.modules@) =~= old_names.push(frame_names(st)[st.len() - 1]));
                    assert forall|i: int, j: int|
                        0 <= i < self.modules@.len() && 0 <= j < self.stack@.len() implies mod_names(
                        self.modules@,
                    )[i] != frame_names(self.stack@)[j] by {
                        assert(frame_names(self.stack@)[j] == frame_names(st)[j]);
                        if i == self.modules@.len() - 1 {
                            assert(mod_names(self.modules@)[i] == frame_names(st)[st.len() - 1]);
                        } else {
                            assert(mod_names(self.modules@)[i] == old_names[i]);
                        }
                    }
                    assert forall|i: int, j: int|
                        0 <= i < j < self.modules@.len() implies mod_names(self.modules@)[i]
                        != mod_names(self.modules@)[j] by {
                        if j == self.modules@.len() - 1 {
                            assert(mod_names(self.modules@)[i] == old_names[i]);
                        }
                    }
                    assert forall|i: int| 0 <= i < self.stack@.len() implies (
                    #[trigger] self.stack@[i]).next <= self.stack@[i].nested@.len() by {
                        assert(self.stack@[i] == st[i]);
                    }
                    assert(self.modules@.take(prev.modules@.len() as int) =~= prev.modules@);
                    assert(views_of(self.done@).take(prev.done@.len() as int) =~= views_of(prev.done@));
                    assert(views_of(self.errors@).take(prev.errors@.len() as int) =~= views_of(
                        prev.errors@,
                    ));
                    assert(self.failed@.take(prev.failed@.len() as int) =~= prev.failed@);
                    lemma_grows_trans(*old(self), prev, *self);
                    lemma_grows_contains(prev, *self);
                    assert(st.last().next == st.last().nested@.len());
                    // accounted: the finished frame's name is now loaded
                    assert forall|x: Seq<char>| #[trigger] views_of(self.done@).contains(x) implies mod_names(
                        self.modules@,
                    ).contains(x) || frame_names(self.stack@).contains(x) || (self.pending matches Some(p)
                        && p@ == x) || self.failed@.contains(x) by {
                        if frame_names(st).contains(x) && x != f.name@ {
                            let q = choose|q: int| 0 <= q < st.len() && frame_names(st)[q] == x;
                            assert(q != st.len() - 1);
                            assert(frame_names(self.stack@)[q] == x);
                        }
                    }
                    assert forall|i: int, j: int|
                        0 <= i < self.stack@.len() && 0 <= j < self.stack@[i].next implies views_of(
                        self.done@,
                    ).contains(bind_name(#[trigger] self.stack@[i].nested@[j]@)) by {
                        assert(self.stack@[i] == st[i]);
                        assert(views_of(prev.done@).contains(bind_name(st[i].nested@[j]@)));
                    }
                    assert forall|kk: int| 0 <= kk < self.next_key implies views_of(self.done@).contains(
                        bind_name(#[trigger] self.order@[kk]@),
                    ) by {
                        assert(views_of(prev.done@).contains(bind_name(prev.order@[kk]@)));
                    }
                    // the finished frame had every import claimed
                    assert forall|j: int| 0 <= j < st.last().nested@.len() implies views_of(
                        self.done@,
                    ).contains(bind_name(#[trigger] st.last().nested@[j]@)) by {
                        assert(st.last() == st[st.len() - 1]);
                        assert(views_of(prev.done@).contains(bind_name(st[st.len() - 1].nested@[j]@)));
                    }
                    assert(mod_names(self.modules@).contains(st.last().name@));
                    lemma_frames_work_nonneg(self.stack@);
                    lemma_grows_contains(prev, *self);
                    assert forall|i: int| 0 <= i < self.stack@.len() implies #[trigger] self.stack@[i].name@
                        == old(self).stack@[i].name@ && self.stack@[i].nested@ == old(self).stack@[i].nested@
                        && self.stack@[i].next >= old(self).stack@[i].next && self.stack@[i].program
                        == old(self).stack@[i].program by {
                        assert(self.stack@[i] == st[i]);
                        assert(prev.stack@[i].name@ == old(self).stack@[i].name@);
                    }
                    assert forall|i: int, j: int|
                        self.stack@.len() <= i < old(self).stack@.len() && 0 <= j < old(self).stack@[i].nested@.len()
                            implies views_of(self.done@).contains(bind_name(#[trigger] old(self).stack@[i].nested@[j]@)) by {
                        if i == st.len() - 1 {
                            assert(prev.stack@[i].nested@ == old(self).stack@[i].nested@);
                            assert(st.last().nested@[j] == old(self).stack@[i].nested@[j]);
                        } else {
                            assert(views_of(prev.done@).contains(bind_name(old(self).stack@[i].nested@[j]@)));
                        }
                    }
                    assert forall|i: int| self.stack@.len() <= i < old(self).stack@.len() implies mod_names(
                        self.modules@,
                    ).contains(#[trigger] old(self).stack@[i].name@) by {
                        if i == st.len() - 1 {
                            assert(prev.stack@[i].name@ == old(self).stack@[i].name@);
                        } else {
                            assert(mod_names(prev.modules@).contains(old(self).stack@[i].name@));
                        }
                    }
                    assert(self.stack_follows(old(self)));
                    assert(prev.stack@[st.len() - 1].name@ == old(self).stack@[st.len() - 1].name@);
                    assert(prev.stack@[st.len() - 1].program == old(self).stack@[st.len() - 1].program);
                    assert(finished_from(self.modules@.last(), old(self).stack@));
                    assert forall|kk: int|
                        #![trigger self.modules@[kk]]
                        old(self).modules@.len() <= kk < self.modules@.len() implies builtin_module(self.modules@[kk])
                        || finished_from(self.modules@[kk], old(self).stack@) by {
                        if kk < prev.modules@.len() {
                            assert(self.modules@[kk] == prev.modules@[kk]);
                        }
                    }
                }
            } else if self.next_key < self.order.len() {
                let import = self.order[self.next_key].clone();
                let step = self.load_memory_module(&import);
                let ghost mid = *self;
                self.next_key = self.next_key + 1;
                proof {
                    lemma_skips_trans(*old(self), prev, mid);
                    lemma_grows_trans(*old(self), prev, mid);
                    lemma_grows_contains(prev, mid);
                    lemma_grows_same(mid, *self);
                    lemma_grows_trans(*old(self), mid, *self);
                    assert forall|kk: int| 0 <= kk < self.next_key implies views_of(self.done@).contains(
                        bind_name(#[trigger] self.order@[kk]@),
                    ) by {
                        if kk < prev.next_key {
                            assert(views_of(prev.done@).contains(bind_name(prev.order@[kk]@)));
                        }
                    }
                    assert forall|i: int, j: int|
                        self.stack@.len() <= i < old(self).stack@.len() && 0 <= j < old(self).stack@[i].nested@.len()
                            implies views_of(self.done@).contains(bind_name(#[trigger] old(self).stack@[i].nested@[j]@)) by {
                        assert(views_of(prev.done@).contains(bind_name(old(self).stack@[i].nested@[j]@)));
                    }
                    assert forall|i: int| self.stack@.len() <= i < old(self).stack@.len() implies mod_names(
                        self.modules@,
                    ).contains(#[trigger] old(self).stack@[i].name@) by {
                        assert(mod_names(prev.modules@).contains(old(self).stack@[i].name@));
                    }
                    assert(self.stack_follows(old(self)));
                }
                match step {
                    Some(s) => {
                        proof {
                            assert(!views_of(prev.done@).contains(bind_name(import@)));
                            assert(source_for(prev.files@, import@) is Some);
                            assert(self.errors@ == prev.errors@);
                            assert(self.modules@ == prev.modules@);
                            lemma_grows_contains(*old(self), prev);
                            assert(!views_of(old(self).done@).contains(bind_name(import@)));
                        }
                        proof {
                            if old(self).shaped() {
                                lemma_shaped_kept(*old(self), *self);
                            }
                        }
                        return s;
                    },
                    None => {},
                }
            } else {
                proof {
                    if old(self).shaped() {
                        lemma_shaped_kept(*old(self), *self);
                    }
                }
                return LoadStep::Finished;
            }
        }
    }

    /// Hands back the parse result of the module the last step named: a
    /// failed parse is collected; a module that holds more than
    /// definitions, imports and exports is reported; otherwise its imports
    /// are loaded next, and the module after them.
    pub fn parsed(&mut self, result: Result<Program, String>)
        requires
            old(self).wf(),
            old(self).accounted(),
            old(self).passed_claimed(),
            old(self).pending is Some,
        ensures
            final(self).wf(),
            final(self).accounted(),
            final(self).passed_claimed(),
            final(self).grows_from(old(self)),
            final(self).pending is None,
            final(self).modules@ == old(self).modules@,
            old(self).shaped() ==> final(self).shaped(),
            final(self).next_key == old(self).next_key,
            match result {
                Err(e) => views_of(final(self).errors@) == views_of(old(self).errors@).push(e@)
                    && final(self).failed@ == old(self).failed@.push(old(self).pending->0@)
                    && final(self).stack@ == old(self).stack@,
                Ok(p) => if forall|i: int|
                    0 <= i < p.statements@.len() ==> module_stmt_allowed(
                        #[trigger] p.statements@[i].node,
                    ) {
                    &&& final(self).errors@ == old(self).errors@
                    &&& final(self).failed@ == old(self).failed@
                    &&& final(self).stack@.len() == old(self).stack@.len() + 1
                    &&& final(self).stack@.drop_last() == old(self).stack@
                    &&& final(self).stack@.last().name@ == old(self).pending->0@
                    &&& final(self).stack@.last().program.statements@ == without_imports(
                        p.statements@,
                    )
                    &&& views_of(final(self).stack@.last().nested@) == add_export_roots(
                        import_names(p.statements@),
                        without_imports(p.statements@),
                    )
                    &&& final(self).stack@.last().next == 0
                } else {
                    &&& views_of(final(self).errors@) == views_of(old(self).errors@).push(
                        module_error_text(old(self).pending->0@),
                    )
                    &&& final(self).failed@ == old(self).failed@.push(old(self).pending->0@)
                    &&& final(self).stack@ == old(self).stack@
                },
            },
    {
        let mut pend: Option<String> = None;
        std::mem::swap(&mut pend, &mut self.pending);
        let name = match pend {
            Some(n) => n,
            None => {
                assert(false);
                String::new()
            },
        };
        let ghost old_errors = views_of(self.errors@);
        let ghost a = *old(self);
        match result {
            Err(e) => {
                self.errors.push(e);
                assert(views_of(self.errors@) =~= old_errors.push(e@));
                proof {
                    self.failed@ = self.failed@.push(name@);
                    assert(self.failed@.take(old(self).failed@.len() as int) =~= old(self).failed@);
                }
            },
            Ok(mut p) => {
                match validate_module_program_result(name.as_str(), &p) {
                    Err(e) => {
                        self.errors.push(e);
                        assert(views_of(self.errors@) =~= old_errors.push(
                            module_error_text(name@),
                        ));
                        proof {
                            self.failed@ = self.failed@.push(name@);
                            assert(self.failed@.take(old(self).failed@.len() as int) =~= old(self).failed@);
                        }
                    },
                    Ok(()) => {
                        let nested = extract_imports(&mut p);
                        let ghost old_frames = frame_names(self.stack@);
                        let ghost old_stack = self.stack@;
                        self.stack.push(Frame { name, program: p, nested, next: 0 });
                        proof {
                            assert(frame_names(self.stack@) =~= old_frames.push(
                                old(self).pending->0@,
                            ));
                            assert forall|i: int| 0 <= i < self.stack@.len() implies (
                            #[trigger] self.stack@[i]).next <= self.stack@[i].nested@.len() by {
                                if i < old_stack.len() {
                                    assert(self.stack@[i] == old_stack[i]);
                                }
                            }
                            assert forall|i: int, j: int|
                                0 <= i < j < self.stack@.len() implies frame_names(
                                self.stack@,
                            )[i] != frame_names(self.stack@)[j] by {
                                if j == self.stack@.len() - 1 {
                                    assert(frame_names(self.stack@)[i] == old_frames[i]);
                                }
                            }
                            assert forall|i: int, j: int|
                                0 <= i < self.modules@.len() && 0 <= j < self.stack@.len()
                                    implies mod_names(self.modules@)[i] != frame_names(
                                self.stack@,
                            )[j] by {
                                if j < old_stack.len() {
                                    assert(frame_names(self.stack@)[j] == old_frames[j]);
                                }
                            }
                            assert forall|i: int| 0 <= i < self.stack@.len() implies views_of(
                                self.done@,
                            ).contains(#[trigger] frame_names(self.stack@)[i]) by {
                                if i < old_stack.len() {
                                    assert(frame_names(self.stack@)[i] == old_frames[i]);
                                }
                            }
                        }
                    },
                }
            },
        }
        proof {
            assert(views_of(self.errors@).take(old(self).errors@.len() as int) =~= views_of(
                old(self).errors@,
            ));
            assert(self.modules@.take(old(self).modules@.len() as int) =~= old(self).modules@);
            assert(views_of(self.done@).take(old(self).done@.len() as int) =~= views_of(
                old(self).done@,
            ));
            broadcast use vstd::seq_lib::lemma_seq_contains_after_push;

            assert forall|x: Seq<char>| #[trigger] views_of(self.done@).contains(x) implies mod_names(
                self.modules@,
            ).contains(x) || frame_names(self.stack@).contains(x) || (self.pending matches Some(p) && p@ == x)
                || self.failed@.contains(x) by {
                assert(views_of(a.done@).contains(x));
                if frame_names(a.stack@).contains(x) && !frame_names(self.stack@).contains(x) {
                    let q = choose|q: int| 0 <= q < a.stack@.len() && frame_names(a.stack@)[q] == x;
                    assert(frame_names(self.stack@)[q] == x);
                }
            }
            assert forall|i: int, j: int|
                0 <= i < self.stack@.len() && 0 <= j < self.stack@[i].next implies views_of(
                self.done@,
            ).contains(bind_name(#[trigger] self.stack@[i].nested@[j]@)) by {
                if i < a.stack@.len() {
                    assert(self.stack@[i] == a.stack@[i]);
                }
            }
            assert(self.failed@.take(old(self).failed@.len() as int) =~= old(self).failed@);
        }
    }

    /// The loaded modules, or every collected problem, one per line.
    pub fn finish(self) -> (r: Result<Vec<LoadedModule>, String>)
        requires
            self.wf(),
        ensures
            r matches Ok(ms) ==> distinct(mod_names(ms@)),
            self.errors@.len() == 0 ==> (r matches Ok(ms) && ms@ == self.modules@),
            self.errors@.len() > 0 ==> (r matches Err(e) && e@ == join_newline(
                views_of(self.errors@),
            )),
    {
        if self.errors.len() == 0 {
            return Ok(self.modules);
        }
        let mut out: Vec<char> = Vec::new();
        let mut i: usize = 0;
        while i < self.errors.len()
            invariant
                0 <= i <= self.errors.len(),
                self.errors@.len() > 0,
                i > 0 ==> out@ == join_newline(views_of(self.errors@).take(i as int)),
                i == 0 ==> out@.len() == 0,
            decreases self.errors.len() - i,
        {
            let ghost prev_out = out@;
            if i > 0 {
                out.push('\n');
            }
            push_str(&mut out, self.errors[i].as_str());
            i += 1;
            proof {
                let t = views_of(self.errors@).take(i as int);
                assert(t.drop_last() =~= views_of(self.errors@).take(i - 1));
                assert(t.last() == self.errors@[i - 1]@);
                if i == 1 {
                    assert(out@ =~= t[0]);
                } else {
                    assert(out@ =~= join_newline(t.drop_last()) + seq!['\n'] + t.last());
                }
            }
        }
        assert(views_of(self.errors@).take(self.errors.len() as int) =~= views_of(self.errors@));
        Err(string_of(out.as_slice()))
    }
}

/// The label errors of module `name` are rendered under.
pub open spec fn module_label(name: Seq<char>) -> Seq<char> {
    "Module '"@ + name + "' error"@
}

/// An error rendered against `source` under `label`.
pub open spec fn rendered(e: HuziError, source: Seq<char>, label: Seq<char>, color: bool) -> Seq<char> {
    render_spec(e.message@, e.line as nat, e.column as nat, source, label, color)
}

/// Errors rendered, in order.
pub open spec fn rendered_all(es: Seq<HuziError>, source: Seq<char>, label: Seq<char>, color: bool) -> Seq<
    Seq<char>,
> {
    es.map_values(|e: HuziError| rendered(e, source, label, color))
}

/// The parse result of in-memory module `name` from the outcome of lexing
/// and parsing its source: a lexing error, or every parse error, rendered
/// against the source under `Module '<name>' error` and joined one per
/// line; the syntax tree when there is no error.
pub fn memory_parse_result(
    name: &str,
    source: &str,
    outcome: Result<(Program, Vec<HuziError>), HuziError>,
    color: bool,
) -> (r: Result<Program, String>)
    ensures
        match outcome {
            Err(e) => r matches Err(m) && m@ == rendered(e, source@, module_label(name@), color),
            Ok((p, es)) => if es@.len() == 0 {
                r == Ok::<Program, String>(p)
            } else {
                r matches Err(m) && m@ == join_newline(
                    rendered_all(es@, source@, module_label(name@), color),
                )
            },
        },
{
    let mut lv: Vec<char> = Vec::new();
    push_str(&mut lv, "Module '");
    push_str(&mut lv, name);
    push_str(&mut lv, "' error");
    let label = string_of(lv.as_slice());
    assert(label@ == module_label(name@));
    match outcome {
        Err(e) => Err(render_with_color(&e, source, label.as_str(), color)),
        Ok((program, errors)) => {
            if errors.len() == 0 {
                return Ok(program);
            }
            let ghost all = rendered_all(errors@, source@, label@, color);
            let mut out: Vec<char> = Vec::new();
            let mut i: usize = 0;
            while i < errors.len()
                invariant
                    0 <= i <= errors.len(),
                    errors@.len() > 0,
                    label@ == module_label(name@),
                    all == rendered_all(errors@, source@, label@, color),
                    i > 0 ==> out@ == join_newline(all.take(i as int)),
                    i == 0 ==> out@.len() == 0,
                decreases errors.len() - i,
            {
                if i > 0 {
                    out.push('\n');
                }
                let one = render_with_color(&errors[i], source, label.as_str(), color);
                push_str(&mut out, one.as_str());
                i += 1;
                proof {
                    let t = all.take(i as int);
                    assert(t.drop_last() =~= all.take(i - 1));
                    assert(t.last() == one@);
                    if i == 1 {
                        assert(out@ =~= t[0]);
                    } else {
                        assert(out@ =~= join_newline(t.drop_last()) + seq!['\n'] + t.last());
                    }
                }
            }
            assert(all.take(errors.len() as int) =~= all);
            Err(string_of(out.as_slice()))
        },
    }
}

} // verus!
