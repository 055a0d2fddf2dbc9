//! Loading the modules a program imports from disk. The loader is a state
//! machine: it asks its caller to resolve an import to a file (see
//! `resolve`), then to read and parse that file, and decides everything
//! else itself. A module is loaded once per name it binds; an import that
//! names an already loaded module by another file is an error; modules are
//! listed after the modules they import. The first problem ends the load.
use crate::ast::Program;
use crate::loader::{distinct, mod_names, module_label, rendered};
use crate::modules::{
    add_export_roots, bind_name, builtin_names, extract_imports, import_names, is_builtin,
    module_bind_name, module_error_text, module_stmt_allowed, validate_module_program_result,
    views_of, without_imports, LoadedModule,
};
use crate::paths::{opt_text, path_parent, path_parent_text};
use crate::render::{render_with_color, HuziError};
use crate::text::{chars_of, push_str, string_of};
use vstd::prelude::*;

verus! {

/// A module whose imports are being loaded: its bound name, its file, its
/// syntax tree without the imports, the modules it imports, how many of
/// them were visited, and the directory its imports are resolved from.
pub struct DiskFrame {
    pub name: String,
    pub path: String,
    pub program: Program,
    pub nested: Vec<String>,
    pub next: usize,
    pub dir: String,
}

/// What the loader waits for.
pub enum Pending {
    Nothing,
    /// The file `import` resolves to from `dir`, for module `name`.
    Resolve { name: String, import: String, dir: String },
    /// The syntax tree of module `name` in file `path`.
    Read { name: String, path: String },
}

/// What the loader needs next.
pub enum DiskStep {
    /// Resolve `import` to a file, looking from `dir`; answer with
    /// `resolved`.
    Resolve { import: String, dir: String },
    /// Read and parse `path`; answer with `read`.
    Read { name: String, path: String },
    /// Every module is loaded, or the load failed.
    Finished,
}

pub struct DiskLoader {
    /// The imports of the main program and the directory they are
    /// resolved from.
    pub top: Vec<String>,
    pub base_dir: String,
    pub next_top: usize,
    /// The file each module name was resolved to.
    pub loaded: Vec<(String, String)>,
    pub modules: Vec<LoadedModule>,
    pub stack: Vec<DiskFrame>,
    pub pending: Pending,
    pub failed: Option<String>,
}

pub open spec fn dframe_names(fs: Seq<DiskFrame>) -> Seq<Seq<char>> {
    fs.map_values(|f: DiskFrame| f.name@)
}

pub open spec fn loaded_names(l: Seq<(String, String)>) -> Seq<Seq<char>> {
    l.map_values(|p: (String, String)| p.0@)
}

/// No element of `a` is an element of `b`.
pub open spec fn disjoint(a: Seq<Seq<char>>, b: Seq<Seq<char>>) -> bool {
    forall|i: int, j: int| 0 <= i < a.len() && 0 <= j < b.len() ==> a[i] != b[j]
}

/// Every element of `a` is in `b`.
pub open spec fn all_in(a: Seq<Seq<char>>, b: Seq<Seq<char>>) -> bool {
    forall|i: int| 0 <= i < a.len() ==> b.contains(#[trigger] a[i])
}

pub open spec fn dframes_work(fs: Seq<DiskFrame>) -> int
    decreases fs.len(),
{
    if fs.len() == 0 {
        0
    } else {
        dframes_work(fs.drop_last()) + (fs.last().nested@.len() - fs.last().next)
    }
}

/// The file a module name was resolved to, if it was.
pub open spec fn loaded_path(l: Seq<(String, String)>, name: Seq<char>) -> Option<Seq<char>>
    decreases l.len(),
{
    if l.len() == 0 {
        None
    } else if l.last().0@ == name {
        Some(l.last().1@)
    } else {
        loaded_path(l.drop_last(), name)
    }
}

/// A built-in module as the loader records it: no tree and no file.
pub open spec fn builtin_dmodule(m: LoadedModule) -> bool {
    builtin_names().contains(m.name@) && m.program is None && m.path is None
}

/// `m` is the module of one of the frames `fs`, carrying that frame's tree
/// and file.
pub open spec fn dfinished_from(m: LoadedModule, fs: Seq<DiskFrame>) -> bool {
    exists|i: int|
        0 <= i < fs.len() && m.name@ == fs[i].name@ && m.program == Some(fs[i].program)
            && m.path == Some(fs[i].path)
}

/// The report of a module name that two imports resolve to different
/// files.
pub open spec fn conflict_text(name: Seq<char>, prev: Seq<char>, path: Seq<char>) -> Seq<char> {
    "Module '"@ + name + "' resolves to different files: "@ + prev + " and "@ + path
}

/// The directory a module's imports are resolved from: its file's
/// directory, or `.`.
pub open spec fn module_dir_text(path: Seq<char>) -> Seq<char> {
    match path_parent_text(path) {
        Some(d) => d,
        None => "."@,
    }
}

impl DiskLoader {
    pub open spec fn wf(&self) -> bool {
        &&& self.next_top <= self.top@.len()
        &&& forall|i: int|
            0 <= i < self.stack@.len() ==> (#[trigger] self.stack@[i]).next <= self.stack@[i].nested@.len()
        &&& distinct(mod_names(self.modules@))
        &&& distinct(dframe_names(self.stack@))
        &&& disjoint(mod_names(self.modules@), dframe_names(self.stack@))
        &&& all_in(dframe_names(self.stack@), loaded_names(self.loaded@))
        &&& forall|i: int|
            0 <= i < self.stack@.len() ==> !builtin_names().contains(
                #[trigger] dframe_names(self.stack@)[i],
            )
        &&& match self.pending {
            Pending::Nothing => true,
            Pending::Resolve { name, import, dir } => !mod_names(self.modules@).contains(name@)
                && !builtin_names().contains(name@),
            Pending::Read { name, path } => {
                &&& !builtin_names().contains(name@)
                &&& !mod_names(self.modules@).contains(name@)
                &&& !dframe_names(self.stack@).contains(name@)
                &&& loaded_names(self.loaded@).contains(name@)
            },
        }
    }

    pub open spec fn work(&self) -> int {
        (self.top@.len() - self.next_top) + dframes_work(self.stack@) + self.stack@.len()
    }

    /// The module the loader waits on, if any.
    pub open spec fn pending_name(&self) -> Option<Seq<char>> {
        match self.pending {
            Pending::Nothing => None,
            Pending::Resolve { name, import, dir } => Some(name@),
            Pending::Read { name, path } => Some(name@),
        }
    }

    /// Module `x` is loaded or being loaded (its imports on the stack).
    pub open spec fn reached(&self, x: Seq<char>) -> bool {
        mod_names(self.modules@).contains(x) || dframe_names(self.stack@).contains(x)
    }

    /// Module `x` is reached or is the one the loader waits on.
    pub open spec fn covered(&self, x: Seq<char>) -> bool {
        self.reached(x) || self.pending_name() == Some(x)
    }

    /// While nothing failed, every import the traversal passed (the main
    /// program's before `next_top`, each frame's before its `next`) names a
    /// covered module, and every module name resolved to a file is reached
    /// or is the one waiting to be read.
    pub open spec fn passed_covered(&self) -> bool {
        self.failed is None ==> {
            &&& forall|k: int| 0 <= k < self.next_top ==> self.covered(bind_name(#[trigger] self.top@[k]@))
            &&& forall|i: int, j: int|
                0 <= i < self.stack@.len() && 0 <= j < self.stack@[i].next ==> self.covered(
                    bind_name(#[trigger] self.stack@[i].nested@[j]@),
                )
            &&& forall|x: Seq<char>|
                #[trigger] loaded_names(self.loaded@).contains(x) ==> self.reached(x) || (self.pending matches Pending::Read {
                    name,
                    path,
                } && name@ == x)
        }
    }

    /// The stack after a step, against the stack before it: frames leave
    /// only from the top, a frame that stays keeps its module and imports
    /// and only advances, and a frame that left is a loaded module every
    /// import of which is reached.
    pub open spec fn stack_follows(&self, old: &DiskLoader) -> bool {
        &&& self.stack@.len() <= old.stack@.len()
        &&& forall|i: int|
            0 <= i < self.stack@.len() ==> #[trigger] self.stack@[i].name@ == old.stack@[i].name@
                && self.stack@[i].nested@ == old.stack@[i].nested@ && self.stack@[i].next
                >= old.stack@[i].next && self.stack@[i].program == old.stack@[i].program
                && self.stack@[i].path == old.stack@[i].path
        &&& forall|i: int, j: int|
            self.stack@.len() <= i < old.stack@.len() && 0 <= j < old.stack@[i].nested@.len()
                ==> self.reached(bind_name(#[trigger] old.stack@[i].nested@[j]@))
        &&& forall|i: int|
            self.stack@.len() <= i < old.stack@.len() ==> mod_names(self.modules@).contains(
                #[trigger] old.stack@[i].name@,
            )
    }

    /// Every loaded module is a built-in one (never read: no tree, no
    /// file) or carries its syntax tree and the file it was read from.
    pub open spec fn shaped(&self) -> bool {
        forall|k: int|
            0 <= k < self.modules@.len() ==> builtin_dmodule(#[trigger] self.modules@[k]) || (
            self.modules@[k].program is Some && self.modules@[k].path is Some)
    }

    /// Modules loaded stay loaded.
    pub open spec fn keeps(&self, old: &DiskLoader) -> bool {
        &&& old.modules@.len() <= self.modules@.len()
        &&& old.modules@ == self.modules@.take(old.modules@.len() as int)
        &&& self.top@ == old.top@
    }
}

/// A step that adds only built-in modules and modules of frames that were
/// on the stack keeps every module shaped.
proof fn lemma_dshaped_kept(a: DiskLoader, b: DiskLoader)
    requires
        a.shaped(),
        b.keeps(&a),
        forall|k: int|
            #![trigger b.modules@[k]]
            a.modules@.len() <= k < b.modules@.len() ==> builtin_dmodule(b.modules@[k])
                || dfinished_from(b.modules@[k], a.stack@),
    ensures
        b.shaped(),
{
    assert forall|k: int| 0 <= k < b.modules@.len() implies builtin_dmodule(#[trigger] b.modules@[k]) || (
    b.modules@[k].program is Some && b.modules@[k].path is Some) by {
        if k < a.modules@.len() {
            assert(b.modules@.take(a.modules@.len() as int)[k] == a.modules@[k]);
            assert(a.modules@[k] == b.modules@[k]);
        } else if !builtin_dmodule(b.modules@[k]) {
            assert(dfinished_from(b.modules@[k], a.stack@));
        }
    }
}

proof fn lemma_dframes_work_nonneg(fs: Seq<DiskFrame>)
    requires
        forall|i: int| 0 <= i < fs.len() ==> (#[trigger] fs[i]).next <= fs[i].nested@.len(),
    ensures
        dframes_work(fs) >= 0,
    decreases fs.len(),
{
    if fs.len() > 0 {
        assert forall|i: int| 0 <= i < fs.drop_last().len() implies (
        #[trigger] fs.drop_last()[i]).next <= fs.drop_last()[i].nested@.len() by {
            assert(fs.drop_last()[i] == fs[i]);
        }
        lemma_dframes_work_nonneg(fs.drop_last());
        assert(fs.last() == fs[fs.len() - 1]);
    }
}

proof fn lemma_distinct_push(s: Seq<Seq<char>>, x: Seq<char>)
    requires
        distinct(s),
        !s.contains(x),
    ensures
        distinct(s.push(x)),
{
    assert forall|i: int, j: int| 0 <= i < j < s.push(x).len() implies s.push(x)[i] != s.push(
        x,
    )[j] by {
        assert(s.push(x)[i] == s[i]);
        if j == s.len() {
            assert(s.contains(s[i]));
        } else {
            assert(s.push(x)[j] == s[j]);
        }
    }
}

proof fn lemma_keeps_refl(l: DiskLoader)
    ensures
        l.keeps(&l),
{
    assert(l.modules@.take(l.modules@.len() as int) =~= l.modules@);
}

proof fn lemma_keeps_trans(a: DiskLoader, b: DiskLoader, c: DiskLoader)
    requires
        b.keeps(&a),
        c.keeps(&b),
    ensures
        c.keeps(&a),
{
    assert(c.modules@.take(b.modules@.len() as int).take(a.modules@.len() as int)
        =~= c.modules@.take(a.modules@.len() as int));
}

/// A module reached stays reached when modules are only added and the
/// stack is kept.
proof fn lemma_reached_grows(a: DiskLoader, b: DiskLoader, x: Seq<char>)
    requires
        b.keeps(&a),
        dframe_names(b.stack@) == dframe_names(a.stack@),
        a.reached(x),
    ensures
        b.reached(x),
{
    if mod_names(a.modules@).contains(x) {
        let k = choose|k: int| 0 <= k < mod_names(a.modules@).len() && mod_names(a.modules@)[k] == x;
        assert(b.modules@.take(a.modules@.len() as int)[k] == a.modules@[k]);
        assert(mod_names(b.modules@)[k] == x);
    }
}

/// Whether module `name` is loaded.
fn module_loaded(ms: &Vec<LoadedModule>, name: &String) -> (r: bool)
    ensures
        r == mod_names(ms@).contains(name@),
{
    let mut i: usize = 0;
    while i < ms.len()
        invariant
            0 <= i <= ms.len(),
            forall|k: int| 0 <= k < i ==> ms@[k].name@ != name@,
        decreases ms.len() - i,
    {
        if ms[i].name == *name {
            assert(mod_names(ms@)[i as int] == name@);
            return true;
        }
        i += 1;
    }
    assert(!mod_names(ms@).contains(name@)) by {
        if mod_names(ms@).contains(name@) {
            let k = choose|k: int| 0 <= k < mod_names(ms@).len() && mod_names(ms@)[k] == name@;
            assert(ms@[k].name@ == name@);
        }
    }
    false
}

/// The file module `name` was resolved to, looking from the latest.
fn find_loaded(l: &Vec<(String, String)>, name: &String) -> (r: Option<String>)
    ensures
        opt_text(r) == loaded_path(l@, name@),
        r is None ==> !loaded_names(l@).contains(name@),
        r is Some ==> loaded_names(l@).contains(name@),
{
    let mut k = l.len();
    assert(l@.take(k as int) =~= l@);
    while k > 0
        invariant
            0 <= k <= l.len(),
            loaded_path(l@, name@) == loaded_path(l@.take(k as int), name@),
            forall|j: int| k <= j < l.len() ==> l@[j].0@ != name@,
        decreases k,
    {
        assert(l@.take(k as int).last() == l@[k - 1]);
        assert(l@.take(k as int).drop_last() =~= l@.take(k - 1));
        if l[k - 1].0 == *name {
            assert(loaded_names(l@)[k - 1] == name@);
            return Some(l[k - 1].1.clone());
        }
        k -= 1;
    }
    assert(l@.take(0) =~= Seq::<(String, String)>::empty());
    assert(!loaded_names(l@).contains(name@)) by {
        if loaded_names(l@).contains(name@) {
            let j = choose|j: int| 0 <= j < loaded_names(l@).len() && loaded_names(l@)[j] == name@;
            assert(l@[j].0@ == name@);
        }
    }
    None
}

impl DiskLoader {
    /// A loader for the imports of `program`, resolved from `base_dir`; the
    /// imports are taken out of the program.
    pub fn new(program: &mut Program, base_dir: &str) -> (r: DiskLoader)
        ensures
            r.wf(),
            final(program).statements@ == without_imports(old(program).statements@),
            views_of(r.top@) == add_export_roots(
                import_names(old(program).statements@),
                without_imports(old(program).statements@),
            ),
            r.base_dir@ == base_dir@,
            r.next_top == 0,
            r.modules@.len() == 0,
            r.pending is Nothing,
            r.failed is None,
            r.stack@.len() == 0,
            r.passed_covered(),
            r.shaped(),
    {
        let top = extract_imports(program);
        let r = DiskLoader {
            top,
            base_dir: string_of(chars_of(base_dir).as_slice()),
            next_top: 0,
            loaded: Vec::new(),
            modules: Vec::new(),
            stack: Vec::new(),
            pending: Pending::Nothing,
            failed: None,
        };
        proof {
            assert(mod_names(r.modules@) =~= Seq::<Seq<char>>::empty());
            assert(dframe_names(r.stack@) =~= Seq::<Seq<char>>::empty());
        }
        r
    }

    /// Visits an import from `dir`: nothing to do when its module is
    /// loaded; a built-in module is loaded at once; otherwise the import
    /// is to be resolved.
    fn load_module(&mut self, import: &String, dir: &String) -> (r: Option<DiskStep>)
        requires
            old(self).wf(),
            old(self).pending is Nothing,
            old(self).failed is None,
        ensures
            final(self).wf(),
            final(self).keeps(old(self)),
            final(self).stack@ == old(self).stack@,
            final(self).next_top == old(self).next_top,
            final(self).failed is None,
            final(self).loaded@ == old(self).loaded@,
            final(self).covered(bind_name(import@)),
            final(self).base_dir == old(self).base_dir,
            final(self).pending is Nothing || final(self).pending is Resolve,
            r is None ==> final(self).pending is Nothing,
            forall|k: int|
                #![trigger final(self).modules@[k]]
                old(self).modules@.len() <= k < final(self).modules@.len() ==> builtin_dmodule(
                    final(self).modules@[k],
                ),
            mod_names(old(self).modules@).contains(bind_name(import@)) ==> r is None
                && final(self).modules@ == old(self).modules@ && final(self).pending is Nothing,
            !mod_names(old(self).modules@).contains(bind_name(import@)) && builtin_names().contains(
                bind_name(import@),
            ) ==> r is None && final(self).pending is Nothing && mod_names(final(self).modules@)
                == mod_names(old(self).modules@).push(bind_name(import@)),
            !mod_names(old(self).modules@).contains(bind_name(import@)) && !builtin_names().contains(
                bind_name(import@),
            ) ==> final(self).modules@ == old(self).modules@ && (r matches Some(
                DiskStep::Resolve { import: i, dir: d },
            ) && i@ == import@ && d@ == dir@) && (final(self).pending matches Pending::Resolve {
                name,
                import: i,
                dir: d,
            } && name@ == bind_name(import@) && i@ == import@ && d@ == dir@),
    {
        let name = module_bind_name(import.as_str());
        if module_loaded(&self.modules, &name) {
            proof {
                lemma_keeps_refl(*self);
            }
            return None;
        }
        let nc = chars_of(name.as_str());
        if is_builtin(nc.as_slice()) {
            let ghost old_names = mod_names(self.modules@);
            self.modules.push(LoadedModule { name, program: None, path: None });
            proof {
                assert(mod_names(self.modules@) =~= old_names.push(bind_name(import@)));
                assert(mod_names(self.modules@)[old_names.len() as int] == bind_name(import@));
                lemma_distinct_push(old_names, bind_name(import@));
                assert forall|i: int, j: int|
                    0 <= i < mod_names(self.modules@).len() && 0 <= j < dframe_names(
                        self.stack@,
                    ).len() implies mod_names(self.modules@)[i] != dframe_names(self.stack@)[j] by {
                    if i == old_names.len() {
                        let f = dframe_names(self.stack@)[j];
                        assert(!builtin_names().contains(f));
                    } else {
                        assert(mod_names(self.modules@)[i] == old_names[i]);
                    }
                }
                assert(self.modules@.take(old(self).modules@.len() as int) =~= old(self).modules@);
            }
            return None;
        }
        self.pending = Pending::Resolve { name, import: import.clone(), dir: dir.clone() };
        proof {
            lemma_keeps_refl(*self);
        }
        Some(DiskStep::Resolve { import: import.clone(), dir: dir.clone() })
    }

    /// The next step: reading a module just resolved, resolving the next
    /// import, or the end. The traversal takes the top frame's next import,
    /// else finishes the top frame (its module is loaded after its
    /// imports), else takes the main program's next import; an import of a
    /// loaded module is passed over and a built-in one is loaded at once.
    #[verifier::spinoff_prover]
    #[verifier::rlimit(50)]
    pub fn next(&mut self) -> (r: DiskStep)
        requires
            old(self).wf(),
            old(self).passed_covered(),
            !(old(self).pending is Resolve),
        ensures
            final(self).wf(),
            final(self).passed_covered(),
            final(self).keeps(old(self)),
            final(self).stack_follows(old(self)),
            final(self).next_top >= old(self).next_top,
            final(self).failed == old(self).failed,
            final(self).loaded@ == old(self).loaded@,
            forall|k: int|
                #![trigger final(self).modules@[k]]
                old(self).modules@.len() <= k < final(self).modules@.len() ==> builtin_dmodule(final(self).modules@[k]) || dfinished_from(final(self).modules@[k], old(self).stack@),
            old(self).shaped() ==> final(self).shaped(),
            match r {
                DiskStep::Resolve { import, dir } => {
                    &&& final(self).pending matches Pending::Resolve { name, import: i, dir: d } && i@
                        == import@ && d@ == dir@ && name@ == bind_name(import@)
                    &&& !mod_names(final(self).modules@).contains(bind_name(import@))
                    &&& !builtin_names().contains(bind_name(import@))
                    &&& if final(self).stack@.len() > 0 {
                        let f = final(self).stack@.last();
                        &&& final(self).next_top == old(self).next_top
                        &&& 0 < f.next <= f.nested@.len()
                        &&& f.nested@[f.next - 1]@ == import@
                        &&& f.dir@ == dir@
                    } else {
                        &&& 0 < final(self).next_top <= final(self).top@.len()
                        &&& final(self).top@[final(self).next_top - 1]@ == import@
                        &&& final(self).base_dir@ == dir@
                    }
                },
                DiskStep::Read { name, path } => final(self).pending matches Pending::Read {
                    name: n,
                    path: p,
                } && n@ == name@ && p@ == path@ && *final(self) == *old(self),
                DiskStep::Finished => final(self).failed is Some || (final(self).pending is Nothing
                    && final(self).stack@.len() == 0 && final(self).next_top
                    == final(self).top@.len()),
            },
    {
        if self.failed.is_some() {
            proof {
                lemma_keeps_refl(*self);
            }
            return DiskStep::Finished;
        }
        match &self.pending {
            Pending::Read { name, path } => {
                proof {
                    lemma_keeps_refl(*self);
                }
                return DiskStep::Read { name: name.clone(), path: path.clone() };
            },
            _ => {},
        }
        proof {
            lemma_dframes_work_nonneg(self.stack@);
            lemma_keeps_refl(*self);
        }
        loop
            invariant
                self.wf(),
                self.passed_covered(),
                self.keeps(old(self)),
                self.stack_follows(old(self)),
                self.next_top >= old(self).next_top,
                self.pending is Nothing,
                self.failed is None,
                old(self).failed is None,
                self.loaded@ == old(self).loaded@,
                self.base_dir@ == old(self).base_dir@,
                self.stack@.len() > 0 ==> self.next_top == old(self).next_top,
                forall|k: int|
                    #![trigger self.modules@[k]]
                    old(self).modules@.len() <= k < self.modules@.len() ==> builtin_dmodule(self.modules@[k]) || dfinished_from(self.modules@[k], old(self).stack@),
            decreases self.work(),
        {
            let ghost prev = *self;
            let ghost st = self.stack@;
            proof {
                lemma_dframes_work_nonneg(self.stack@);
            }
            let n = self.stack.len();
            if n > 0 && self.stack[n - 1].next < self.stack[n - 1].nested.len() {
                let k = self.stack[n - 1].next;
                let import = self.stack[n - 1].nested[k].clone();
                let dir = self.stack[n - 1].dir.clone();
                let step = self.load_module(&import, &dir);
                let ghost mid = *self;
                proof {
                    lemma_keeps_trans(*old(self), prev, mid);
                }
                let mut f = match self.stack.pop() {
                    Some(f) => f,
                    None => {
                        assert(false);
                        return DiskStep::Finished;
                    },
                };
                f.next = f.next + 1;
                self.stack.push(f);
                proof {
                    assert(self.stack@.drop_last() =~= st.drop_last());
                    assert forall|i: int| 0 <= i < self.stack@.len() - 1 implies #[trigger] self.stack@[i] == st[i] by {
                        assert(self.stack@.drop_last()[i] == st.drop_last()[i]);
                    }
                    assert(dframe_names(self.stack@) =~= dframe_names(st));
                    assert forall|i: int| 0 <= i < self.stack@.len() implies (
                    #[trigger] self.stack@[i]).next <= self.stack@[i].nested@.len() by {
                        if i < st.len() - 1 {
                            assert(self.stack@[i] == st[i]);
                        }
                    }
                    assert(self.modules@.take(mid.modules@.len() as int) =~= mid.modules@);
                    lemma_keeps_trans(*old(self), mid, *self);
                    assert forall|i: int, j: int|
                        0 <= i < self.stack@.len() && 0 <= j < self.stack@[i].next implies self.covered(
                        bind_name(#[trigger] self.stack@[i].nested@[j]@),
                    ) by {
                        let x = bind_name(self.stack@[i].nested@[j]@);
                        if i < st.len() - 1 || j < k {
                            assert(self.stack@[i].nested@ == st[i].nested@);
                            assert(prev.covered(x));
                            lemma_reached_grows(prev, *self, x);
                        } else {
                            assert(mid.covered(x));
                            if mid.reached(x) {
                                lemma_reached_grows(mid, *self, x);
                            }
                        }
                    }
                    assert forall|kk: int| 0 <= kk < self.next_top implies self.covered(
                        bind_name(#[trigger] self.top@[kk]@),
                    ) by {
                        assert(prev.covered(bind_name(prev.top@[kk]@)));
                        lemma_reached_grows(prev, *self, bind_name(prev.top@[kk]@));
                    }
                    assert forall|x: Seq<char>| #[trigger] loaded_names(self.loaded@).contains(x) implies self.reached(x)
                        || (self.pending matches Pending::Read { name, path } && name@ == x) by {
                        lemma_reached_grows(prev, *self, x);
                    }
                    lemma_dframes_work_nonneg(self.stack@.drop_last());
                    assert(dframes_work(self.stack@) == dframes_work(self.stack@.drop_last()) + (
                    self.stack@.last().nested@.len() - self.stack@.last().next));
                    assert(dframes_work(st) == dframes_work(st.drop_last()) + (st.last().nested@.len()
                        - st.last().next));
                    assert forall|i: int| 0 <= i < self.stack@.len() implies #[trigger] self.stack@[i].name@
                        == old(self).stack@[i].name@ && self.stack@[i].nested@ == old(self).stack@[i].nested@
                        && self.stack@[i].next >= old(self).stack@[i].next && self.stack@[i].program
                        == old(self).stack@[i].program && self.stack@[i].path == old(self).stack@[i].path by {
                        assert(prev.stack@[i].name@ == old(self).stack@[i].name@);
                        if i < st.len() - 1 {
                            assert(self.stack@[i] == st[i]);
                        }
                    }
                    assert forall|i: int, j: int|
                        self.stack@.len() <= i < old(self).stack@.len() && 0 <= j < old(self).stack@[i].nested@.len()
                            implies self.reached(bind_name(#[trigger] old(self).stack@[i].nested@[j]@)) by {
                        lemma_reached_grows(prev, *self, bind_name(old(self).stack@[i].nested@[j]@));
                    }
                    assert forall|i: int| self.stack@.len() <= i < old(self).stack@.len() implies mod_names(
                        self.modules@,
                    ).contains(#[trigger] old(self).stack@[i].name@) by {
                        assert(prev.reached(old(self).stack@[i].name@));
                        lemma_reached_grows(prev, *self, old(self).stack@[i].name@);
                        assert(!dframe_names(self.stack@).contains(old(self).stack@[i].name@)) by {
                            if dframe_names(self.stack@).contains(old(self).stack@[i].name@) {
                                let q = choose|q: int| 0 <= q < dframe_names(self.stack@).len() && dframe_names(self.stack@)[q] == old(self).stack@[i].name@;
                                assert(self.stack@[q].name@ == old(self).stack@[q].name@);
                                assert(dframe_names(old(self).stack@)[q] == dframe_names(old(self).stack@)[i]);
                            }
                        }
                    }
                    assert forall|kk: int|
                        #![trigger self.modules@[kk]]
                        old(self).modules@.len() <= kk < self.modules@.len() implies builtin_dmodule(self.modules@[kk]) || dfinished_from(self.modules@[kk], old(self).stack@) by {
                        if kk < prev.modules@.len() {
                            assert(mid.modules@.take(prev.modules@.len() as int)[kk] == prev.modules@[kk]);
                        }
                    }
                }
                match step {
                    Some(s) => {
                        proof {
                            if old(self).shaped() {
                                lemma_dshaped_kept(*old(self), *self);
                            }
                        }
                        return s;
                    },
                    None => {},
                }
            } else if n > 0 {
                let f = match self.stack.pop() {
                    Some(f) => f,
                    None => {
                        assert(false);
                        return DiskStep::Finished;
                    },
                };
                proof {
                    assert(st.last() == f);
                    assert(st.drop_last() == self.stack@);
                    assert(dframe_names(self.stack@) =~= dframe_names(st).drop_last());
                    assert(dframe_names(st)[st.len() - 1] == f.name@);
                }
                let ghost old_names = mod_names(self.modules@);
                let ghost fname = f.name@;
                self.modules.push(
                    LoadedModule { name: f.name, program: Some(f.program), path: Some(f.path) },
                );
                proof {
                    assert(mod_names(self.modules@) =~= old_names.push(fname));
                    assert(mod_names(self.modules@)[old_names.len() as int] == fname);
                    assert(!old_names.contains(fname)) by {
                        if old_names.contains(fname) {
                            let i = choose|i: int| 0 <= i < old_names.len() && old_names[i] == fname;
                            assert(dframe_names(st)[st.len() - 1] == fname);
                        }
                    }
                    lemma_distinct_push(old_names, fname);
                    assert forall|i: int, j: int|
                        0 <= i < mod_names(self.modules@).len() && 0 <= j < dframe_names(
                            self.stack@,
                        ).len() implies mod_names(self.modules@)[i] != dframe_names(
                        self.stack@,
                    )[j] by {
                        assert(dframe_names(self.stack@)[j] == dframe_names(st)[j]);
                        if i == old_names.len() {
                            assert(mod_names(self.modules@)[i] == dframe_names(st)[st.len() - 1]);
                        } else {
                            assert(mod_names(self.modules@)[i] == old_names[i]);
                        }
                    }
                    assert forall|i: int| 0 <= i < self.stack@.len() implies (
                    #[trigger] self.stack@[i]).next <= self.stack@[i].nested@.len() by {
                        assert(self.stack@[i] == st[i]);
                    }
                    assert forall|i: int| 0 <= i < dframe_names(self.stack@).len() implies loaded_names(
                        self.loaded@,
                    ).contains(#[trigger] dframe_names(self.stack@)[i]) by {
                        assert(dframe_names(self.stack@)[i] == dframe_names(st)[i]);
                    }
                    assert(self.modules@.take(prev.modules@.len() as int) =~= prev.modules@);
                    lemma_keeps_trans(*old(self), prev, *self);
                    assert(st.last().next == st.last().nested@.len());
                    // what was reached stays reached: the finished frame is now a module
                    assert forall|x: Seq<char>| prev.reached(x) implies #[trigger] self.reached(x) by {
                        if mod_names(prev.modules@).contains(x) {
                            let q = choose|q: int| 0 <= q < old_names.len() && old_names[q] == x;
                            assert(mod_names(self.modules@)[q] == x);
                        } else if x == fname {
                        } else {
                            let q = choose|q: int| 0 <= q < st.len() && dframe_names(st)[q] == x;
                            assert(q != st.len() - 1);
                            assert(dframe_names(self.stack@)[q] == x);
                        }
                    }
                    assert forall|i: int, j: int|
                        0 <= i < self.stack@.len() && 0 <= j < self.stack@[i].next implies self.covered(
                        bind_name(#[trigger] self.stack@[i].nested@[j]@),
                    ) by {
                        assert(self.stack@[i] == st[i]);
                        assert(prev.reached(bind_name(st[i].nested@[j]@)));
                    }
                    assert forall|kk: int| 0 <= kk < self.next_top implies self.covered(
                        bind_name(#[trigger] self.top@[kk]@),
                    ) by {
                        assert(prev.reached(bind_name(prev.top@[kk]@)));
                    }
                    assert forall|x: Seq<char>| #[trigger] loaded_names(self.loaded@).contains(x) implies self.reached(x)
                        || (self.pending matches Pending::Read { name, path } && name@ == x) by {
                        assert(prev.reached(x));
                    }
                    assert forall|j: int| 0 <= j < st.last().nested@.len() implies self.reached(
                        bind_name(#[trigger] st.last().nested@[j]@),
                    ) by {
                        assert(st.last() == st[st.len() - 1]);
                        assert(prev.reached(bind_name(st[st.len() - 1].nested@[j]@)));
                    }
                    assert forall|i: int| 0 <= i < self.stack@.len() implies #[trigger] self.stack@[i].name@
                        == old(self).stack@[i].name@ && self.stack@[i].nested@ == old(self).stack@[i].nested@
                        && self.stack@[i].next >= old(self).stack@[i].next && self.stack@[i].program
                        == old(self).stack@[i].program && self.stack@[i].path == old(self).stack@[i].path by {
                        assert(self.stack@[i] == st[i]);
                        assert(prev.stack@[i].name@ == old(self).stack@[i].name@);
                    }
                    assert forall|i: int, j: int|
                        self.stack@.len() <= i < old(self).stack@.len() && 0 <= j < old(self).stack@[i].nested@.len()
                            implies self.reached(bind_name(#[trigger] old(self).stack@[i].nested@[j]@)) by {
                        if i == st.len() - 1 {
                            assert(prev.stack@[i].nested@ == old(self).stack@[i].nested@);
                            assert(st.last().nested@[j] == old(self).stack@[i].nested@[j]);
                        } else {
                            assert(prev.reached(bind_name(old(self).stack@[i].nested@[j]@)));
                        }
                    }
                    assert(prev.stack@[st.len() - 1].name@ == old(self).stack@[st.len() - 1].name@);
                    assert forall|i: int| self.stack@.len() <= i < old(self).stack@.len() implies mod_names(
                        self.modules@,
                    ).contains(#[trigger] old(self).stack@[i].name@) by {
                        if i == st.len() - 1 {
                            assert(mod_names(self.modules@)[old_names.len() as int] == old(self).stack@[i].name@);
                        } else {
                            let x = old(self).stack@[i].name@;
                            assert(mod_names(prev.modules@).contains(x));
                            let q = choose|q: int| 0 <= q < old_names.len() && old_names[q] == x;
                            assert(mod_names(self.modules@)[q] == x);
                        }
                    }
                    assert(dframe_names(old(self).stack@)[st.len() - 1] == fname);
                    assert(dfinished_from(self.modules@.last(), old(self).stack@));
                    assert forall|kk: int|
                        #![trigger self.modules@[kk]]
                        old(self).modules@.len() <= kk < self.modules@.len() implies builtin_dmodule(self.modules@[kk]) || dfinished_from(self.modules@[kk], old(self).stack@) by {
                        if kk < prev.modules@.len() {
                            assert(self.modules@[kk] == prev.modules@[kk]);
                        }
                    }
                    lemma_dframes_work_nonneg(self.stack@);
                }
            } else if self.next_top < self.top.len() {
                let import = self.top[self.next_top].clone();
                let dir = self.base_dir.clone();
                let step = self.load_module(&import, &dir);
                let ghost mid = *self;
                self.next_top = self.next_top + 1;
                proof {
                    lemma_keeps_trans(*old(self), prev, mid);
                    lemma_keeps_refl(*self);
                    lemma_keeps_trans(*old(self), mid, *self);
                    assert forall|kk: int| 0 <= kk < self.next_top implies self.covered(
                        bind_name(#[trigger] self.top@[kk]@),
                    ) by {
                        if kk < prev.next_top {
                            assert(prev.covered(bind_name(prev.top@[kk]@)));
                            lemma_reached_grows(prev, *self, bind_name(prev.top@[kk]@));
                        }
                    }
                    assert forall|x: Seq<char>| #[trigger] loaded_names(self.loaded@).contains(x) implies self.reached(x)
                        || (self.pending matches Pending::Read { name, path } && name@ == x) by {
                        lemma_reached_grows(prev, *self, x);
                    }
                    assert forall|kk: int|
                        #![trigger self.modules@[kk]]
                        old(self).modules@.len() <= kk < self.modules@.len() implies builtin_dmodule(self.modules@[kk]) || dfinished_from(self.modules@[kk], old(self).stack@) by {
                        if kk < prev.modules@.len() {
                            assert(mid.modules@.take(prev.modules@.len() as int)[kk] == prev.modules@[kk]);
                        }
                    }
                    assert forall|i: int| self.stack@.len() <= i < old(self).stack@.len() implies mod_names(
                        self.modules@,
                    ).contains(#[trigger] old(self).stack@[i].name@) by {
                        lemma_reached_grows(prev, *self, old(self).stack@[i].name@);
                    }
                    assert forall|i: int, j: int|
                        self.stack@.len() <= i < old(self).stack@.len() && 0 <= j < old(self).stack@[i].nested@.len()
                            implies self.reached(bind_name(#[trigger] old(self).stack@[i].nested@[j]@)) by {
                        lemma_reached_grows(prev, *self, bind_name(old(self).stack@[i].nested@[j]@));
                    }
                }
                match step {
                    Some(s) => {
                        proof {
                            if old(self).shaped() {
                                lemma_dshaped_kept(*old(self), *self);
                            }
                        }
                        return s;
                    },
                    None => {},
                }
            } else {
                proof {
                    if old(self).shaped() {
                        lemma_dshaped_kept(*old(self), *self);
                    }
                }
                return DiskStep::Finished;
            }
        }
    }

    /// The file the pending import resolves to, or why none was found: a
    /// failure ends the load; a module name already resolved to another
    /// file is an error; to the same file, nothing more is done; a new
    /// module is to be read.
    pub fn resolved(&mut self, result: Result<String, String>)
        requires
            old(self).wf(),
            old(self).passed_covered(),
            old(self).pending is Resolve,
        ensures
            final(self).wf(),
            final(self).passed_covered(),
            final(self).stack@ == old(self).stack@,
            final(self).next_top == old(self).next_top,
            final(self).keeps(old(self)),
            final(self).modules@ == old(self).modules@,
            old(self).shaped() ==> final(self).shaped(),
            match (old(self).pending, result) {
                (Pending::Resolve { name, import, dir }, Err(e)) => final(self).failed matches Some(m)
                    && m@ == e@,
                (Pending::Resolve { name, import, dir }, Ok(p)) => match loaded_path(
                    old(self).loaded@,
                    name@,
                ) {
                    Some(prev) => if prev == p@ {
                        final(self).pending is Nothing && final(self).failed == old(self).failed
                    } else {
                        final(self).failed matches Some(m) && m@ == conflict_text(name@, prev, p@)
                    },
                    None => final(self).pending matches Pending::Read { name: n, path: q } && n@
                        == name@ && q@ == p@ && final(self).failed == old(self).failed,
                },
                _ => true,
            },
    {
        let mut pend = Pending::Nothing;
        std::mem::swap(&mut pend, &mut self.pending);
        let name = match pend {
            Pending::Resolve { name, import, dir } => name,
            _ => {
                assert(false);
                String::new()
            },
        };
        proof {
            lemma_keeps_refl(*self);
        }
        let ghost a = *old(self);
        match result {
            Err(e) => {
                self.failed = Some(e);
            },
            Ok(path) => {
                match find_loaded(&self.loaded, &name) {
                    Some(prev) => {
                        if prev != path {
                            let mut m: Vec<char> = Vec::new();
                            push_str(&mut m, "Module '");
                            push_str(&mut m, name.as_str());
                            push_str(&mut m, "' resolves to different files: ");
                            push_str(&mut m, prev.as_str());
                            push_str(&mut m, " and ");
                            push_str(&mut m, path.as_str());
                            self.failed = Some(string_of(m.as_slice()));
                        } else {
                            proof {
                                if a.failed is None {
                                    assert(loaded_names(a.loaded@).contains(name@));
                                    assert(a.reached(name@));
                                    assert forall|kk: int| 0 <= kk < self.next_top implies self.covered(
                                        bind_name(#[trigger] self.top@[kk]@),
                                    ) by {
                                        assert(a.covered(bind_name(a.top@[kk]@)));
                                    }
                                    assert forall|i: int, j: int|
                                        0 <= i < self.stack@.len() && 0 <= j < self.stack@[i].next implies self.covered(
                                        bind_name(#[trigger] self.stack@[i].nested@[j]@),
                                    ) by {
                                        assert(a.covered(bind_name(a.stack@[i].nested@[j]@)));
                                    }
                                }
                            }
                        }
                    },
                    None => {
                        let ghost old_loaded = loaded_names(self.loaded@);
                        self.loaded.push((name.clone(), path.clone()));
                        proof {
                            assert(loaded_names(self.loaded@) =~= old_loaded.push(name@));
                            assert(loaded_names(self.loaded@)[old_loaded.len() as int] == name@);
                            assert forall|i: int| 0 <= i < dframe_names(self.stack@).len() implies loaded_names(
                                self.loaded@,
                            ).contains(#[trigger] dframe_names(self.stack@)[i]) by {
                                let x = dframe_names(self.stack@)[i];
                                assert(old_loaded.contains(x));
                                let k = choose|k: int| 0 <= k < old_loaded.len() && old_loaded[k] == x;
                                assert(loaded_names(self.loaded@)[k] == x);
                            }
                            assert(!dframe_names(self.stack@).contains(name@)) by {
                                if dframe_names(self.stack@).contains(name@) {
                                    let i = choose|i: int|
                                        0 <= i < dframe_names(self.stack@).len() && dframe_names(
                                            self.stack@,
                                        )[i] == name@;
                                    assert(old_loaded.contains(name@));
                                }
                            }
                        }
                        self.pending = Pending::Read { name, path };
                        proof {
                            if a.failed is None {
                                assert forall|kk: int| 0 <= kk < self.next_top implies self.covered(
                                    bind_name(#[trigger] self.top@[kk]@),
                                ) by {
                                    assert(a.covered(bind_name(a.top@[kk]@)));
                                }
                                assert forall|i: int, j: int|
                                    0 <= i < self.stack@.len() && 0 <= j < self.stack@[i].next implies self.covered(
                                    bind_name(#[trigger] self.stack@[i].nested@[j]@),
                                ) by {
                                    assert(a.covered(bind_name(a.stack@[i].nested@[j]@)));
                                }
                                assert forall|x: Seq<char>| #[trigger] loaded_names(self.loaded@).contains(x) implies self.reached(x)
                                    || (self.pending matches Pending::Read { name, path } && name@ == x) by {
                                    if x != a.pending_name().unwrap() {
                                        assert(loaded_names(a.loaded@).contains(x)) by {
                                            let q = choose|q: int| 0 <= q < loaded_names(self.loaded@).len() && loaded_names(self.loaded@)[q] == x;
                                            assert(q < a.loaded@.len());
                                            assert(loaded_names(a.loaded@)[q] == x);
                                        }
                                    }
                                }
                            }
                        }
                    },
                }
            },
        }
    }

    /// The syntax tree of the module just resolved, or why it could not be
    /// read: a failure ends the load; a module that holds more than
    /// definitions, imports and exports is an error; otherwise its imports
    /// are loaded next, from its file's directory.
    pub fn read(&mut self, result: Result<Program, String>)
        requires
            old(self).wf(),
            old(self).passed_covered(),
            old(self).pending is Read,
        ensures
            final(self).wf(),
            final(self).passed_covered(),
            final(self).next_top == old(self).next_top,
            final(self).loaded@ == old(self).loaded@,
            final(self).keeps(old(self)),
            final(self).pending is Nothing,
            final(self).modules@ == old(self).modules@,
            old(self).shaped() ==> final(self).shaped(),
            match (old(self).pending, result) {
                (Pending::Read { name, path }, Err(e)) => final(self).failed matches Some(m) && m@
                    == e@,
                (Pending::Read { name, path }, Ok(p)) => if forall|i: int|
                    0 <= i < p.statements@.len() ==> module_stmt_allowed(
                        #[trigger] p.statements@[i].node,
                    ) {
                    &&& final(self).failed == old(self).failed
                    &&& final(self).stack@.len() == old(self).stack@.len() + 1
                    &&& final(self).stack@.drop_last() == old(self).stack@
                    &&& final(self).stack@.last().name@ == name@
                    &&& final(self).stack@.last().path@ == path@
                    &&& final(self).stack@.last().dir@ == module_dir_text(path@)
                    &&& final(self).stack@.last().program.statements@ == without_imports(
                        p.statements@,
                    )
                    &&& views_of(final(self).stack@.last().nested@) == add_export_roots(
                        import_names(p.statements@),
                        without_imports(p.statements@),
                    )
                    &&& final(self).stack@.last().next == 0
                } else {
                    final(self).failed matches Some(m) && m@ == module_error_text(name@)
                },
                _ => true,
            },
    {
        let mut pend = Pending::Nothing;
        std::mem::swap(&mut pend, &mut self.pending);
        let (name, path) = match pend {
            Pending::Read { name, path } => (name, path),
            _ => {
                assert(false);
                (String::new(), String::new())
            },
        };
        proof {
            lemma_keeps_refl(*self);
        }
        match result {
            Err(e) => {
                self.failed = Some(e);
            },
            Ok(mut p) => {
                match validate_module_program_result(name.as_str(), &p) {
                    Err(e) => {
                        self.failed = Some(e);
                    },
                    Ok(()) => {
                        let nested = extract_imports(&mut p);
                        let dir = match path_parent(path.as_str()) {
                            Some(d) => d,
                            None => string_of(chars_of(".").as_slice()),
                        };
                        let ghost old_frames = dframe_names(self.stack@);
                        let ghost old_stack = self.stack@;
                        self.stack.push(DiskFrame { name, path, program: p, nested, next: 0, dir });
                        proof {
                            assert(dframe_names(self.stack@) =~= old_frames.push(
                                old(self).pending->Read_name@,
                            ));
                            lemma_distinct_push(old_frames, old(self).pending->Read_name@);
                            assert forall|i: int| 0 <= i < self.stack@.len() implies (
                            #[trigger] self.stack@[i]).next <= self.stack@[i].nested@.len() by {
                                if i < old_stack.len() {
                                    assert(self.stack@[i] == old_stack[i]);
                                }
                            }
                            assert forall|i: int, j: int|
                                0 <= i < mod_names(self.modules@).len() && 0 <= j < dframe_names(
                                    self.stack@,
                                ).len() implies mod_names(self.modules@)[i] != dframe_names(
                                self.stack@,
                            )[j] by {
                                if j < old_stack.len() {
                                    assert(dframe_names(self.stack@)[j] == old_frames[j]);
                                } else {
                                    assert(mod_names(self.modules@).contains(mod_names(self.modules@)[i]));
                                }
                            }
                            assert forall|i: int| 0 <= i < dframe_names(self.stack@).len() implies loaded_names(
                                self.loaded@,
                            ).contains(#[trigger] dframe_names(self.stack@)[i]) by {
                                if i < old_stack.len() {
                                    assert(dframe_names(self.stack@)[i] == old_frames[i]);
                                }
                            }
                            let a = *old(self);
                            let nm = a.pending->Read_name@;
                            assert(dframe_names(self.stack@)[old_stack.len() as int] == nm);
                            assert forall|x: Seq<char>| a.covered(x) implies #[trigger] self.reached(x) by {
                                if dframe_names(a.stack@).contains(x) {
                                    let q = choose|q: int| 0 <= q < old_frames.len() && old_frames[q] == x;
                                    assert(dframe_names(self.stack@)[q] == x);
                                }
                            }
                            if a.failed is None {
                                assert forall|kk: int| 0 <= kk < self.next_top implies self.covered(
                                    bind_name(#[trigger] self.top@[kk]@),
                                ) by {
                                    assert(a.covered(bind_name(a.top@[kk]@)));
                                }
                                assert forall|i: int, j: int|
                                    0 <= i < self.stack@.len() && 0 <= j < self.stack@[i].next implies self.covered(
                                    bind_name(#[trigger] self.stack@[i].nested@[j]@),
                                ) by {
                                    if i < old_stack.len() {
                                        assert(self.stack@[i] == old_stack[i]);
                                        assert(a.covered(bind_name(a.stack@[i].nested@[j]@)));
                                    }
                                }
                                assert forall|x: Seq<char>| #[trigger] loaded_names(self.loaded@).contains(x) implies self.reached(x)
                                    || (self.pending matches Pending::Read { name, path } && name@ == x) by {
                                    assert(a.covered(x));
                                }
                            }
                        }
                    },
                }
            },
        }
    }

    /// The modules loaded, dependencies first, or the problem that ended
    /// the load.
    pub fn finish(self) -> (r: Result<Vec<LoadedModule>, String>)
        requires
            self.wf(),
        ensures
            match self.failed {
                Some(e) => r matches Err(m) && m@ == e@,
                None => r matches Ok(ms) && ms@ == self.modules@ && distinct(mod_names(ms@)),
            },
    {
        match self.failed {
            Some(e) => Err(e),
            None => Ok(self.modules),
        }
    }
}

/// The syntax tree of a module file from the outcome of lexing and parsing
/// it (the first error of either), the error rendered against the source
/// under `Module '<name>' error`.
pub fn disk_parse_result(
    name: &str,
    source: &str,
    outcome: Result<Program, HuziError>,
    color: bool,
) -> (r: Result<Program, String>)
    ensures
        match outcome {
            Ok(p) => r == Ok::<Program, String>(p),
            Err(e) => r matches Err(m) && m@ == rendered(e, source@, module_label(name@), color),
        },
{
    match outcome {
        Ok(p) => Ok(p),
        Err(e) => {
            let mut lv: Vec<char> = Vec::new();
            push_str(&mut lv, "Module '");
            push_str(&mut lv, name);
            push_str(&mut lv, "' error");
            let label = string_of(lv.as_slice());
            Err(render_with_color(&e, source, label.as_str(), color))
        },
    }
}

} // verus!
