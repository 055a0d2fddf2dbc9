//! Trait checking before code generation: the declared types, traits and
//! functions are gathered, then each `impl Trait for Type` is checked
//! against its trait and its methods are recorded per type.
use crate::ast::{
    join_comma, Expr, FnStmt, ImplBlock, Literal, Program, Span, Spanned, Stmt, StructDef,
    StructField, TraitDef, TraitMethodDef, Type,
};
use crate::keyed::{key_index, keyed_insert, lemma_key_index};
use crate::modules::{views_of, LoadedModule};
use crate::render::HuziError;
use crate::text::{dec_digits, push_decimal, push_str, string_of};
use crate::typing::{
    copy_opt_type, copy_type, same_opt_type, same_type, sig_check, sig_message,
    validate_method_signature,
};
use vstd::prelude::*;

verus! {

/// The tables trait checking fills: declared type names, traits by name,
/// structs by name, return types of functions and of implementation
/// methods (`Type__method`) by name, and per type which trait provides each
/// method and with which return type. Entries refer into the programs they
/// were gathered from.
pub struct TraitDesugarer<'a> {
    pub known_types: Vec<String>,
    pub traits: Vec<(String, &'a TraitDef)>,
    pub struct_fields: Vec<(String, &'a StructDef)>,
    pub fn_return_types: Vec<(String, &'a Option<Type>)>,
    pub implemented_methods: Vec<(String, Vec<(String, String)>)>,
    pub method_return_types: Vec<(String, Vec<(String, &'a Option<Type>)>)>,
}

/// A struct's fields by name; a later field of the same name replaces an
/// earlier one.
pub open spec fn field_table(fs: Seq<StructField>) -> Seq<(Seq<char>, Type)>
    decreases fs.len(),
{
    if fs.len() == 0 {
        Seq::empty()
    } else {
        keyed_insert(field_table(fs.drop_last()), fs.last().name@, fs.last().field_type)
    }
}

pub open spec fn traits_view<'a>(s: Seq<(String, &'a TraitDef)>) -> Seq<(Seq<char>, TraitDef)> {
    s.map_values(|p: (String, &'a TraitDef)| (p.0@, *p.1))
}

pub open spec fn structs_view<'a>(s: Seq<(String, &'a StructDef)>) -> Seq<(Seq<char>, Seq<(Seq<char>, Type)>)> {
    s.map_values(|p: (String, &'a StructDef)| (p.0@, field_table(p.1.fields@)))
}

pub open spec fn returns_view<'a>(s: Seq<(String, &'a Option<Type>)>) -> Seq<(Seq<char>, Option<Type>)> {
    s.map_values(|p: (String, &'a Option<Type>)| (p.0@, *p.1))
}

pub open spec fn pairs_view(s: Seq<(String, String)>) -> Seq<(Seq<char>, Seq<char>)> {
    s.map_values(|p: (String, String)| (p.0@, p.1@))
}

pub open spec fn impls_view(s: Seq<(String, Vec<(String, String)>)>) -> Seq<(Seq<char>, Seq<(Seq<char>, Seq<char>)>)> {
    s.map_values(|p: (String, Vec<(String, String)>)| (p.0@, pairs_view(p.1@)))
}

pub open spec fn method_returns_view<'a>(s: Seq<(String, Vec<(String, &'a Option<Type>)>)>) -> Seq<(Seq<char>, Seq<(Seq<char>, Option<Type>)>)> {
    s.map_values(|p: (String, Vec<(String, &'a Option<Type>)>)| (p.0@, returns_view(p.1@)))
}

/// The tables as values.
pub struct TablesView {
    pub known: Seq<Seq<char>>,
    pub traits: Seq<(Seq<char>, TraitDef)>,
    pub structs: Seq<(Seq<char>, Seq<(Seq<char>, Type)>)>,
    pub fn_returns: Seq<(Seq<char>, Option<Type>)>,
    pub impls: Seq<(Seq<char>, Seq<(Seq<char>, Seq<char>)>)>,
    pub method_returns: Seq<(Seq<char>, Seq<(Seq<char>, Option<Type>)>)>,
}

pub open spec fn empty_tables() -> TablesView {
    TablesView {
        known: Seq::empty(),
        traits: Seq::empty(),
        structs: Seq::empty(),
        fn_returns: Seq::empty(),
        impls: Seq::empty(),
        method_returns: Seq::empty(),
    }
}

impl<'a> TraitDesugarer<'a> {
    pub open spec fn tables(&self) -> TablesView {
        TablesView {
            known: views_of(self.known_types@),
            traits: traits_view(self.traits@),
            structs: structs_view(self.struct_fields@),
            fn_returns: returns_view(self.fn_return_types@),
            impls: impls_view(self.implemented_methods@),
            method_returns: method_returns_view(self.method_return_types@),
        }
    }

    pub fn new() -> (r: TraitDesugarer<'a>)
        ensures
            r.tables() == empty_tables(),
    {
        let r = TraitDesugarer {
            known_types: Vec::new(),
            traits: Vec::new(),
            struct_fields: Vec::new(),
            fn_return_types: Vec::new(),
            implemented_methods: Vec::new(),
            method_return_types: Vec::new(),
        };
        assert(r.tables().known =~= Seq::<Seq<char>>::empty());
        assert(r.tables().traits =~= Seq::<(Seq<char>, TraitDef)>::empty());
        assert(r.tables().structs =~= Seq::<(Seq<char>, Seq<(Seq<char>, Type)>)>::empty());
        assert(r.tables().fn_returns =~= Seq::<(Seq<char>, Option<Type>)>::empty());
        assert(r.tables().impls =~= Seq::<(Seq<char>, Seq<(Seq<char>, Seq<char>)>)>::empty());
        assert(r.tables().method_returns =~= Seq::<(Seq<char>, Seq<(Seq<char>, Option<Type>)>)>::empty());
        r
    }
}

/// Adds a name to a set of names.
pub open spec fn add_name(s: Seq<Seq<char>>, x: Seq<char>) -> Seq<Seq<char>> {
    if s.contains(x) {
        s
    } else {
        s.push(x)
    }
}

/// The first name that repeats an earlier one.
pub open spec fn first_repeat(names: Seq<Seq<char>>) -> Option<Seq<char>>
    decreases names.len(),
{
    if names.len() == 0 {
        None
    } else {
        match first_repeat(names.drop_last()) {
            Some(x) => Some(x),
            None => if names.drop_last().contains(names.last()) {
                Some(names.last())
            } else {
                None
            },
        }
    }
}

pub open spec fn trait_method_names(t: TraitDef) -> Seq<Seq<char>> {
    t.methods@.map_values(|m: TraitMethodDef| m.name@)
}

pub open spec fn dup_trait_text(name: Seq<char>) -> Seq<char> {
    "重复定义 trait '"@ + name + "':期望每个 trait 只定义一次,实际已存在同名定义"@
}

pub open spec fn dup_method_text(name: Seq<char>, method: Seq<char>) -> Seq<char> {
    "trait '"@ + name + "' 中重复定义方法 '"@ + method + "':期望方法名唯一,实际出现多次"@
}

/// An error message with the line and column it is reported at.
pub type ErrAt = (Seq<char>, usize, usize);

/// A step of checking that may fail: the tables afterwards, and the error.
pub type Step = (TablesView, Option<ErrAt>);

/// What one declaration adds: structs and enums are known types (a struct
/// also by its fields), a trait is recorded once with distinct method
/// names, a function by its return type; other statements add nothing.
pub open spec fn collect_stmt(t: TablesView, s: Spanned<Stmt>) -> Step {
    match s.node {
        Stmt::Struct(d) => (
            TablesView {
                known: add_name(t.known, d.name@),
                structs: keyed_insert(t.structs, d.name@, field_table(d.fields@)),
                ..t
            },
            None,
        ),
        Stmt::Enum(d) => (TablesView { known: add_name(t.known, d.name@), ..t }, None),
        Stmt::Trait(tr) => if key_index(t.traits, tr.name@) < t.traits.len() {
            (t, Some((dup_trait_text(tr.name@), s.span.line, s.span.column)))
        } else {
            match first_repeat(trait_method_names(tr)) {
                Some(m) => (t, Some((dup_method_text(tr.name@, m), s.span.line, s.span.column))),
                None => (TablesView { traits: t.traits.push((tr.name@, tr)), ..t }, None),
            }
        },
        Stmt::Fn(f) => (
            TablesView { fn_returns: keyed_insert(t.fn_returns, f.name@, f.return_type), ..t },
            None,
        ),
        _ => (t, None),
    }
}

/// Declarations gathered in order; the first error ends the gathering.
pub open spec fn collect_stmts(t: TablesView, ss: Seq<Spanned<Stmt>>) -> Step
    decreases ss.len(),
{
    if ss.len() == 0 {
        (t, None)
    } else {
        let prev = collect_stmts(t, ss.drop_last());
        if prev.1 is Some {
            prev
        } else {
            collect_stmt(prev.0, ss.last())
        }
    }
}

/// Whether `r` is the error `e`, as a compiler error.
pub open spec fn is_error(r: Result<(), HuziError>, e: ErrAt) -> bool {
    r matches Err(x) && x.message@ == e.0 && x.line == e.1 && x.column == e.2
}

/// Whether `r` reports the step's error, or succeeds when there is none.
pub open spec fn reports(r: Result<(), HuziError>, e: Option<ErrAt>) -> bool {
    match e {
        None => r is Ok,
        Some(x) => is_error(r, x),
    }
}

proof fn lemma_collect_error(t: TablesView, ss: Seq<Spanned<Stmt>>, k: int)
    requires
        0 <= k <= ss.len(),
        collect_stmts(t, ss.take(k)).1 is Some,
    ensures
        collect_stmts(t, ss) == collect_stmts(t, ss.take(k)),
    decreases ss.len() - k,
{
    if k < ss.len() {
        let d = ss.drop_last();
        assert(d.take(k) =~= ss.take(k));
        lemma_collect_error(t, d, k);
    } else {
        assert(ss.take(k) =~= ss);
    }
}

/// Position of the first pair with key `k`, or the length.
fn key_position<V>(s: &Vec<(String, V)>, k: &str) -> (r: usize)
    ensures
        r <= s.len(),
        forall|j: int| 0 <= j < r ==> s@[j].0@ != k@,
        r < s.len() ==> s@[r as int].0@ == k@,
{
    let key = k.to_owned();
    let mut i: usize = 0;
    while i < s.len()
        invariant
            0 <= i <= s.len(),
            key@ == k@,
            forall|j: int| 0 <= j < i ==> s@[j].0@ != k@,
        decreases s.len() - i,
    {
        if s[i].0 == key {
            return i;
        }
        i += 1;
    }
    i
}

fn positioned(text: Vec<char>, span: Span) -> (r: HuziError)
    ensures
        r.message@ == text@,
        r.line == span.line,
        r.column == span.column,
{
    HuziError { message: string_of(text.as_slice()), line: span.line, column: span.column }
}

fn has_name(v: &Vec<String>, x: &String) -> (r: bool)
    ensures
        r == views_of(v@).contains(x@),
{
    let mut i: usize = 0;
    while i < v.len()
        invariant
            0 <= i <= v.len(),
            forall|j: int| 0 <= j < i ==> v@[j]@ != x@,
        decreases v.len() - i,
    {
        if v[i] == *x {
            assert(views_of(v@)[i as int] == x@);
            return true;
        }
        i += 1;
    }
    assert(!views_of(v@).contains(x@)) by {
        if views_of(v@).contains(x@) {
            let k = choose|k: int| 0 <= k < views_of(v@).len() && views_of(v@)[k] == x@;
            assert(v@[k]@ == x@);
        }
    }
    false
}

proof fn lemma_first_repeat_prefix(names: Seq<Seq<char>>, k: int)
    requires
        0 <= k <= names.len(),
        first_repeat(names.take(k)) is Some,
    ensures
        first_repeat(names) == first_repeat(names.take(k)),
    decreases names.len() - k,
{
    if k < names.len() {
        let d = names.drop_last();
        assert(d.take(k) =~= names.take(k));
        lemma_first_repeat_prefix(d, k);
    } else {
        assert(names.take(k) =~= names);
    }
}

/// The first method name of a trait that repeats an earlier one.
fn repeated_method(t: &TraitDef) -> (r: Option<String>)
    ensures
        crate::paths::opt_text(r) == first_repeat(trait_method_names(*t)),
{
    let ghost names = trait_method_names(*t);
    let mut j: usize = 0;
    assert(names.take(0) =~= Seq::<Seq<char>>::empty());
    while j < t.methods.len()
        invariant
            0 <= j <= t.methods.len(),
            names == trait_method_names(*t),
            first_repeat(names.take(j as int)) is None,
        decreases t.methods.len() - j,
    {
        let ghost pre = names.take(j as int);
        let ghost cur = names.take(j + 1);
        assert(cur.drop_last() =~= pre);
        assert(cur.last() == t.methods@[j as int].name@);
        let mut k: usize = 0;
        while k < j
            invariant
                0 <= k <= j < t.methods.len(),
                names == trait_method_names(*t),
                pre == names.take(j as int),
                cur == names.take(j + 1),
                first_repeat(pre) is None,
                cur.drop_last() == pre,
                cur.last() == t.methods@[j as int].name@,
                forall|q: int| 0 <= q < k ==> t.methods@[q].name@ != t.methods@[j as int].name@,
            decreases j - k,
        {
            if t.methods[k].name == t.methods[j].name {
                assert(pre[k as int] == t.methods@[j as int].name@);
                assert(pre.contains(t.methods@[j as int].name@));
                assert(first_repeat(cur) == Some(t.methods@[j as int].name@));
                proof {
                    lemma_first_repeat_prefix(names, j + 1);
                }
                return Some(t.methods[j].name.clone());
            }
            k += 1;
        }
        assert(!pre.contains(t.methods@[j as int].name@)) by {
            if pre.contains(t.methods@[j as int].name@) {
                let q = choose|q: int| 0 <= q < pre.len() && pre[q] == t.methods@[j as int].name@;
                assert(pre[q] == t.methods@[q].name@);
            }
        }
        j += 1;
    }
    assert(names.take(t.methods.len() as int) =~= names);
    None
}

impl<'a> TraitDesugarer<'a> {
    /// Gathers the declarations of `stmts` in order; the first error stops
    /// the gathering.
    pub fn collect_from_stmts(&mut self, stmts: &'a [Spanned<Stmt>]) -> (r: Result<(), HuziError>)
        ensures
            final(self).tables() == collect_stmts(old(self).tables(), stmts@).0,
            reports(r, collect_stmts(old(self).tables(), stmts@).1),
    {
        let ghost t0 = self.tables();
        let mut i: usize = 0;
        assert(stmts@.take(0) =~= Seq::<Spanned<Stmt>>::empty());
        while i < stmts.len()
            invariant
                0 <= i <= stmts.len(),
                t0 == old(self).tables(),
                collect_stmts(t0, stmts@.take(i as int)) == (self.tables(), None::<ErrAt>),
            decreases stmts.len() - i,
        {
            let ghost before = self.tables();
            let s = &stmts[i];
            assert(stmts@.take(i + 1).drop_last() =~= stmts@.take(i as int));
            assert(stmts@.take(i + 1).last() == stmts@[i as int]);
            match &s.node {
                Stmt::Struct(d) => {
                    if !has_name(&self.known_types, &d.name) {
                        self.known_types.push(d.name.clone());
                    }
                    let p = key_position(&self.struct_fields, d.name.as_str());
                    proof {
                        lemma_key_index(before.structs, d.name@, p as int);
                    }
                    if p < self.struct_fields.len() {
                        self.struct_fields.set(p, (d.name.clone(), d));
                    } else {
                        self.struct_fields.push((d.name.clone(), d));
                    }
                    assert(self.tables().known =~= add_name(before.known, d.name@));
                    assert(self.tables().structs =~= keyed_insert(
                        before.structs,
                        d.name@,
                        field_table(d.fields@),
                    ));
                },
                Stmt::Enum(d) => {
                    if !has_name(&self.known_types, &d.name) {
                        self.known_types.push(d.name.clone());
                    }
                    assert(self.tables().known =~= add_name(before.known, d.name@));
                },
                Stmt::Trait(tr) => {
                    let p = key_position(&self.traits, tr.name.as_str());
                    proof {
                        lemma_key_index(before.traits, tr.name@, p as int);
                    }
                    if p < self.traits.len() {
                        let mut m: Vec<char> = Vec::new();
                        push_str(&mut m, "重复定义 trait '");
                        push_str(&mut m, tr.name.as_str());
                        push_str(&mut m, "':期望每个 trait 只定义一次,实际已存在同名定义");
                        proof {
                            lemma_collect_error(t0, stmts@, i + 1);
                        }
                        return Err(positioned(m, s.span));
                    }
                    match repeated_method(tr) {
                        Some(name) => {
                            let mut m: Vec<char> = Vec::new();
                            push_str(&mut m, "trait '");
                            push_str(&mut m, tr.name.as_str());
                            push_str(&mut m, "' 中重复定义方法 '");
                            push_str(&mut m, name.as_str());
                            push_str(&mut m, "':期望方法名唯一,实际出现多次");
                            proof {
                                lemma_collect_error(t0, stmts@, i + 1);
                            }
                            return Err(positioned(m, s.span));
                        },
                        None => {},
                    }
                    self.traits.push((tr.name.clone(), tr));
                    assert(self.tables().traits =~= before.traits.push((tr.name@, *tr)));
                },
                Stmt::Fn(f) => {
                    let p = key_position(&self.fn_return_types, f.name.as_str());
                    proof {
                        lemma_key_index(before.fn_returns, f.name@, p as int);
                    }
                    if p < self.fn_return_types.len() {
                        self.fn_return_types.set(p, (f.name.clone(), &f.return_type));
                    } else {
                        self.fn_return_types.push((f.name.clone(), &f.return_type));
                    }
                    assert(self.tables().fn_returns =~= keyed_insert(
                        before.fn_returns,
                        f.name@,
                        f.return_type,
                    ));
                },
                _ => {},
            }
            i += 1;
        }
        assert(stmts@.take(stmts.len() as int) =~= stmts@);
        Ok(())
    }
}

// ---------------------------------------------------------------------------
// Checking implementations
// ---------------------------------------------------------------------------

pub open spec fn impl_method_names(i: ImplBlock) -> Seq<Seq<char>> {
    i.methods@.map_values(|m: FnStmt| m.name@)
}

/// The first trait method the implementation leaves out.
pub open spec fn first_missing(tms: Seq<TraitMethodDef>, names: Seq<Seq<char>>) -> Option<Seq<char>>
    decreases tms.len(),
{
    if tms.len() == 0 {
        None
    } else if !names.contains(tms[0].name@) {
        Some(tms[0].name@)
    } else {
        first_missing(tms.drop_first(), names)
    }
}

pub open spec fn unknown_trait_text(name: Seq<char>) -> Seq<char> {
    "未知 trait '"@ + name + "':期望已定义的 trait,实际未找到"@
}

pub open spec fn unknown_target_text(trait_name: Seq<char>, target: Seq<char>) -> Seq<char> {
    "impl '"@ + trait_name + "' for '"@ + target + "' 的目标类型 '"@ + target
        + "' 未知:期望已定义的结构体/枚举,实际未找到"@
}

pub open spec fn missing_method_text(
    target: Seq<char>,
    trait_name: Seq<char>,
    method: Seq<char>,
    names: Seq<Seq<char>>,
) -> Seq<char> {
    "类型 '"@ + target + "' 实现 trait '"@ + trait_name + "' 缺少方法 '"@ + method + "':期望实现全部 "@
        + dec_digits(names.len()) + " 个方法 ["@ + join_comma(names) + "],实际缺失;请补上 `fn "@ + method
        + "(...)` 实现"@
}

pub open spec fn not_member_text(method: Seq<char>, trait_name: Seq<char>, names: Seq<Seq<char>>) -> Seq<char> {
    "方法 '"@ + method + "' 不是 trait '"@ + trait_name + "' 的成员:期望为 ["@ + join_comma(names)
        + "] 之一,实际多出"@
}

pub open spec fn conflict_text(
    target: Seq<char>,
    method: Seq<char>,
    existing: Seq<char>,
    trait_name: Seq<char>,
) -> Seq<char> {
    "类型 '"@ + target + "' 的方法 '"@ + method + "' 冲突:已由 trait '"@ + existing + "' 实现,当前 trait '"@
        + trait_name + "' 再次实现;期望每个方法只由一个 trait 提供,实际出现多次;帮助:改名其中一个方法,或通过 impl 归属区分调用"@
}

/// The value under `k`, or an empty table when there is none.
pub open spec fn entry_of<V>(s: Seq<(Seq<char>, Seq<V>)>, k: Seq<char>) -> Seq<V> {
    if key_index(s, k) < s.len() {
        s[key_index(s, k)].1
    } else {
        Seq::empty()
    }
}

/// The mangled name an implementation method is compiled under.
pub open spec fn mangled_text(target: Seq<char>, method: Seq<char>) -> Seq<char> {
    target + "__"@ + method
}

/// Records that trait `trait_name` provides method `m` of type `target`;
/// a method some other trait already provides for that type is refused.
/// The type gets an (empty) entry either way.
pub open spec fn record_method(
    t: TablesView,
    target: Seq<char>,
    trait_name: Seq<char>,
    m: FnStmt,
    line: usize,
    column: usize,
) -> Step {
    let e = entry_of(t.impls, target);
    let i = key_index(e, m.name@);
    if i < e.len() {
        (
            TablesView { impls: keyed_insert(t.impls, target, e), ..t },
            Some((conflict_text(target, m.name@, e[i].1, trait_name), line, column)),
        )
    } else {
        (
            TablesView {
                impls: keyed_insert(t.impls, target, e.push((m.name@, trait_name))),
                method_returns: keyed_insert(
                    t.method_returns,
                    target,
                    keyed_insert(entry_of(t.method_returns, target), m.name@, m.return_type),
                ),
                fn_returns: keyed_insert(t.fn_returns, mangled_text(target, m.name@), m.return_type),
                ..t
            },
            None,
        )
    }
}

/// The implementation's methods checked in order against trait `td`: each
/// must be a member with a matching signature, and is then recorded.
pub open spec fn validate_methods(t: TablesView, i: ImplBlock, td: TraitDef, ms: Seq<FnStmt>, span: Span) -> Step
    decreases ms.len(),
{
    if ms.len() == 0 {
        (t, None)
    } else {
        let prev = validate_methods(t, i, td, ms.drop_last(), span);
        if prev.1 is Some {
            prev
        } else {
            let m = ms.last();
            let names = trait_method_names(td);
            let k = crate::checks::name_index(names, m.name@);
            if k >= names.len() {
                (prev.0, Some((not_member_text(m.name@, td.name@, names), span.line, span.column)))
            } else {
                match sig_check(m, td.methods@[k], i.target_type@) {
                    Some(mm) => (
                        prev.0,
                        Some(
                            (
                                sig_message(m, td.methods@[k], td.name@, i.target_type@, mm),
                                span.line,
                                span.column,
                            ),
                        ),
                    ),
                    None => record_method(
                        prev.0,
                        i.target_type@,
                        i.trait_name@,
                        m,
                        span.line,
                        span.column,
                    ),
                }
            }
        }
    }
}

/// Checking one implementation: its trait and target type must be
/// declared, it must implement every trait method, and its methods are
/// then checked and recorded in order.
pub open spec fn validate_impl_spec(t: TablesView, i: ImplBlock, span: Span) -> Step {
    let ti = key_index(t.traits, i.trait_name@);
    if ti >= t.traits.len() {
        (t, Some((unknown_trait_text(i.trait_name@), span.line, span.column)))
    } else if !t.known.contains(i.target_type@) {
        (t, Some((unknown_target_text(i.trait_name@, i.target_type@), span.line, span.column)))
    } else {
        let td = t.traits[ti].1;
        match first_missing(td.methods@, impl_method_names(i)) {
            Some(mn) => (
                t,
                Some(
                    (
                        missing_method_text(i.target_type@, td.name@, mn, trait_method_names(td)),
                        span.line,
                        span.column,
                    ),
                ),
            ),
            None => validate_methods(t, i, td, i.methods@, span),
        }
    }
}

/// Every trait method's parameter count fits the counting the signature
/// check does (a machine limit).
pub open spec fn trait_params_fit(td: TraitDef) -> bool {
    forall|j: int| 0 <= j < td.methods@.len() ==> (#[trigger] td.methods@[j]).params@.len() < usize::MAX
}

pub open spec fn params_fit(t: TablesView) -> bool {
    forall|k: int| 0 <= k < t.traits.len() ==> trait_params_fit(#[trigger] t.traits[k].1)
}

proof fn lemma_methods_error(t: TablesView, i: ImplBlock, td: TraitDef, ms: Seq<FnStmt>, span: Span, k: int)
    requires
        0 <= k <= ms.len(),
        validate_methods(t, i, td, ms.take(k), span).1 is Some,
    ensures
        validate_methods(t, i, td, ms, span) == validate_methods(t, i, td, ms.take(k), span),
    decreases ms.len() - k,
{
    if k < ms.len() {
        let d = ms.drop_last();
        assert(d.take(k) =~= ms.take(k));
        lemma_methods_error(t, i, td, d, span, k);
    } else {
        assert(ms.take(k) =~= ms);
    }
}

fn impl_has_method(i: &ImplBlock, name: &String) -> (r: bool)
    ensures
        r == impl_method_names(*i).contains(name@),
{
    let mut k: usize = 0;
    while k < i.methods.len()
        invariant
            0 <= k <= i.methods.len(),
            forall|q: int| 0 <= q < k ==> i.methods@[q].name@ != name@,
        decreases i.methods.len() - k,
    {
        if i.methods[k].name == *name {
            assert(impl_method_names(*i)[k as int] == name@);
            return true;
        }
        k += 1;
    }
    assert(!impl_method_names(*i).contains(name@)) by {
        if impl_method_names(*i).contains(name@) {
            let q = choose|q: int|
                0 <= q < impl_method_names(*i).len() && impl_method_names(*i)[q] == name@;
            assert(i.methods@[q].name@ == name@);
        }
    }
    false
}

/// The position of the first trait method named `name`.
fn trait_method_index(td: &TraitDef, name: &String) -> (r: usize)
    ensures
        r == crate::checks::name_index(trait_method_names(*td), name@),
        r <= td.methods.len(),
{
    let ghost names = trait_method_names(*td);
    proof {
        crate::checks::lemma_name_index(names, name@);
    }
    let mut k: usize = 0;
    while k < td.methods.len()
        invariant
            0 <= k <= td.methods.len(),
            names == trait_method_names(*td),
            forall|q: int| 0 <= q < k ==> names[q] != name@,
            0 <= crate::checks::name_index(names, name@) <= names.len(),
            crate::checks::name_index(names, name@) < names.len() ==> names[crate::checks::name_index(
                names,
                name@,
            )] == name@,
            forall|q: int| 0 <= q < crate::checks::name_index(names, name@) ==> names[q] != name@,
        decreases td.methods.len() - k,
    {
        if td.methods[k].name == *name {
            assert(names[k as int] == name@);
            return k;
        }
        k += 1;
    }
    k
}

/// Appends the method names of a trait separated by `", "`.
fn push_method_names(out: &mut Vec<char>, td: &TraitDef)
    ensures
        final(out)@ == old(out)@ + join_comma(trait_method_names(*td)),
{
    let ghost start = out@;
    let ghost vs = trait_method_names(*td);
    let mut i: usize = 0;
    assert(vs.take(0) =~= Seq::<Seq<char>>::empty());
    assert(out@ =~= start + join_comma(vs.take(0)));
    while i < td.methods.len()
        invariant
            0 <= i <= td.methods.len(),
            vs == trait_method_names(*td),
            out@ == start + join_comma(vs.take(i as int)),
        decreases td.methods.len() - i,
    {
        let ghost t = vs.take(i + 1);
        assert(t.drop_last() =~= vs.take(i as int));
        assert(t.last() == td.methods@[i as int].name@);
        if i > 0 {
            push_str(out, ", ");
        }
        push_str(out, td.methods[i].name.as_str());
        proof {
            if i == 0 {
                assert(t =~= seq![td.methods@[0].name@]);
                assert(join_comma(vs.take(0)) =~= Seq::<char>::empty());
            }
        }
        assert(out@ =~= start + join_comma(t));
        i += 1;
    }
    assert(vs.take(td.methods.len() as int) =~= vs);
}

impl<'a> TraitDesugarer<'a> {
    /// Records that trait `trait_name` provides method `m` of `target_type`,
    /// with `m`'s return type under the method and under its mangled name.
    pub fn record_impl_method(
        &mut self,
        target_type: &str,
        trait_name: &str,
        m: &'a FnStmt,
        span: Span,
    ) -> (r: Result<(), HuziError>)
        ensures
            ({
                let (t, e) = record_method(
                    old(self).tables(),
                    target_type@,
                    trait_name@,
                    *m,
                    span.line,
                    span.column,
                );
                final(self).tables() == t && reports(r, e)
            }),
    {
        let ghost t0 = self.tables();
        let p = key_position(&self.implemented_methods, target_type);
        proof {
            lemma_key_index(t0.impls, target_type@, p as int);
        }
        if p == self.implemented_methods.len() {
            self.implemented_methods.push((target_type.to_owned(), Vec::new()));
            assert(pairs_view(self.implemented_methods@[p as int].1@) =~= Seq::<(Seq<char>, Seq<char>)>::empty());
        }
        let ghost e = entry_of(t0.impls, target_type@);
        assert(self.tables().impls =~= keyed_insert(t0.impls, target_type@, e));
        assert(self.tables().impls[p as int] == (target_type@, e));
        let mut entry: (String, Vec<(String, String)>) = (String::new(), Vec::new());
        self.implemented_methods.set_and_swap(p, &mut entry);
        assert(entry.0@ == target_type@);
        assert(pairs_view(entry.1@) == e);
        let q = key_position(&entry.1, m.name.as_str());
        proof {
            lemma_key_index(e, m.name@, q as int);
        }
        if q < entry.1.len() {
            let mut msg: Vec<char> = Vec::new();
            push_str(&mut msg, "类型 '");
            push_str(&mut msg, target_type);
            push_str(&mut msg, "' 的方法 '");
            push_str(&mut msg, m.name.as_str());
            push_str(&mut msg, "' 冲突:已由 trait '");
            push_str(&mut msg, entry.1[q].1.as_str());
            push_str(&mut msg, "' 实现,当前 trait '");
            push_str(&mut msg, trait_name);
            push_str(
                &mut msg,
                "' 再次实现;期望每个方法只由一个 trait 提供,实际出现多次;帮助:改名其中一个方法,或通过 impl 归属区分调用",
            );
            self.implemented_methods.set(p, entry);
            assert(self.tables().impls =~= keyed_insert(t0.impls, target_type@, e));
            return Err(positioned(msg, span));
        }
        entry.1.push((m.name.clone(), trait_name.to_owned()));
        assert(pairs_view(entry.1@) =~= e.push((m.name@, trait_name@)));
        self.implemented_methods.set(p, entry);
        assert(self.tables().impls =~= keyed_insert(
            t0.impls,
            target_type@,
            e.push((m.name@, trait_name@)),
        ));
        // the method's return type, per type
        let ghost mr = entry_of(t0.method_returns, target_type@);
        let p2 = key_position(&self.method_return_types, target_type);
        proof {
            lemma_key_index(t0.method_returns, target_type@, p2 as int);
        }
        if p2 == self.method_return_types.len() {
            self.method_return_types.push((target_type.to_owned(), Vec::new()));
            assert(returns_view(self.method_return_types@[p2 as int].1@) =~= Seq::<
                (Seq<char>, Option<Type>),
            >::empty());
        }
        assert(self.tables().method_returns[p2 as int] == (target_type@, mr));
        let mut e2: (String, Vec<(String, &'a Option<Type>)>) = (String::new(), Vec::new());
        self.method_return_types.set_and_swap(p2, &mut e2);
        assert(returns_view(e2.1@) == mr);
        let q2 = key_position(&e2.1, m.name.as_str());
        proof {
            lemma_key_index(mr, m.name@, q2 as int);
        }
        if q2 < e2.1.len() {
            e2.1.set(q2, (m.name.clone(), &m.return_type));
        } else {
            e2.1.push((m.name.clone(), &m.return_type));
        }
        assert(returns_view(e2.1@) =~= keyed_insert(mr, m.name@, m.return_type));
        self.method_return_types.set(p2, e2);
        assert(self.tables().method_returns =~= keyed_insert(
            t0.method_returns,
            target_type@,
            keyed_insert(mr, m.name@, m.return_type),
        ));
        // the return type under the mangled name
        let mut key: Vec<char> = Vec::new();
        push_str(&mut key, target_type);
        push_str(&mut key, "__");
        push_str(&mut key, m.name.as_str());
        let key = string_of(key.as_slice());
        assert(key@ =~= mangled_text(target_type@, m.name@));
        let p3 = key_position(&self.fn_return_types, key.as_str());
        proof {
            lemma_key_index(t0.fn_returns, key@, p3 as int);
        }
        if p3 < self.fn_return_types.len() {
            self.fn_return_types.set(p3, (key, &m.return_type));
        } else {
            self.fn_return_types.push((key, &m.return_type));
        }
        assert(self.tables().fn_returns =~= keyed_insert(
            t0.fn_returns,
            mangled_text(target_type@, m.name@),
            m.return_type,
        ));
        Ok(())
    }
}

impl<'a> TraitDesugarer<'a> {
    /// Checks `impl Trait for Type` against the declared trait (errors are
    /// reported at the `impl`) and records its methods. No spelling
    /// suggestion is appended to the unknown-name messages.
    pub fn validate_impl(&mut self, i: &'a ImplBlock, span: Span) -> (r: Result<(), HuziError>)
        requires
            params_fit(old(self).tables()),
        ensures
            ({
                let (t, e) = validate_impl_spec(old(self).tables(), *i, span);
                final(self).tables() == t && reports(r, e)
            }),
    {
        let ghost t0 = self.tables();
        let ti = key_position(&self.traits, i.trait_name.as_str());
        proof {
            lemma_key_index(t0.traits, i.trait_name@, ti as int);
        }
        if ti == self.traits.len() {
            let mut m: Vec<char> = Vec::new();
            push_str(&mut m, "未知 trait '");
            push_str(&mut m, i.trait_name.as_str());
            push_str(&mut m, "':期望已定义的 trait,实际未找到");
            return Err(positioned(m, span));
        }
        if !has_name(&self.known_types, &i.target_type) {
            let mut m: Vec<char> = Vec::new();
            push_str(&mut m, "impl '");
            push_str(&mut m, i.trait_name.as_str());
            push_str(&mut m, "' for '");
            push_str(&mut m, i.target_type.as_str());
            push_str(&mut m, "' 的目标类型 '");
            push_str(&mut m, i.target_type.as_str());
            push_str(&mut m, "' 未知:期望已定义的结构体/枚举,实际未找到");
            return Err(positioned(m, span));
        }
        let td: &'a TraitDef = self.traits[ti].1;
        assert(*td == t0.traits[ti as int].1);
        assert(trait_params_fit(*td));
        // every trait method must be implemented
        let ghost names = impl_method_names(*i);
        let mut k: usize = 0;
        assert(td.methods@.skip(0) =~= td.methods@);
        while k < td.methods.len()
            invariant
                0 <= k <= td.methods.len(),
                names == impl_method_names(*i),
                t0 == old(self).tables(),
                self.tables() == t0,
                ti < t0.traits.len(),
                key_index(t0.traits, i.trait_name@) == ti,
                t0.known.contains(i.target_type@),
                *td == t0.traits[ti as int].1,
                first_missing(td.methods@, names) == first_missing(td.methods@.skip(k as int), names),
            decreases td.methods.len() - k,
        {
            assert(td.methods@.skip(k as int)[0] == td.methods@[k as int]);
            assert(td.methods@.skip(k as int).drop_first() =~= td.methods@.skip(k + 1));
            if !impl_has_method(i, &td.methods[k].name) {
                let mut m: Vec<char> = Vec::new();
                push_str(&mut m, "类型 '");
                push_str(&mut m, i.target_type.as_str());
                push_str(&mut m, "' 实现 trait '");
                push_str(&mut m, td.name.as_str());
                push_str(&mut m, "' 缺少方法 '");
                push_str(&mut m, td.methods[k].name.as_str());
                push_str(&mut m, "':期望实现全部 ");
                push_decimal(&mut m, td.methods.len() as u64);
                push_str(&mut m, " 个方法 [");
                push_method_names(&mut m, td);
                push_str(&mut m, "],实际缺失;请补上 `fn ");
                push_str(&mut m, td.methods[k].name.as_str());
                push_str(&mut m, "(...)` 实现");
                assert(trait_method_names(*td).len() == td.methods@.len());
                assert(first_missing(td.methods@, names) == Some(td.methods@[k as int].name@));
                assert(m@ =~= missing_method_text(
                    i.target_type@,
                    td.name@,
                    td.methods@[k as int].name@,
                    trait_method_names(*td),
                ));
                return Err(positioned(m, span));
            }
            k += 1;
        }
        assert(td.methods@.skip(td.methods.len() as int) =~= Seq::<TraitMethodDef>::empty());
        // each method is a member with the trait's signature, then recorded
        let mut j: usize = 0;
        assert(i.methods@.take(0) =~= Seq::<FnStmt>::empty());
        while j < i.methods.len()
            invariant
                0 <= j <= i.methods.len(),
                t0 == old(self).tables(),
                ti < t0.traits.len(),
                *td == t0.traits[ti as int].1,
                trait_params_fit(*td),
                validate_impl_spec(t0, *i, span) == validate_methods(t0, *i, *td, i.methods@, span),
                validate_methods(t0, *i, *td, i.methods@.take(j as int), span) == (
                    self.tables(),
                    None::<ErrAt>,
                ),
            decreases i.methods.len() - j,
        {
            let m: &'a FnStmt = &i.methods[j];
            let ghost before = self.tables();
            assert(i.methods@.take(j + 1).drop_last() =~= i.methods@.take(j as int));
            assert(i.methods@.take(j + 1).last() == *m);
            let k = trait_method_index(td, &m.name);
            if k == td.methods.len() {
                let mut msg: Vec<char> = Vec::new();
                push_str(&mut msg, "方法 '");
                push_str(&mut msg, m.name.as_str());
                push_str(&mut msg, "' 不是 trait '");
                push_str(&mut msg, td.name.as_str());
                push_str(&mut msg, "' 的成员:期望为 [");
                push_method_names(&mut msg, td);
                push_str(&mut msg, "] 之一,实际多出");
                proof {
                    lemma_methods_error(t0, *i, *td, i.methods@, span, j + 1);
                }
                return Err(positioned(msg, span));
            }
            match validate_method_signature(
                m,
                &td.methods[k],
                td.name.as_str(),
                i.target_type.as_str(),
                span.line,
                span.column,
            ) {
                Err(e) => {
                    proof {
                        lemma_methods_error(t0, *i, *td, i.methods@, span, j + 1);
                    }
                    return Err(e);
                },
                Ok(()) => {},
            }
            let rec = self.record_impl_method(i.target_type.as_str(), i.trait_name.as_str(), m, span);
            match rec {
                Err(e) => {
                    proof {
                        lemma_methods_error(t0, *i, *td, i.methods@, span, j + 1);
                    }
                    return Err(e);
                },
                Ok(()) => {},
            }
            j += 1;
        }
        assert(i.methods@.take(i.methods.len() as int) =~= i.methods@);
        Ok(())
    }
}

// ---------------------------------------------------------------------------
// Whole programs
// ---------------------------------------------------------------------------

/// Declarations of the modules' programs gathered in order (modules without
/// a program add nothing); the first error ends the gathering.
pub open spec fn collect_modules(t: TablesView, ms: Seq<LoadedModule>) -> Step
    decreases ms.len(),
{
    if ms.len() == 0 {
        (t, None)
    } else {
        let prev = collect_modules(t, ms.drop_last());
        if prev.1 is Some {
            prev
        } else {
            match ms.last().program {
                Some(p) => collect_stmts(prev.0, p.statements@),
                None => prev,
            }
        }
    }
}

/// The program's declarations, then those of its modules.
pub open spec fn collect_program(t: TablesView, program: Program, ms: Seq<LoadedModule>) -> Step {
    let s1 = collect_stmts(t, program.statements@);
    if s1.1 is Some {
        s1
    } else {
        collect_modules(s1.0, ms)
    }
}

/// The `impl` blocks among `ss` checked in order; the first error ends the
/// checking.
pub open spec fn validate_stmts(t: TablesView, ss: Seq<Spanned<Stmt>>) -> Step
    decreases ss.len(),
{
    if ss.len() == 0 {
        (t, None)
    } else {
        let prev = validate_stmts(t, ss.drop_last());
        if prev.1 is Some {
            prev
        } else {
            match ss.last().node {
                Stmt::Impl(i) => validate_impl_spec(prev.0, i, ss.last().span),
                _ => prev,
            }
        }
    }
}

pub open spec fn validate_modules(t: TablesView, ms: Seq<LoadedModule>) -> Step
    decreases ms.len(),
{
    if ms.len() == 0 {
        (t, None)
    } else {
        let prev = validate_modules(t, ms.drop_last());
        if prev.1 is Some {
            prev
        } else {
            match ms.last().program {
                Some(p) => validate_stmts(prev.0, p.statements@),
                None => prev,
            }
        }
    }
}

/// The program's `impl` blocks, then those of its modules.
pub open spec fn validate_program(t: TablesView, program: Program, ms: Seq<LoadedModule>) -> Step {
    let s1 = validate_stmts(t, program.statements@);
    if s1.1 is Some {
        s1
    } else {
        validate_modules(s1.0, ms)
    }
}

proof fn lemma_record_keeps_traits(t: TablesView, target: Seq<char>, tn: Seq<char>, m: FnStmt, l: usize, c: usize)
    ensures
        record_method(t, target, tn, m, l, c).0.traits == t.traits,
        record_method(t, target, tn, m, l, c).0.known == t.known,
{
}

proof fn lemma_methods_keep_traits(t: TablesView, i: ImplBlock, td: TraitDef, ms: Seq<FnStmt>, span: Span)
    ensures
        validate_methods(t, i, td, ms, span).0.traits == t.traits,
        validate_methods(t, i, td, ms, span).0.known == t.known,
    decreases ms.len(),
{
    if ms.len() > 0 {
        lemma_methods_keep_traits(t, i, td, ms.drop_last(), span);
        let prev = validate_methods(t, i, td, ms.drop_last(), span);
        lemma_record_keeps_traits(prev.0, i.target_type@, i.trait_name@, ms.last(), span.line, span.column);
    }
}

/// Checking implementations changes neither the traits nor the known types.
proof fn lemma_validate_impl_keeps(t: TablesView, i: ImplBlock, span: Span)
    ensures
        validate_impl_spec(t, i, span).0.traits == t.traits,
        validate_impl_spec(t, i, span).0.known == t.known,
{
    let ti = key_index(t.traits, i.trait_name@);
    if ti < t.traits.len() {
        lemma_methods_keep_traits(t, i, t.traits[ti].1, i.methods@, span);
    }
}

proof fn lemma_validate_error(t: TablesView, ss: Seq<Spanned<Stmt>>, k: int)
    requires
        0 <= k <= ss.len(),
        validate_stmts(t, ss.take(k)).1 is Some,
    ensures
        validate_stmts(t, ss) == validate_stmts(t, ss.take(k)),
    decreases ss.len() - k,
{
    if k < ss.len() {
        let d = ss.drop_last();
        assert(d.take(k) =~= ss.take(k));
        lemma_validate_error(t, d, k);
    } else {
        assert(ss.take(k) =~= ss);
    }
}

proof fn lemma_modules_error(ms: Seq<LoadedModule>, k: int, f: spec_fn(Seq<LoadedModule>) -> Step)
    requires
        0 <= k <= ms.len(),
        f(ms.take(k)).1 is Some,
        forall|xs: Seq<LoadedModule>| xs.len() > 0 && (#[trigger] f(xs.drop_last())).1 is Some ==> f(xs) == f(xs.drop_last()),
    ensures
        f(ms) == f(ms.take(k)),
    decreases ms.len() - k,
{
    if k < ms.len() {
        let d = ms.drop_last();
        assert(d.take(k) =~= ms.take(k));
        lemma_modules_error(d, k, f);
    } else {
        assert(ms.take(k) =~= ms);
    }
}

impl<'a> TraitDesugarer<'a> {
    /// Gathers the declarations of the program and of its modules' programs.
    pub fn collect_types_and_traits(&mut self, program: &'a Program, modules: &'a [LoadedModule]) -> (r: Result<(), HuziError>)
        ensures
            final(self).tables() == collect_program(old(self).tables(), *program, modules@).0,
            reports(r, collect_program(old(self).tables(), *program, modules@).1),
    {
        let ghost t0 = self.tables();
        match self.collect_from_stmts(program.statements.as_slice()) {
            Err(e) => {
                return Err(e);
            },
            Ok(()) => {},
        }
        let ghost t1 = self.tables();
        let mut i: usize = 0;
        assert(modules@.take(0) =~= Seq::<LoadedModule>::empty());
        while i < modules.len()
            invariant
                0 <= i <= modules.len(),
                t0 == old(self).tables(),
                collect_stmts(t0, program.statements@) == (t1, None::<ErrAt>),
                collect_modules(t1, modules@.take(i as int)) == (self.tables(), None::<ErrAt>),
            decreases modules.len() - i,
        {
            let m: &'a LoadedModule = &modules[i];
            assert(modules@.take(i + 1).drop_last() =~= modules@.take(i as int));
            assert(modules@.take(i + 1).last() == *m);
            match &m.program {
                Some(p) => {
                    match self.collect_from_stmts(p.statements.as_slice()) {
                        Err(e) => {
                            proof {
                                lemma_modules_error(
                                    modules@,
                                    i + 1,
                                    |xs: Seq<LoadedModule>| collect_modules(t1, xs),
                                );
                            }
                            return Err(e);
                        },
                        Ok(()) => {},
                    }
                },
                None => {},
            }
            i += 1;
        }
        assert(modules@.take(modules.len() as int) =~= modules@);
        Ok(())
    }

    fn validate_stmts_exec(&mut self, stmts: &'a [Spanned<Stmt>]) -> (r: Result<(), HuziError>)
        requires
            params_fit(old(self).tables()),
        ensures
            final(self).tables() == validate_stmts(old(self).tables(), stmts@).0,
            reports(r, validate_stmts(old(self).tables(), stmts@).1),
            params_fit(final(self).tables()),
    {
        let ghost t0 = self.tables();
        let mut i: usize = 0;
        assert(stmts@.take(0) =~= Seq::<Spanned<Stmt>>::empty());
        while i < stmts.len()
            invariant
                0 <= i <= stmts.len(),
                t0 == old(self).tables(),
                validate_stmts(t0, stmts@.take(i as int)) == (self.tables(), None::<ErrAt>),
                params_fit(self.tables()),
            decreases stmts.len() - i,
        {
            let s: &'a Spanned<Stmt> = &stmts[i];
            assert(stmts@.take(i + 1).drop_last() =~= stmts@.take(i as int));
            assert(stmts@.take(i + 1).last() == *s);
            match &s.node {
                Stmt::Impl(b) => {
                    let ghost before = self.tables();
                    proof {
                        lemma_validate_impl_keeps(before, *b, s.span);
                    }
                    match self.validate_impl(b, s.span) {
                        Err(e) => {
                            proof {
                                lemma_validate_error(t0, stmts@, i + 1);
                            }
                            return Err(e);
                        },
                        Ok(()) => {},
                    }
                },
                _ => {},
            }
            i += 1;
        }
        assert(stmts@.take(stmts.len() as int) =~= stmts@);
        Ok(())
    }

    /// Checks and records every `impl` block of the program, then of its
    /// modules' programs.
    pub fn validate_and_collect_impls(&mut self, program: &'a Program, modules: &'a [LoadedModule]) -> (r: Result<(), HuziError>)
        requires
            params_fit(old(self).tables()),
        ensures
            final(self).tables() == validate_program(old(self).tables(), *program, modules@).0,
            reports(r, validate_program(old(self).tables(), *program, modules@).1),
    {
        let ghost t0 = self.tables();
        match self.validate_stmts_exec(program.statements.as_slice()) {
            Err(e) => {
                return Err(e);
            },
            Ok(()) => {},
        }
        let ghost t1 = self.tables();
        let mut i: usize = 0;
        assert(modules@.take(0) =~= Seq::<LoadedModule>::empty());
        while i < modules.len()
            invariant
                0 <= i <= modules.len(),
                t0 == old(self).tables(),
                validate_stmts(t0, program.statements@) == (t1, None::<ErrAt>),
                validate_modules(t1, modules@.take(i as int)) == (self.tables(), None::<ErrAt>),
                params_fit(self.tables()),
            decreases modules.len() - i,
        {
            let m: &'a LoadedModule = &modules[i];
            assert(modules@.take(i + 1).drop_last() =~= modules@.take(i as int));
            assert(modules@.take(i + 1).last() == *m);
            match &m.program {
                Some(p) => {
                    match self.validate_stmts_exec(p.statements.as_slice()) {
                        Err(e) => {
                            proof {
                                lemma_modules_error(
                                    modules@,
                                    i + 1,
                                    |xs: Seq<LoadedModule>| validate_modules(t1, xs),
                                );
                            }
                            return Err(e);
                        },
                        Ok(()) => {},
                    }
                },
                None => {},
            }
            i += 1;
        }
        assert(modules@.take(modules.len() as int) =~= modules@);
        Ok(())
    }
}

// ---------------------------------------------------------------------------
// What an accepted implementation guarantees
// ---------------------------------------------------------------------------

proof fn lemma_no_missing(tms: Seq<TraitMethodDef>, names: Seq<Seq<char>>)
    requires
        first_missing(tms, names) is None,
    ensures
        forall|k: int| 0 <= k < tms.len() ==> names.contains(#[trigger] tms[k].name@),
    decreases tms.len(),
{
    if tms.len() > 0 {
        lemma_no_missing(tms.drop_first(), names);
        assert forall|k: int| 0 <= k < tms.len() implies names.contains(#[trigger] tms[k].name@) by {
            if k > 0 {
                assert(tms[k] == tms.drop_first()[k - 1]);
            }
        }
    }
}

proof fn lemma_methods_accepted(t: TablesView, i: ImplBlock, td: TraitDef, ms: Seq<FnStmt>, span: Span)
    requires
        validate_methods(t, i, td, ms, span).1 is None,
    ensures
        forall|j: int|
            0 <= j < ms.len() ==> {
                let k = crate::checks::name_index(trait_method_names(td), (#[trigger] ms[j]).name@);
                &&& 0 <= k < td.methods@.len()
                &&& td.methods@[k].name@ == ms[j].name@
                &&& sig_check(ms[j], td.methods@[k], i.target_type@) is None
            },
    decreases ms.len(),
{
    if ms.len() > 0 {
        let d = ms.drop_last();
        let prev = validate_methods(t, i, td, d, span);
        lemma_methods_accepted(t, i, td, d, span);
        let m = ms.last();
        crate::checks::lemma_name_index(trait_method_names(td), m.name@);
        assert forall|j: int| 0 <= j < ms.len() implies {
            let k = crate::checks::name_index(trait_method_names(td), (#[trigger] ms[j]).name@);
            &&& 0 <= k < td.methods@.len()
            &&& td.methods@[k].name@ == ms[j].name@
            &&& sig_check(ms[j], td.methods@[k], i.target_type@) is None
        } by {
            if j < ms.len() - 1 {
                assert(ms[j] == d[j]);
            } else {
                let k = crate::checks::name_index(trait_method_names(td), m.name@);
                assert(trait_method_names(td)[k] == td.methods@[k].name@);
            }
        }
    }
}

/// An implementation the check accepts is of a declared trait for a
/// declared type, implements every method of the trait, and every one of
/// its methods is a trait method with the trait's signature.
pub proof fn law_accepted_impl_conforms(t: TablesView, i: ImplBlock, span: Span)
    requires
        validate_impl_spec(t, i, span).1 is None,
    ensures
        key_index(t.traits, i.trait_name@) < t.traits.len(),
        t.known.contains(i.target_type@),
        ({
            let td = t.traits[key_index(t.traits, i.trait_name@)].1;
            &&& forall|k: int|
                0 <= k < td.methods@.len() ==> impl_method_names(i).contains(
                    #[trigger] td.methods@[k].name@,
                )
            &&& forall|j: int|
                0 <= j < i.methods@.len() ==> {
                    let k = crate::checks::name_index(
                        trait_method_names(td),
                        (#[trigger] i.methods@[j]).name@,
                    );
                    &&& 0 <= k < td.methods@.len()
                    &&& td.methods@[k].name@ == i.methods@[j].name@
                    &&& sig_check(i.methods@[j], td.methods@[k], i.target_type@) is None
                }
        }),
{
    let td = t.traits[key_index(t.traits, i.trait_name@)].1;
    lemma_no_missing(td.methods@, impl_method_names(i));
    lemma_methods_accepted(t, i, td, i.methods@, span);
}

/// For each type, no method is recorded as provided by two traits.
pub open spec fn providers_unique(t: TablesView) -> bool {
    forall|k: int| 0 <= k < t.impls.len() ==> crate::keyed::names_unique(#[trigger] t.impls[k].1)
}

proof fn lemma_record_unique(t: TablesView, target: Seq<char>, tn: Seq<char>, m: FnStmt, l: usize, c: usize)
    requires
        providers_unique(t),
        crate::keyed::names_unique(t.impls),
    ensures
        providers_unique(record_method(t, target, tn, m, l, c).0),
        crate::keyed::names_unique(record_method(t, target, tn, m, l, c).0.impls),
{
    let s = t.impls;
    let p = key_index(s, target);
    crate::keyed::lemma_key_index_bounds(s, target);
    let e = entry_of(s, target);
    assert(crate::keyed::names_unique(e)) by {
        if p < s.len() {
            assert(e == s[p].1);
        } else {
            assert(e =~= Seq::<(Seq<char>, Seq<char>)>::empty());
        }
    }
    let q = key_index(e, m.name@);
    crate::keyed::lemma_key_index_bounds(e, m.name@);
    let e2 = if q < e.len() { e } else { e.push((m.name@, tn)) };
    assert(crate::keyed::names_unique(e2)) by {
        if q >= e.len() {
            assert forall|a: int, b: int| 0 <= a < b < e2.len() implies e2[a].0 != e2[b].0 by {
                if b == e.len() {
                    assert(e2[a] == e[a]);
                }
            }
        }
    }
    crate::keyed::lemma_keyed_insert_unique(s, target, e2, p);
    let r = keyed_insert(s, target, e2);
    assert forall|k: int| 0 <= k < r.len() implies crate::keyed::names_unique(#[trigger] r[k].1) by {
        if k == p {
        } else {
            assert(r[k] == s[k]);
        }
    }
}

proof fn lemma_methods_unique(t: TablesView, i: ImplBlock, td: TraitDef, ms: Seq<FnStmt>, span: Span)
    requires
        providers_unique(t),
        crate::keyed::names_unique(t.impls),
    ensures
        providers_unique(validate_methods(t, i, td, ms, span).0),
        crate::keyed::names_unique(validate_methods(t, i, td, ms, span).0.impls),
    decreases ms.len(),
{
    if ms.len() > 0 {
        lemma_methods_unique(t, i, td, ms.drop_last(), span);
        let prev = validate_methods(t, i, td, ms.drop_last(), span);
        lemma_record_unique(prev.0, i.target_type@, i.trait_name@, ms.last(), span.line, span.column);
    }
}

/// Checking an implementation, accepted or not, never records a method of
/// a type as provided by two traits.
pub proof fn law_one_trait_per_method(t: TablesView, i: ImplBlock, span: Span)
    requires
        providers_unique(t),
        crate::keyed::names_unique(t.impls),
    ensures
        providers_unique(validate_impl_spec(t, i, span).0),
        crate::keyed::names_unique(validate_impl_spec(t, i, span).0.impls),
{
    let ti = key_index(t.traits, i.trait_name@);
    if ti < t.traits.len() && t.known.contains(i.target_type@) {
        lemma_methods_unique(t, i, t.traits[ti].1, i.methods@, span);
    }
}

// ---------------------------------------------------------------------------
// Types of expressions
// ---------------------------------------------------------------------------

/// The value under key `k`, if any.
pub open spec fn lookup<V>(s: Seq<(Seq<char>, V)>, k: Seq<char>) -> Option<V> {
    if key_index(s, k) < s.len() {
        Some(s[key_index(s, k)].1)
    } else {
        None
    }
}

/// Variables in scope with their types.
pub open spec fn env_view(s: Seq<(String, Type)>) -> Seq<(Seq<char>, Type)> {
    s.map_values(|p: (String, Type)| (p.0@, p.1))
}

pub open spec fn lit_type(l: Literal) -> Type {
    match l {
        Literal::Int(_) => Type::I32,
        Literal::Float(_) => Type::F64,
        Literal::Bool(_) => Type::Bool,
        Literal::String(_) => Type::Str,
        Literal::Char(_) => Type::Char,
    }
}

pub open spec fn named_of(t: Type) -> Option<Seq<char>> {
    match t {
        Type::Named(n) => Some(n@),
        _ => None,
    }
}

/// The struct a value of type `t` gives fields of: a named type, or a
/// named type in one `Box`.
pub open spec fn struct_name_of(t: Type) -> Option<Seq<char>> {
    match t {
        Type::Named(n) => Some(n@),
        Type::Box(inner) => named_of(*inner),
        _ => None,
    }
}

/// The type an expression has, as far as trait checking infers it:
/// variables from the scope, literals, struct literals, fields of structs
/// (through one `Box`), calls of functions and methods by their declared
/// return types, and boxes of those.
pub open spec fn infer_type(t: TablesView, e: Expr, env: Seq<(Seq<char>, Type)>) -> Option<Type>
    decreases e,
{
    match e {
        Expr::Ident(n) => lookup(env, n@),
        Expr::Literal(l) => Some(lit_type(l)),
        Expr::StructLiteral(s) => Some(Type::Named(s.name)),
        Expr::FieldAccess(fa) => match infer_type(t, *fa.base, env) {
            Some(bt) => match struct_name_of(bt) {
                Some(sn) => match lookup(t.structs, sn) {
                    Some(fields) => lookup(fields, fa.field@),
                    None => None,
                },
                None => None,
            },
            None => None,
        },
        Expr::Call(c) => match *c.callee {
            Expr::Ident(name) => match lookup(t.fn_returns, name@) {
                Some(o) => o,
                None => None,
            },
            _ => None,
        },
        Expr::MethodCall(mc) => match infer_type(t, *mc.receiver, env) {
            Some(rt) => match named_of(rt) {
                Some(n) => match lookup(t.method_returns, n) {
                    Some(ms) => match lookup(ms, mc.method@) {
                        Some(o) => o,
                        None => None,
                    },
                    None => None,
                },
                None => None,
            },
            None => None,
        },
        Expr::BoxAlloc(inner) => match infer_type(t, *inner, env) {
            Some(it) => Some(Type::Box(Box::new(it))),
            None => None,
        },
        _ => None,
    }
}

proof fn lemma_same_names(a: Type, b: Type)
    requires
        same_type(a, b),
    ensures
        named_of(a) == named_of(b),
        struct_name_of(a) == struct_name_of(b),
{
    match (a, b) {
        (Type::Box(x), Type::Box(y)) => {
            assert(same_type(*x, *y));
        },
        _ => {},
    }
}

/// Looking a key up after `keyed_insert`.
proof fn lemma_lookup_insert<V>(s: Seq<(Seq<char>, V)>, k: Seq<char>, v: V, f: Seq<char>)
    ensures
        lookup(keyed_insert(s, k, v), f) == if f == k {
            Some(v)
        } else {
            lookup(s, f)
        },
{
    crate::keyed::lemma_key_index_bounds(s, k);
    crate::keyed::lemma_key_index_bounds(s, f);
    let i = key_index(s, k);
    let r = keyed_insert(s, k, v);
    let j = key_index(s, f);
    if f == k {
        lemma_key_index(r, f, i);
    } else if j < s.len() {
        if j < i || i >= s.len() {
            lemma_key_index(r, f, j);
        } else {
            // j > i since s[i].0 == k != f == s[j].0
            assert(j != i);
            lemma_key_index(r, f, j);
        }
    } else {
        if i < s.len() {
            lemma_key_index(r, f, r.len() as int);
        } else {
            assert forall|q: int| 0 <= q < r.len() implies r[q].0 != f by {
                if q < s.len() {
                    assert(r[q] == s[q]);
                }
            }
            lemma_key_index(r, f, r.len() as int);
        }
    }
}

/// The type of the last field named `f`.
pub open spec fn last_field(fs: Seq<StructField>, f: Seq<char>) -> Option<Type>
    decreases fs.len(),
{
    if fs.len() == 0 {
        None
    } else if fs.last().name@ == f {
        Some(fs.last().field_type)
    } else {
        last_field(fs.drop_last(), f)
    }
}

proof fn lemma_field_table_lookup(fs: Seq<StructField>, f: Seq<char>)
    ensures
        lookup(field_table(fs), f) == last_field(fs, f),
    decreases fs.len(),
{
    if fs.len() > 0 {
        lemma_field_table_lookup(fs.drop_last(), f);
        lemma_lookup_insert(field_table(fs.drop_last()), fs.last().name@, fs.last().field_type, f);
    } else {
        crate::keyed::lemma_key_index_bounds(field_table(fs), f);
    }
}

fn last_field_type(d: &StructDef, f: &String) -> (r: Option<Type>)
    ensures
        same_opt_type(r, last_field(d.fields@, f@)),
{
    let mut j: usize = d.fields.len();
    assert(d.fields@.take(j as int) =~= d.fields@);
    while j > 0
        invariant
            0 <= j <= d.fields.len(),
            last_field(d.fields@, f@) == last_field(d.fields@.take(j as int), f@),
        decreases j,
    {
        let ghost t = d.fields@.take(j as int);
        assert(t.last() == d.fields@[j - 1]);
        assert(t.drop_last() =~= d.fields@.take(j - 1));
        if d.fields[j - 1].name == *f {
            return Some(copy_type(&d.fields[j - 1].field_type));
        }
        j -= 1;
    }
    None
}

impl<'a> TraitDesugarer<'a> {
    /// The type of `expr` in scope `env`, as `infer_type` describes it.
    pub fn infer_expr_type(&self, expr: &Expr, env: &Vec<(String, Type)>) -> (r: Option<Type>)
        ensures
            same_opt_type(r, infer_type(self.tables(), *expr, env_view(env@))),
        decreases expr,
    {
        let ghost t = self.tables();
        let ghost ev = env_view(env@);
        match expr {
            Expr::Ident(n) => {
                let p = key_position(env, n.as_str());
                proof {
                    lemma_key_index(ev, n@, p as int);
                }
                if p < env.len() {
                    Some(copy_type(&env[p].1))
                } else {
                    None
                }
            },
            Expr::Literal(l) => match l {
                Literal::Int(_) => Some(Type::I32),
                Literal::Float(_) => Some(Type::F64),
                Literal::Bool(_) => Some(Type::Bool),
                Literal::String(_) => Some(Type::Str),
                Literal::Char(_) => Some(Type::Char),
            },
            Expr::StructLiteral(s) => Some(Type::Named(s.name.clone())),
            Expr::FieldAccess(fa) => {
                let bt = match self.infer_expr_type(&fa.base, env) {
                    Some(x) => x,
                    None => {
                        return None;
                    },
                };
                proof {
                    lemma_same_names(bt, infer_type(t, *fa.base, ev).unwrap());
                }
                let sn: &String = match &bt {
                    Type::Named(n) => n,
                    Type::Box(inner) => match &**inner {
                        Type::Named(n) => n,
                        _ => {
                            return None;
                        },
                    },
                    _ => {
                        return None;
                    },
                };
                assert(struct_name_of(bt) == Some(sn@));
                let p = key_position(&self.struct_fields, sn.as_str());
                proof {
                    lemma_key_index(t.structs, sn@, p as int);
                }
                if p == self.struct_fields.len() {
                    return None;
                }
                let d: &StructDef = self.struct_fields[p].1;
                proof {
                    lemma_field_table_lookup(d.fields@, fa.field@);
                }
                last_field_type(d, &fa.field)
            },
            Expr::Call(c) => match &*c.callee {
                Expr::Ident(name) => {
                    let p = key_position(&self.fn_return_types, name.as_str());
                    proof {
                        lemma_key_index(t.fn_returns, name@, p as int);
                    }
                    if p < self.fn_return_types.len() {
                        copy_opt_type(self.fn_return_types[p].1)
                    } else {
                        None
                    }
                },
                _ => None,
            },
            Expr::MethodCall(mc) => {
                let rt = match self.infer_expr_type(&mc.receiver, env) {
                    Some(x) => x,
                    None => {
                        return None;
                    },
                };
                proof {
                    lemma_same_names(rt, infer_type(t, *mc.receiver, ev).unwrap());
                }
                let n: &String = match &rt {
                    Type::Named(n) => n,
                    _ => {
                        return None;
                    },
                };
                let p = key_position(&self.method_return_types, n.as_str());
                proof {
                    lemma_key_index(t.method_returns, n@, p as int);
                }
                if p == self.method_return_types.len() {
                    return None;
                }
                let ms = &self.method_return_types[p].1;
                let q = key_position(ms, mc.method.as_str());
                proof {
                    lemma_key_index(returns_view(ms@), mc.method@, q as int);
                }
                if q < ms.len() {
                    copy_opt_type(ms[q].1)
                } else {
                    None
                }
            },
            Expr::BoxAlloc(inner) => match self.infer_expr_type(inner, env) {
                Some(it) => Some(Type::Box(Box::new(it))),
                None => None,
            },
            _ => None,
        }
    }
}

} // verus!
