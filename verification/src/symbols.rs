//! A light symbol table for one program: top-level definitions and, inside
//! each function, the `let` and `for` bindings, in source order.
use crate::ast::{
    join_comma, push_type, push_types, span_ordered, type_text, types_text, Block, EnumDef, Expr,
    FnParam, FnStmt, LetStmt, Program, Span, Spanned, Stmt, StructDef,
};
use crate::text::{chars_of, push_str, string_of};
use vstd::prelude::*;

verus! {

/// What a symbol names.
#[derive(Debug, Clone, Copy, PartialEq, Eq, Structural)]
pub enum SymbolKind {
    Function,
    Struct,
    Enum,
    Variant,
    Variable,
    Param,
    Module,
    Trait,
}

/// A symbol: its name, kind, the span of the statement that defines it and
/// a signature line.
#[derive(Debug, Clone, PartialEq, Eq)]
pub struct Symbol {
    pub name: String,
    pub kind: SymbolKind,
    pub span: Span,
    pub detail: String,
}

pub struct SymbolView {
    pub name: Seq<char>,
    pub kind: SymbolKind,
    pub span: Span,
    pub detail: Seq<char>,
}

impl View for Symbol {
    type V = SymbolView;

    open spec fn view(&self) -> SymbolView {
        SymbolView { name: self.name@, kind: self.kind, span: self.span, detail: self.detail@ }
    }
}

pub open spec fn syms_view(s: Seq<Symbol>) -> Seq<SymbolView> {
    s.map_values(|x: Symbol| x@)
}

pub open spec fn sym(name: Seq<char>, kind: SymbolKind, span: Span, detail: Seq<char>) -> SymbolView {
    SymbolView { name, kind, span, detail }
}

/// `<A, B>`, or nothing without type parameters.
pub open spec fn type_params_text(ps: Seq<String>) -> Seq<char> {
    if ps.len() == 0 {
        Seq::empty()
    } else {
        "<"@ + join_comma(ps.map_values(|p: String| p@)) + ">"@
    }
}

pub open spec fn param_text(p: FnParam) -> Seq<char> {
    p.name@ + ": "@ + type_text(p.param_type)
}

/// `fn name<T>(a: i32, b: str): i32`.
pub open spec fn fn_signature_text(f: FnStmt) -> Seq<char> {
    "fn "@ + f.name@ + type_params_text(f.type_params@) + "("@ + join_comma(
        f.params@.map_values(|p: FnParam| param_text(p)),
    ) + ")"@ + match f.return_type {
        Some(t) => ": "@ + type_text(t),
        None => Seq::empty(),
    }
}

/// `let [mut ]name[: type]`.
pub open spec fn let_detail(l: LetStmt) -> Seq<char> {
    "let "@ + (if l.mutable {
        "mut "@
    } else {
        Seq::empty()
    }) + l.name@ + match l.type_annotation {
        Some(t) => ": "@ + type_text(t),
        None => Seq::empty(),
    }
}

pub open spec fn let_sym(span: Span, l: LetStmt) -> SymbolView {
    sym(l.name@, SymbolKind::Variable, span, let_detail(l))
}

pub open spec fn struct_syms(span: Span, d: StructDef) -> Seq<SymbolView> {
    seq![sym(d.name@, SymbolKind::Struct, span, "struct "@ + d.name@ + type_params_text(d.type_params@))]
}

pub open spec fn variant_detail(enum_name: Seq<char>, v: crate::ast::EnumVariant) -> Seq<char> {
    if v.payloads@.len() == 0 {
        enum_name + "::"@ + v.name@
    } else {
        enum_name + "::"@ + v.name@ + "("@ + types_text(v.payloads@) + ")"@
    }
}

/// The enum itself, then each variant.
pub open spec fn enum_syms(span: Span, d: EnumDef) -> Seq<SymbolView> {
    seq![sym(d.name@, SymbolKind::Enum, span, "enum "@ + d.name@)] + d.variants@.map_values(
        |v: crate::ast::EnumVariant|
            sym(v.name@, SymbolKind::Variant, span, variant_detail(d.name@, v)),
    )
}

pub open spec fn params_syms(span: Span, ps: Seq<FnParam>) -> Seq<SymbolView> {
    ps.map_values(|p: FnParam| sym(p.name@, SymbolKind::Param, span, param_text(p)))
}

pub open spec fn import_sym(span: Span, name: Seq<char>) -> SymbolView {
    sym(name, SymbolKind::Module, span, "import "@ + name)
}

pub open spec fn export_sym(span: Span, path: Seq<char>, wildcard: bool) -> SymbolView {
    sym(
        path,
        SymbolKind::Module,
        span,
        "export "@ + if wildcard {
            path + "::*"@
        } else {
            path
        },
    )
}

/// A function, its parameters, then what its body binds.
pub open spec fn fn_syms(span: Span, f: FnStmt) -> Seq<SymbolView>
    decreases f,
{
    seq![sym(f.name@, SymbolKind::Function, span, fn_signature_text(f))] + params_syms(
        span,
        f.params@,
    ) + block_syms(f.body)
}

pub open spec fn methods_syms(span: Span, fs: Seq<FnStmt>) -> Seq<SymbolView>
    decreases fs,
{
    if fs.len() == 0 {
        Seq::empty()
    } else {
        methods_syms(span, fs.drop_last()) + fn_syms(span, fs.last())
    }
}

pub open spec fn block_syms(b: Block) -> Seq<SymbolView>
    decreases b,
{
    stmts_syms(b.statements@)
}

pub open spec fn stmts_syms(ss: Seq<Spanned<Stmt>>) -> Seq<SymbolView>
    decreases ss,
{
    if ss.len() == 0 {
        Seq::empty()
    } else {
        stmts_syms(ss.drop_last()) + inner_syms(ss.last())
    }
}

pub open spec fn elif_syms(es: Seq<(Expr, Block)>) -> Seq<SymbolView>
    decreases es,
{
    if es.len() == 0 {
        Seq::empty()
    } else {
        elif_syms(es.drop_last()) + block_syms(es.last().1)
    }
}

pub open spec fn opt_block_syms(b: Option<Block>) -> Seq<SymbolView>
    decreases b,
{
    match b {
        Some(x) => block_syms(x),
        None => Seq::empty(),
    }
}

/// The symbols a statement inside a block defines.
pub open spec fn inner_syms(s: Spanned<Stmt>) -> Seq<SymbolView>
    decreases s,
{
    match s.node {
        Stmt::Let(l) => seq![let_sym(s.span, l)],
        Stmt::For(f) => seq![sym(f.var_name@, SymbolKind::Variable, s.span, "for "@ + f.var_name@)]
            + block_syms(f.body),
        Stmt::Block(b) => block_syms(b),
        Stmt::If(i) => block_syms(i.then_branch) + elif_syms(i.elif_branches@) + opt_block_syms(
            i.else_branch,
        ),
        Stmt::While(w) => block_syms(w.body),
        Stmt::Fn(f) => fn_syms(s.span, f),
        Stmt::Struct(d) => struct_syms(s.span, d),
        Stmt::Enum(d) => enum_syms(s.span, d),
        Stmt::Import(i) => seq![import_sym(s.span, i.name@)],
        Stmt::Export(e) => seq![export_sym(s.span, e.path@, e.is_wildcard)],
        Stmt::Defer(inner) => inner_syms(*inner),
        _ => Seq::empty(),
    }
}

/// The symbols a top-level statement defines.
pub open spec fn top_syms(s: Spanned<Stmt>) -> Seq<SymbolView>
    decreases s,
{
    match s.node {
        Stmt::Fn(f) => fn_syms(s.span, f),
        Stmt::Struct(d) => struct_syms(s.span, d),
        Stmt::Enum(d) => enum_syms(s.span, d),
        Stmt::Trait(t) => seq![sym(t.name@, SymbolKind::Trait, s.span, "trait "@ + t.name@)]
            + t.methods@.map_values(
            |m: crate::ast::TraitMethodDef|
                sym(m.name@, SymbolKind::Function, s.span, "fn "@ + m.name@ + "(...)"@),
        ),
        Stmt::Impl(i) => methods_syms(s.span, i.methods@),
        Stmt::Let(l) => seq![let_sym(s.span, l)],
        Stmt::Import(i) => seq![import_sym(s.span, i.name@)],
        Stmt::Export(e) => seq![export_sym(s.span, e.path@, e.is_wildcard)],
        Stmt::Block(b) => block_syms(b),
        Stmt::If(i) => block_syms(i.then_branch) + elif_syms(i.elif_branches@) + opt_block_syms(
            i.else_branch,
        ),
        Stmt::For(f) => seq![sym(f.var_name@, SymbolKind::Variable, s.span, "for "@ + f.var_name@)]
            + block_syms(f.body),
        Stmt::While(w) => block_syms(w.body),
        _ => Seq::empty(),
    }
}

/// The symbols of a whole program, statement by statement.
pub open spec fn program_syms(ss: Seq<Spanned<Stmt>>) -> Seq<SymbolView>
    decreases ss.len(),
{
    if ss.len() == 0 {
        Seq::empty()
    } else {
        program_syms(ss.drop_last()) + top_syms(ss.last())
    }
}


proof fn lemma_join_comma_push(items: Seq<Seq<char>>, x: Seq<char>)
    ensures
        join_comma(items.push(x)) == (if items.len() == 0 {
            x
        } else {
            join_comma(items) + ", "@ + x
        }),
{
    assert(items.push(x).drop_last() =~= items);
}

/// Appends `<A, B>` when there are type parameters.
pub(crate) fn push_type_params(out: &mut Vec<char>, ps: &Vec<String>)
    ensures
        final(out)@ == old(out)@ + type_params_text(ps@),
{
    if ps.len() == 0 {
        assert(old(out)@ + type_params_text(ps@) =~= old(out)@);
        return;
    }
    let ghost names = ps@.map_values(|p: String| p@);
    push_str(out, "<");
    let ghost base = out@;
    let mut i: usize = 0;
    assert(names.take(0) =~= Seq::<Seq<char>>::empty());
    while i < ps.len()
        invariant
            0 <= i <= ps.len(),
            names == ps@.map_values(|p: String| p@),
            out@ == base + join_comma(names.take(i as int)),
        decreases ps.len() - i,
    {
        proof {
            lemma_join_comma_push(names.take(i as int), names[i as int]);
            assert(names.take(i + 1) =~= names.take(i as int).push(names[i as int]));
        }
        if i > 0 {
            push_str(out, ", ");
        }
        push_str(out, ps[i].as_str());
        assert(out@ =~= base + join_comma(names.take(i + 1)));
        i += 1;
    }
    assert(names.take(ps.len() as int) =~= names);
    push_str(out, ">");
    assert(out@ =~= old(out)@ + type_params_text(ps@));
}

/// Appends `a: i32, b: str`.
pub(crate) fn push_params(out: &mut Vec<char>, ps: &Vec<FnParam>)
    ensures
        final(out)@ == old(out)@ + join_comma(ps@.map_values(|p: FnParam| param_text(p))),
{
    let ghost items = ps@.map_values(|p: FnParam| param_text(p));
    let mut i: usize = 0;
    assert(items.take(0) =~= Seq::<Seq<char>>::empty());
    while i < ps.len()
        invariant
            0 <= i <= ps.len(),
            items == ps@.map_values(|p: FnParam| param_text(p)),
            out@ == old(out)@ + join_comma(items.take(i as int)),
        decreases ps.len() - i,
    {
        proof {
            lemma_join_comma_push(items.take(i as int), items[i as int]);
            assert(items.take(i + 1) =~= items.take(i as int).push(items[i as int]));
        }
        if i > 0 {
            push_str(out, ", ");
        }
        push_str(out, ps[i].name.as_str());
        push_str(out, ": ");
        push_type(out, &ps[i].param_type);
        assert(out@ =~= old(out)@ + join_comma(items.take(i + 1)));
        i += 1;
    }
    assert(items.take(ps.len() as int) =~= items);
}

/// The signature line of a function, such as `fn add(a: i32): i32`.
fn fn_signature(f: &FnStmt) -> (r: String)
    ensures
        r@ == fn_signature_text(*f),
{
    let mut out: Vec<char> = Vec::new();
    push_str(&mut out, "fn ");
    push_str(&mut out, f.name.as_str());
    push_type_params(&mut out, &f.type_params);
    push_str(&mut out, "(");
    push_params(&mut out, &f.params);
    push_str(&mut out, ")");
    match &f.return_type {
        Some(t) => {
            push_str(&mut out, ": ");
            push_type(&mut out, t);
        },
        None => {},
    }
    assert(out@ =~= fn_signature_text(*f));
    string_of(out.as_slice())
}

/// The symbol of a `let` binding.
fn let_symbol(span: Span, l: &LetStmt) -> (r: Symbol)
    ensures
        r@ == let_sym(span, *l),
{
    let mut d: Vec<char> = Vec::new();
    push_str(&mut d, "let ");
    if l.mutable {
        push_str(&mut d, "mut ");
    }
    push_str(&mut d, l.name.as_str());
    match &l.type_annotation {
        Some(t) => {
            push_str(&mut d, ": ");
            push_type(&mut d, t);
        },
        None => {},
    }
    assert(d@ =~= let_detail(*l));
    Symbol { name: l.name.clone(), kind: SymbolKind::Variable, span, detail: string_of(d.as_slice()) }
}

/// Appends one symbol whose detail is `prefix` followed by `rest`.
fn push_sym(out: &mut Vec<Symbol>, name: &String, kind: SymbolKind, span: Span, detail: Vec<char>)
    ensures
        syms_view(final(out)@) == syms_view(old(out)@).push(sym(name@, kind, span, detail@)),
{
    let s = Symbol { name: name.clone(), kind, span, detail: string_of(detail.as_slice()) };
    out.push(s);
    assert(syms_view(out@) =~= syms_view(old(out)@).push(sym(name@, kind, span, detail@)));
}

fn prefixed(prefix: &str, s: &String) -> (r: Vec<char>)
    ensures
        r@ == prefix@ + s@,
{
    let mut d: Vec<char> = Vec::new();
    push_str(&mut d, prefix);
    push_str(&mut d, s.as_str());
    d
}

/// Records a struct definition.
fn collect_struct(span: Span, d: &StructDef, out: &mut Vec<Symbol>)
    ensures
        syms_view(final(out)@) == syms_view(old(out)@) + struct_syms(span, *d),
{
    let mut detail = prefixed("struct ", &d.name);
    push_type_params(&mut detail, &d.type_params);
    push_sym(out, &d.name, SymbolKind::Struct, span, detail);
    assert(syms_view(out@) =~= syms_view(old(out)@) + struct_syms(span, *d));
}

/// Records an enum and all its variants.
fn collect_enum(span: Span, d: &EnumDef, out: &mut Vec<Symbol>)
    ensures
        syms_view(final(out)@) == syms_view(old(out)@) + enum_syms(span, *d),
{
    let detail = prefixed("enum ", &d.name);
    push_sym(out, &d.name, SymbolKind::Enum, span, detail);
    let ghost base = syms_view(out@);
    let ghost vs = d.variants@.map_values(
        |v: crate::ast::EnumVariant|
            sym(v.name@, SymbolKind::Variant, span, variant_detail(d.name@, v)),
    );
    let mut i: usize = 0;
    assert(vs.take(0) =~= Seq::<SymbolView>::empty());
    while i < d.variants.len()
        invariant
            0 <= i <= d.variants.len(),
            vs == d.variants@.map_values(
                |v: crate::ast::EnumVariant|
                    sym(v.name@, SymbolKind::Variant, span, variant_detail(d.name@, v)),
            ),
            syms_view(out@) == base + vs.take(i as int),
        decreases d.variants.len() - i,
    {
        let v = &d.variants[i];
        let mut det: Vec<char> = Vec::new();
        push_str(&mut det, d.name.as_str());
        push_str(&mut det, "::");
        push_str(&mut det, v.name.as_str());
        if v.payloads.len() > 0 {
            push_str(&mut det, "(");
            push_types(&mut det, &v.payloads);
            push_str(&mut det, ")");
        }
        assert(det@ =~= variant_detail(d.name@, *v));
        push_sym(out, &v.name, SymbolKind::Variant, span, det);
        assert(vs.take(i + 1) =~= vs.take(i as int).push(vs[i as int]));
        i += 1;
    }
    assert(vs.take(d.variants.len() as int) =~= vs);
    assert(syms_view(out@) =~= syms_view(old(out)@) + enum_syms(span, *d));
}


/// Records a function: itself, its parameters, then what its body binds.
fn collect_fn(span: Span, f: &FnStmt, out: &mut Vec<Symbol>)
    ensures
        syms_view(final(out)@) == syms_view(old(out)@) + fn_syms(span, *f),
    decreases f,
{
    let sig = fn_signature(f);
    let d = chars_of(sig.as_str());
    push_sym(out, &f.name, SymbolKind::Function, span, d);
    let ghost base = syms_view(out@);
    let ghost ps = params_syms(span, f.params@);
    let mut i: usize = 0;
    assert(ps.take(0) =~= Seq::<SymbolView>::empty());
    while i < f.params.len()
        invariant
            0 <= i <= f.params.len(),
            ps == params_syms(span, f.params@),
            syms_view(out@) == base + ps.take(i as int),
        decreases f.params.len() - i,
    {
        let p = &f.params[i];
        let mut det: Vec<char> = Vec::new();
        push_str(&mut det, p.name.as_str());
        push_str(&mut det, ": ");
        push_type(&mut det, &p.param_type);
        push_sym(out, &p.name, SymbolKind::Param, span, det);
        assert(ps.take(i + 1) =~= ps.take(i as int).push(ps[i as int]));
        i += 1;
    }
    assert(ps.take(f.params.len() as int) =~= ps);
    collect_block(&f.body, out);
    assert(syms_view(out@) =~= syms_view(old(out)@) + fn_syms(span, *f));
}

/// Records the `let`/`for` bindings of a block, recursively (nested
/// blocks, `if`/`while` bodies and functions defined inside).
fn collect_block(block: &Block, out: &mut Vec<Symbol>)
    ensures
        syms_view(final(out)@) == syms_view(old(out)@) + block_syms(*block),
    decreases block,
{
    let ghost ss = block.statements@;
    let ghost base = syms_view(out@);
    let mut i: usize = 0;
    assert(ss.take(0) =~= Seq::<Spanned<Stmt>>::empty());
    while i < block.statements.len()
        invariant
            0 <= i <= block.statements.len(),
            ss == block.statements@,
            syms_view(out@) == base + stmts_syms(ss.take(i as int)),
        decreases block.statements.len() - i,
    {
        proof {
            assert(decreases_to!(block => block.statements@[i as int]));
        }
        collect_in_block(&block.statements[i], out);
        assert(ss.take(i + 1).drop_last() =~= ss.take(i as int));
        assert(ss.take(i + 1).last() == ss[i as int]);
        i += 1;
    }
    assert(ss.take(block.statements.len() as int) =~= ss);
}

/// Records the bindings of the `elif` bodies.
fn collect_elifs(es: &Vec<(Expr, Block)>, out: &mut Vec<Symbol>)
    ensures
        syms_view(final(out)@) == syms_view(old(out)@) + elif_syms(es@),
    decreases es,
{
    let ghost base = syms_view(out@);
    let mut i: usize = 0;
    assert(es@.take(0) =~= Seq::<(Expr, Block)>::empty());
    while i < es.len()
        invariant
            0 <= i <= es.len(),
            syms_view(out@) == base + elif_syms(es@.take(i as int)),
        decreases es.len() - i,
    {
        proof {
            assert(decreases_to!(es => es@[i as int].1));
        }
        collect_block(&es[i].1, out);
        assert(es@.take(i + 1).drop_last() =~= es@.take(i as int));
        assert(es@.take(i + 1).last() == es@[i as int]);
        i += 1;
    }
    assert(es@.take(es.len() as int) =~= es@);
}

/// The bindings of an `if` statement's branches.
fn collect_if(i: &crate::ast::IfStmt, out: &mut Vec<Symbol>)
    ensures
        syms_view(final(out)@) == syms_view(old(out)@) + block_syms(i.then_branch) + elif_syms(
            i.elif_branches@,
        ) + opt_block_syms(i.else_branch),
    decreases i,
{
    collect_block(&i.then_branch, out);
    collect_elifs(&i.elif_branches, out);
    match &i.else_branch {
        Some(b) => collect_block(b, out),
        None => {},
    }
    assert(syms_view(final(out)@) =~= syms_view(old(out)@) + block_syms(i.then_branch)
        + elif_syms(i.elif_branches@) + opt_block_syms(i.else_branch));
}

/// One statement inside a block.
fn collect_in_block(stmt: &Spanned<Stmt>, out: &mut Vec<Symbol>)
    ensures
        syms_view(final(out)@) == syms_view(old(out)@) + inner_syms(*stmt),
    decreases stmt,
{
    match &stmt.node {
        Stmt::Let(l) => {
            let s = let_symbol(stmt.span, l);
            out.push(s);
            assert(syms_view(out@) =~= syms_view(old(out)@) + inner_syms(*stmt));
        },
        Stmt::For(f) => {
            let d = prefixed("for ", &f.var_name);
            push_sym(out, &f.var_name, SymbolKind::Variable, stmt.span, d);
            let ghost mid = syms_view(out@);
            assert(mid == syms_view(old(out)@).push(sym(f.var_name@, SymbolKind::Variable, stmt.span, "for "@ + f.var_name@)));
            collect_block(&f.body, out);
            assert(syms_view(out@) == mid + block_syms(f.body));
            assert(inner_syms(*stmt) == seq![sym(f.var_name@, SymbolKind::Variable, stmt.span, "for "@ + f.var_name@)] + block_syms(f.body));
            assert(syms_view(out@) =~= syms_view(old(out)@) + inner_syms(*stmt));
        },
        Stmt::Block(b) => collect_block(b, out),
        Stmt::If(i) => {
            collect_if(i, out);
        },
        Stmt::While(w) => collect_block(&w.body, out),
        Stmt::Fn(f) => collect_fn(stmt.span, f, out),
        Stmt::Struct(d) => collect_struct(stmt.span, d, out),
        Stmt::Enum(d) => collect_enum(stmt.span, d, out),
        Stmt::Import(i) => {
            let d = prefixed("import ", &i.name);
            push_sym(out, &i.name, SymbolKind::Module, stmt.span, d);
            assert(syms_view(out@) =~= syms_view(old(out)@) + inner_syms(*stmt));
        },
        Stmt::Export(e) => {
            let mut d = prefixed("export ", &e.path);
            if e.is_wildcard {
                push_str(&mut d, "::*");
            }
            assert(d@ =~= "export "@ + if e.is_wildcard {
                e.path@ + "::*"@
            } else {
                e.path@
            });
            push_sym(out, &e.path, SymbolKind::Module, stmt.span, d);
            assert(syms_view(out@) =~= syms_view(old(out)@) + inner_syms(*stmt));
        },
        Stmt::Defer(inner) => collect_in_block(inner, out),
        _ => {
            assert(syms_view(out@) =~= syms_view(old(out)@) + inner_syms(*stmt));
        },
    }
}

/// Records each method of an `impl` block as a function.
fn collect_methods(span: Span, ms: &Vec<FnStmt>, out: &mut Vec<Symbol>)
    ensures
        syms_view(final(out)@) == syms_view(old(out)@) + methods_syms(span, ms@),
    decreases ms,
{
    let ghost base = syms_view(out@);
    let mut i: usize = 0;
    assert(ms@.take(0) =~= Seq::<FnStmt>::empty());
    while i < ms.len()
        invariant
            0 <= i <= ms.len(),
            syms_view(out@) == base + methods_syms(span, ms@.take(i as int)),
        decreases ms.len() - i,
    {
        proof {
            assert(decreases_to!(ms => ms@[i as int]));
        }
        collect_fn(span, &ms[i], out);
        assert(ms@.take(i + 1).drop_last() =~= ms@.take(i as int));
        assert(ms@.take(i + 1).last() == ms@[i as int]);
        i += 1;
    }
    assert(ms@.take(ms.len() as int) =~= ms@);
}

/// One top-level statement: definitions are recorded, expressions skipped.
fn collect_top_level(stmt: &Spanned<Stmt>, out: &mut Vec<Symbol>)
    ensures
        syms_view(final(out)@) == syms_view(old(out)@) + top_syms(*stmt),
    decreases stmt,
{
    match &stmt.node {
        Stmt::Fn(f) => collect_fn(stmt.span, f, out),
        Stmt::Struct(d) => collect_struct(stmt.span, d, out),
        Stmt::Enum(d) => collect_enum(stmt.span, d, out),
        Stmt::Trait(t) => {
            let d = prefixed("trait ", &t.name);
            push_sym(out, &t.name, SymbolKind::Trait, stmt.span, d);
            let ghost base = syms_view(out@);
            let ghost ms = t.methods@.map_values(
                |m: crate::ast::TraitMethodDef|
                    sym(m.name@, SymbolKind::Function, stmt.span, "fn "@ + m.name@ + "(...)"@),
            );
            let mut i: usize = 0;
            assert(ms.take(0) =~= Seq::<SymbolView>::empty());
            while i < t.methods.len()
                invariant
                    0 <= i <= t.methods.len(),
                    ms == t.methods@.map_values(
                        |m: crate::ast::TraitMethodDef|
                            sym(
                                m.name@,
                                SymbolKind::Function,
                                stmt.span,
                                "fn "@ + m.name@ + "(...)"@,
                            ),
                    ),
                    syms_view(out@) == base + ms.take(i as int),
                decreases t.methods.len() - i,
            {
                let mut md = prefixed("fn ", &t.methods[i].name);
                push_str(&mut md, "(...)");
                push_sym(out, &t.methods[i].name, SymbolKind::Function, stmt.span, md);
                assert(ms.take(i + 1) =~= ms.take(i as int).push(ms[i as int]));
                i += 1;
            }
            assert(ms.take(t.methods.len() as int) =~= ms);
            assert(syms_view(out@) =~= syms_view(old(out)@) + top_syms(*stmt));
        },
        Stmt::Impl(im) => collect_methods(stmt.span, &im.methods, out),
        Stmt::Let(l) => {
            let s = let_symbol(stmt.span, l);
            out.push(s);
            assert(syms_view(out@) =~= syms_view(old(out)@) + top_syms(*stmt));
        },
        Stmt::Import(i) => {
            let d = prefixed("import ", &i.name);
            push_sym(out, &i.name, SymbolKind::Module, stmt.span, d);
            assert(syms_view(out@) =~= syms_view(old(out)@) + top_syms(*stmt));
        },
        Stmt::Export(e) => {
            let mut d = prefixed("export ", &e.path);
            if e.is_wildcard {
                push_str(&mut d, "::*");
            }
            assert(d@ =~= "export "@ + if e.is_wildcard {
                e.path@ + "::*"@
            } else {
                e.path@
            });
            push_sym(out, &e.path, SymbolKind::Module, stmt.span, d);
            assert(syms_view(out@) =~= syms_view(old(out)@) + top_syms(*stmt));
        },
        Stmt::Block(b) => collect_block(b, out),
        Stmt::If(i) => {
            collect_if(i, out);
        },
        Stmt::For(f) => {
            let d = prefixed("for ", &f.var_name);
            push_sym(out, &f.var_name, SymbolKind::Variable, stmt.span, d);
            collect_block(&f.body, out);
            assert(syms_view(out@) =~= syms_view(old(out)@) + top_syms(*stmt));
        },
        Stmt::While(w) => collect_block(&w.body, out),
        _ => {
            assert(syms_view(out@) =~= syms_view(old(out)@) + top_syms(*stmt));
        },
    }
}

/// Collects the symbols of a whole program, in source order: top-level
/// `fn`/`struct`/`enum` (with variants)/`trait`/`impl` methods/`let`/
/// `import`/`export`, and inside each function its parameters and the
/// `let`/`for` bindings of its body.
pub fn collect_symbols(program: &Program) -> (r: Vec<Symbol>)
    ensures
        syms_view(r@) == program_syms(program.statements@),
{
    let mut out: Vec<Symbol> = Vec::new();
    let ghost ss = program.statements@;
    let mut i: usize = 0;
    assert(ss.take(0) =~= Seq::<Spanned<Stmt>>::empty());
    assert(syms_view(out@) =~= Seq::<SymbolView>::empty());
    while i < program.statements.len()
        invariant
            0 <= i <= program.statements.len(),
            ss == program.statements@,
            syms_view(out@) == program_syms(ss.take(i as int)),
        decreases program.statements.len() - i,
    {
        collect_top_level(&program.statements[i], &mut out);
        assert(ss.take(i + 1).drop_last() =~= ss.take(i as int));
        assert(ss.take(i + 1).last() == ss[i as int]);
        i += 1;
    }
    assert(ss.take(program.statements.len() as int) =~= ss);
    out
}


/// Every statement at any depth of a block has an ordered span.
pub open spec fn block_ok(b: Block) -> bool
    decreases b,
{
    stmts_ok(b.statements@)
}

pub open spec fn stmts_ok(ss: Seq<Spanned<Stmt>>) -> bool
    decreases ss,
{
    if ss.len() == 0 {
        true
    } else {
        stmts_ok(ss.drop_last()) && stmt_ok(ss.last())
    }
}

pub open spec fn elifs_ok(es: Seq<(Expr, Block)>) -> bool
    decreases es,
{
    if es.len() == 0 {
        true
    } else {
        elifs_ok(es.drop_last()) && block_ok(es.last().1)
    }
}

pub open spec fn methods_ok(fs: Seq<FnStmt>) -> bool
    decreases fs,
{
    if fs.len() == 0 {
        true
    } else {
        methods_ok(fs.drop_last()) && block_ok(fs.last().body)
    }
}

/// The statement and every statement nested in it have ordered spans.
pub open spec fn stmt_ok(s: Spanned<Stmt>) -> bool
    decreases s,
{
    span_ordered(s.span) && node_ok(s.node)
}

/// Every statement nested in this one has an ordered span.
pub open spec fn node_ok(n: Stmt) -> bool
    decreases n,
{
    match n {
        Stmt::Fn(f) => block_ok(f.body),
        Stmt::Impl(i) => methods_ok(i.methods@),
        Stmt::If(i) => block_ok(i.then_branch) && elifs_ok(i.elif_branches@) && match i.else_branch {
            Some(b) => block_ok(b),
            None => true,
        },
        Stmt::For(f) => block_ok(f.body),
        Stmt::While(w) => block_ok(w.body),
        Stmt::Block(b) => block_ok(b),
        Stmt::Defer(inner) => stmt_ok(*inner),
        _ => true,
    }
}

pub open spec fn all_ordered(syms: Seq<SymbolView>) -> bool {
    forall|i: int| 0 <= i < syms.len() ==> span_ordered(#[trigger] syms[i].span)
}

proof fn lemma_all_ordered_add(a: Seq<SymbolView>, b: Seq<SymbolView>)
    requires
        all_ordered(a),
        all_ordered(b),
    ensures
        all_ordered(a + b),
{
    assert forall|i: int| 0 <= i < (a + b).len() implies span_ordered(#[trigger] (a + b)[i].span) by {
        if i >= a.len() {
            assert((a + b)[i] == b[i - a.len()]);
        }
    }
}

proof fn lemma_fn_ordered(span: Span, f: FnStmt)
    requires
        span_ordered(span),
        block_ok(f.body),
    ensures
        all_ordered(fn_syms(span, f)),
    decreases f,
{
    lemma_block_ordered(f.body);
    lemma_all_ordered_add(
        seq![sym(f.name@, SymbolKind::Function, span, fn_signature_text(f))],
        params_syms(span, f.params@),
    );
    lemma_all_ordered_add(
        seq![sym(f.name@, SymbolKind::Function, span, fn_signature_text(f))] + params_syms(
            span,
            f.params@,
        ),
        block_syms(f.body),
    );
}

proof fn lemma_methods_ordered(span: Span, fs: Seq<FnStmt>)
    requires
        span_ordered(span),
        methods_ok(fs),
    ensures
        all_ordered(methods_syms(span, fs)),
    decreases fs,
{
    if fs.len() > 0 {
        lemma_methods_ordered(span, fs.drop_last());
        lemma_fn_ordered(span, fs.last());
        lemma_all_ordered_add(methods_syms(span, fs.drop_last()), fn_syms(span, fs.last()));
    }
}

proof fn lemma_block_ordered(b: Block)
    requires
        block_ok(b),
    ensures
        all_ordered(block_syms(b)),
    decreases b,
{
    lemma_stmts_ordered(b.statements@);
}

proof fn lemma_stmts_ordered(ss: Seq<Spanned<Stmt>>)
    requires
        stmts_ok(ss),
    ensures
        all_ordered(stmts_syms(ss)),
    decreases ss,
{
    if ss.len() > 0 {
        lemma_stmts_ordered(ss.drop_last());
        lemma_inner_ordered(ss.last());
        lemma_all_ordered_add(stmts_syms(ss.drop_last()), inner_syms(ss.last()));
    }
}

proof fn lemma_elifs_ordered(es: Seq<(Expr, Block)>)
    requires
        elifs_ok(es),
    ensures
        all_ordered(elif_syms(es)),
    decreases es,
{
    if es.len() > 0 {
        lemma_elifs_ordered(es.drop_last());
        lemma_block_ordered(es.last().1);
        lemma_all_ordered_add(elif_syms(es.drop_last()), block_syms(es.last().1));
    }
}

proof fn lemma_if_ordered(i: crate::ast::IfStmt)
    requires
        block_ok(i.then_branch),
        elifs_ok(i.elif_branches@),
        match i.else_branch {
            Some(b) => block_ok(b),
            None => true,
        },
    ensures
        all_ordered(
            block_syms(i.then_branch) + elif_syms(i.elif_branches@) + opt_block_syms(i.else_branch),
        ),
    decreases i,
{
    lemma_block_ordered(i.then_branch);
    lemma_elifs_ordered(i.elif_branches@);
    match i.else_branch {
        Some(b) => lemma_block_ordered(b),
        None => {},
    }
    lemma_all_ordered_add(block_syms(i.then_branch), elif_syms(i.elif_branches@));
    lemma_all_ordered_add(
        block_syms(i.then_branch) + elif_syms(i.elif_branches@),
        opt_block_syms(i.else_branch),
    );
}

proof fn lemma_simple_ordered(span: Span, s: Stmt)
    requires
        span_ordered(span),
    ensures
        match s {
            Stmt::Struct(d) => all_ordered(struct_syms(span, d)),
            Stmt::Enum(d) => all_ordered(enum_syms(span, d)),
            _ => true,
        },
{
}

proof fn lemma_inner_ordered(s: Spanned<Stmt>)
    requires
        stmt_ok(s),
    ensures
        all_ordered(inner_syms(s)),
    decreases s,
{
    lemma_simple_ordered(s.span, s.node);
    match s.node {
        Stmt::For(f) => {
            lemma_block_ordered(f.body);
            lemma_all_ordered_add(
                seq![sym(f.var_name@, SymbolKind::Variable, s.span, "for "@ + f.var_name@)],
                block_syms(f.body),
            );
        },
        Stmt::Block(b) => lemma_block_ordered(b),
        Stmt::If(i) => lemma_if_ordered(i),
        Stmt::While(w) => lemma_block_ordered(w.body),
        Stmt::Fn(f) => lemma_fn_ordered(s.span, f),
        Stmt::Defer(inner) => lemma_inner_ordered(*inner),
        _ => {},
    }
}

proof fn lemma_top_ordered(s: Spanned<Stmt>)
    requires
        stmt_ok(s),
    ensures
        all_ordered(top_syms(s)),
    decreases s,
{
    lemma_simple_ordered(s.span, s.node);
    match s.node {
        Stmt::Fn(f) => lemma_fn_ordered(s.span, f),
        Stmt::Trait(t) => {
            let ms = t.methods@.map_values(
                |m: crate::ast::TraitMethodDef|
                    sym(m.name@, SymbolKind::Function, s.span, "fn "@ + m.name@ + "(...)"@),
            );
            lemma_all_ordered_add(
                seq![sym(t.name@, SymbolKind::Trait, s.span, "trait "@ + t.name@)],
                ms,
            );
        },
        Stmt::Impl(i) => lemma_methods_ordered(s.span, i.methods@),
        Stmt::Block(b) => lemma_block_ordered(b),
        Stmt::If(i) => lemma_if_ordered(i),
        Stmt::For(f) => {
            lemma_block_ordered(f.body);
            lemma_all_ordered_add(
                seq![sym(f.var_name@, SymbolKind::Variable, s.span, "for "@ + f.var_name@)],
                block_syms(f.body),
            );
        },
        Stmt::While(w) => lemma_block_ordered(w.body),
        _ => {},
    }
}

/// Spans are never inverted: when every statement of a program, at any
/// depth, has an end that does not precede its start, so has every symbol
/// `collect_symbols` reports, since each symbol carries the span of the
/// statement that defines it.
pub proof fn law_symbol_spans_ordered(ss: Seq<Spanned<Stmt>>)
    requires
        stmts_ok(ss),
    ensures
        all_ordered(program_syms(ss)),
    decreases ss.len(),
{
    if ss.len() > 0 {
        law_symbol_spans_ordered(ss.drop_last());
        lemma_top_ordered(ss.last());
        lemma_all_ordered_add(program_syms(ss.drop_last()), top_syms(ss.last()));
    }
}

} // verus!
