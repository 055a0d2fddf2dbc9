//! The syntax tree as values: each node with its names, operators and
//! parts, strings taken as their characters and lists as sequences. The
//! grammar in `syntax` gives the tree that a parse builds in these terms.
use super::grammar::{pat_view, tv, tvs, PatView, TypeV};
use crate::ast::{
    BinOp, Block, Expr, FnParam, FnStmt, ForSource, Literal, MatchArm, Span, Spanned, Stmt,
    StructField, EnumVariant, TraitMethodDef, Type, UnOp,
};
use crate::modules::views_of;
use vstd::prelude::*;

verus! {

/// A literal as a value.
pub enum LitV {
    Int(i64),
    Float(Seq<char>),
    Str(Seq<char>),
    Bool(bool),
    Char(char),
}

/// An expression as a value: each kind with its names, operators and parts.
pub enum ExprV {
    Ident(Seq<char>),
    Lit(LitV),
    Binary(Box<ExprV>, BinOp, Box<ExprV>),
    Unary(UnOp, Box<ExprV>),
    Assign(Box<ExprV>, Box<ExprV>),
    Call(Box<ExprV>, Seq<ExprV>, Seq<TypeV>),
    MethodCall(Box<ExprV>, Seq<char>, Seq<ExprV>),
    FieldAccess(Box<ExprV>, Seq<char>),
    ArrayIndex(Box<ExprV>, Box<ExprV>),
    ArrayLiteral(Seq<ExprV>),
    TupleLiteral(Seq<ExprV>),
    StructLiteral(Seq<char>, Seq<(Seq<char>, ExprV)>, Seq<TypeV>),
    EnumConstruct(Seq<char>, Seq<char>, Seq<ExprV>),
    BoxAlloc(Box<ExprV>),
    VecEmpty(TypeV),
    Null,
    Try(Box<ExprV>),
    Match(Box<ExprV>, Seq<(PatView, Seq<(Span, StmtV)>)>),
    If(Box<ExprV>, Seq<(Span, StmtV)>, Seq<(Span, StmtV)>),
}

/// What a `for` loop walks: a range or an array.
pub enum ForV {
    Range(ExprV, ExprV),
    Array(ExprV),
}

/// A function: name, type parameters, parameters, return type, body.
pub struct FnV {
    pub name: Seq<char>,
    pub type_params: Seq<Seq<char>>,
    pub params: Seq<(Seq<char>, TypeV)>,
    pub ret: Option<TypeV>,
    pub body: Seq<(Span, StmtV)>,
}

/// A trait method: name, whether it takes `self`, parameters, return type.
pub struct SigV {
    pub name: Seq<char>,
    pub has_self: bool,
    pub params: Seq<(Seq<char>, TypeV)>,
    pub ret: Option<TypeV>,
}

/// A statement as a value; blocks are their statements with spans.
pub enum StmtV {
    Let(Seq<char>, bool, Option<TypeV>, Option<ExprV>),
    Struct(Seq<char>, Seq<Seq<char>>, Seq<(Seq<char>, TypeV)>),
    Enum(Seq<char>, Seq<(Seq<char>, Seq<TypeV>)>),
    Fn(FnV),
    Import(Seq<char>),
    Export(Seq<char>, bool),
    Return(Option<ExprV>),
    Break,
    Continue,
    If(ExprV, Seq<(Span, StmtV)>, Seq<(ExprV, Seq<(Span, StmtV)>)>, Option<Seq<(Span, StmtV)>>),
    For(Seq<char>, ForV, Seq<(Span, StmtV)>),
    While(ExprV, Seq<(Span, StmtV)>),
    Block(Seq<(Span, StmtV)>),
    Expr(ExprV),
    Trait(Seq<char>, Seq<SigV>),
    Impl(Seq<char>, Seq<char>, Seq<FnV>),
    Defer(Box<(Span, StmtV)>),
}

/// The value of a literal.
pub open spec fn lv(l: Literal) -> LitV {
    match l {
        Literal::Int(n) => LitV::Int(n),
        Literal::Float(s) => LitV::Float(s@),
        Literal::String(s) => LitV::Str(s@),
        Literal::Bool(b) => LitV::Bool(b),
        Literal::Char(c) => LitV::Char(c),
    }
}

/// The value of an expression.
pub open spec fn ev(e: Expr) -> ExprV
    decreases e,
{
    match e {
        Expr::Ident(n) => ExprV::Ident(n@),
        Expr::Literal(l) => ExprV::Lit(lv(l)),
        Expr::Binary(b) => ExprV::Binary(Box::new(ev(*b.left)), b.operator, Box::new(ev(*b.right))),
        Expr::Unary(u) => ExprV::Unary(u.operator, Box::new(ev(*u.operand))),
        Expr::Assign(a) => ExprV::Assign(Box::new(ev(*a.target)), Box::new(ev(*a.value))),
        Expr::Call(c) => ExprV::Call(Box::new(ev(*c.callee)), evs(c.arguments@), tvs(c.type_args@)),
        Expr::MethodCall(m) => ExprV::MethodCall(
            Box::new(ev(*m.receiver)),
            m.method@,
            evs(m.arguments@),
        ),
        Expr::FieldAccess(f) => ExprV::FieldAccess(Box::new(ev(*f.base)), f.field@),
        Expr::ArrayIndex(a) => ExprV::ArrayIndex(Box::new(ev(*a.array)), Box::new(ev(*a.index))),
        Expr::ArrayLiteral(v) => ExprV::ArrayLiteral(evs(v@)),
        Expr::TupleLiteral(v) => ExprV::TupleLiteral(evs(v@)),
        Expr::StructLiteral(s) => ExprV::StructLiteral(s.name@, fldvs(s.fields@), tvs(s.type_args@)),
        Expr::EnumConstruct(c) => ExprV::EnumConstruct(c.enum_name@, c.variant@, evs(c.args@)),
        Expr::BoxAlloc(b) => ExprV::BoxAlloc(Box::new(ev(*b))),
        Expr::VecEmpty(t) => ExprV::VecEmpty(tv(t)),
        Expr::Null => ExprV::Null,
        Expr::Try(t) => ExprV::Try(Box::new(ev(*t.inner))),
        Expr::Match(m) => ExprV::Match(Box::new(ev(*m.scrutinee)), armvs(m.arms@)),
        Expr::If(i) => ExprV::If(Box::new(ev(*i.condition)), bv(i.then_branch), bv(i.else_branch)),
    }
}

/// The values of expressions, in order.
pub open spec fn evs(s: Seq<Expr>) -> Seq<ExprV>
    decreases s,
{
    if s.len() == 0 {
        Seq::empty()
    } else {
        evs(s.drop_last()).push(ev(s.last()))
    }
}

/// The values of struct-literal fields, in order.
pub open spec fn fldvs(s: Seq<(String, Expr)>) -> Seq<(Seq<char>, ExprV)>
    decreases s,
{
    if s.len() == 0 {
        Seq::empty()
    } else {
        fldvs(s.drop_last()).push((s.last().0@, ev(s.last().1)))
    }
}

/// The values of match arms: pattern and body.
pub open spec fn armvs(s: Seq<MatchArm>) -> Seq<(PatView, Seq<(Span, StmtV)>)>
    decreases s,
{
    if s.len() == 0 {
        Seq::empty()
    } else {
        armvs(s.drop_last()).push((pat_view(s.last().pattern), bv(s.last().body)))
    }
}

/// The statements of a block, each with its span.
pub open spec fn bv(b: Block) -> Seq<(Span, StmtV)>
    decreases b,
{
    ssvs(b.statements@)
}

/// The values of statements with their spans, in order.
pub open spec fn ssvs(s: Seq<Spanned<Stmt>>) -> Seq<(Span, StmtV)>
    decreases s,
{
    if s.len() == 0 {
        Seq::empty()
    } else {
        ssvs(s.drop_last()).push((s.last().span, sv(s.last().node)))
    }
}

/// The values of `elif` branches: condition and block.
pub open spec fn elifvs(s: Seq<(Expr, Block)>) -> Seq<(ExprV, Seq<(Span, StmtV)>)>
    decreases s,
{
    if s.len() == 0 {
        Seq::empty()
    } else {
        elifvs(s.drop_last()).push((ev(s.last().0), bv(s.last().1)))
    }
}

/// The values of parameters: name and type.
pub open spec fn paramvs(s: Seq<FnParam>) -> Seq<(Seq<char>, TypeV)>
    decreases s.len(),
{
    if s.len() == 0 {
        Seq::empty()
    } else {
        paramvs(s.drop_last()).push((s.last().name@, tv(s.last().param_type)))
    }
}

/// The values of struct fields: name and type.
pub open spec fn fieldvs(s: Seq<StructField>) -> Seq<(Seq<char>, TypeV)>
    decreases s.len(),
{
    if s.len() == 0 {
        Seq::empty()
    } else {
        fieldvs(s.drop_last()).push((s.last().name@, tv(s.last().field_type)))
    }
}

/// The values of enum variants: name and payload types.
pub open spec fn variantvs(s: Seq<EnumVariant>) -> Seq<(Seq<char>, Seq<TypeV>)>
    decreases s.len(),
{
    if s.len() == 0 {
        Seq::empty()
    } else {
        variantvs(s.drop_last()).push((s.last().name@, tvs(s.last().payloads@)))
    }
}

/// The value of an optional type.
pub open spec fn opt_tv(t: Option<Type>) -> Option<TypeV> {
    match t {
        Some(t) => Some(tv(t)),
        None => None,
    }
}

/// The values of trait method signatures.
pub open spec fn sigvs(s: Seq<TraitMethodDef>) -> Seq<SigV>
    decreases s.len(),
{
    if s.len() == 0 {
        Seq::empty()
    } else {
        sigvs(s.drop_last()).push(
            SigV {
                name: s.last().name@,
                has_self: s.last().has_self,
                params: paramvs(s.last().params@),
                ret: opt_tv(s.last().return_type),
            },
        )
    }
}

/// The value of a function.
pub open spec fn fnv(f: FnStmt) -> FnV
    decreases f,
{
    FnV {
        name: f.name@,
        type_params: views_of(f.type_params@),
        params: paramvs(f.params@),
        ret: opt_tv(f.return_type),
        body: bv(f.body),
    }
}

/// The values of functions, in order.
pub open spec fn fnvs(s: Seq<FnStmt>) -> Seq<FnV>
    decreases s,
{
    if s.len() == 0 {
        Seq::empty()
    } else {
        fnvs(s.drop_last()).push(fnv(s.last()))
    }
}

/// The value of a statement.
pub open spec fn sv(s: Stmt) -> StmtV
    decreases s,
{
    match s {
        Stmt::Let(l) => StmtV::Let(
            l.name@,
            l.mutable,
            opt_tv(l.type_annotation),
            match l.value {
                Some(e) => Some(ev(e)),
                None => None,
            },
        ),
        Stmt::Struct(d) => StmtV::Struct(
            d.name@,
            views_of(d.type_params@),
            fieldvs(d.fields@),
        ),
        Stmt::Enum(d) => StmtV::Enum(d.name@, variantvs(d.variants@)),
        Stmt::Fn(f) => StmtV::Fn(fnv(f)),
        Stmt::Import(i) => StmtV::Import(i.name@),
        Stmt::Export(x) => StmtV::Export(x.path@, x.is_wildcard),
        Stmt::Return(r) => StmtV::Return(
            match r.value {
                Some(e) => Some(ev(e)),
                None => None,
            },
        ),
        Stmt::Break => StmtV::Break,
        Stmt::Continue => StmtV::Continue,
        Stmt::If(i) => StmtV::If(
            ev(i.condition),
            bv(i.then_branch),
            elifvs(i.elif_branches@),
            match i.else_branch {
                Some(b) => Some(bv(b)),
                None => None,
            },
        ),
        Stmt::For(f) => StmtV::For(
            f.var_name@,
            match f.source {
                ForSource::Range { start, end } => ForV::Range(ev(start), ev(end)),
                ForSource::Array(a) => ForV::Array(ev(a)),
            },
            bv(f.body),
        ),
        Stmt::While(w) => StmtV::While(ev(w.condition), bv(w.body)),
        Stmt::Block(b) => StmtV::Block(bv(b)),
        Stmt::Expr(x) => StmtV::Expr(ev(x.expr)),
        Stmt::Trait(t) => StmtV::Trait(t.name@, sigvs(t.methods@)),
        Stmt::Impl(i) => StmtV::Impl(i.trait_name@, i.target_type@, fnvs(i.methods@)),
        Stmt::Defer(d) => StmtV::Defer(Box::new((d.span, sv(d.node)))),
    }
}

/// Each sequence view after a push: the view before, then the new item's.
pub proof fn lemma_evs_push(s: Seq<Expr>, x: Expr)
    ensures
        evs(s.push(x)) == evs(s).push(ev(x)),
{
    assert(s.push(x).drop_last() =~= s);
}

/// The view after a push: the view before, then the new item's.
pub proof fn lemma_fldvs_push(s: Seq<(String, Expr)>, x: (String, Expr))
    ensures
        fldvs(s.push(x)) == fldvs(s).push((x.0@, ev(x.1))),
{
    assert(s.push(x).drop_last() =~= s);
}

/// The view after a push: the view before, then the new item's.
pub proof fn lemma_armvs_push(s: Seq<MatchArm>, x: MatchArm)
    ensures
        armvs(s.push(x)) == armvs(s).push((pat_view(x.pattern), bv(x.body))),
{
    assert(s.push(x).drop_last() =~= s);
}

/// The view after a push: the view before, then the new item's.
pub proof fn lemma_ssvs_push(s: Seq<Spanned<Stmt>>, x: Spanned<Stmt>)
    ensures
        ssvs(s.push(x)) == ssvs(s).push((x.span, sv(x.node))),
{
    assert(s.push(x).drop_last() =~= s);
}

/// The view after a push: the view before, then the new item's.
pub proof fn lemma_elifvs_push(s: Seq<(Expr, Block)>, x: (Expr, Block))
    ensures
        elifvs(s.push(x)) == elifvs(s).push((ev(x.0), bv(x.1))),
{
    assert(s.push(x).drop_last() =~= s);
}

/// The view after a push: the view before, then the new item's.
pub proof fn lemma_paramvs_push(s: Seq<FnParam>, x: FnParam)
    ensures
        paramvs(s.push(x)) == paramvs(s).push((x.name@, tv(x.param_type))),
{
    assert(s.push(x).drop_last() =~= s);
}

/// The view after a push: the view before, then the new item's.
pub proof fn lemma_fieldvs_push(s: Seq<StructField>, x: StructField)
    ensures
        fieldvs(s.push(x)) == fieldvs(s).push((x.name@, tv(x.field_type))),
{
    assert(s.push(x).drop_last() =~= s);
}

/// The view after a push: the view before, then the new item's.
pub proof fn lemma_variantvs_push(s: Seq<EnumVariant>, x: EnumVariant)
    ensures
        variantvs(s.push(x)) == variantvs(s).push((x.name@, tvs(x.payloads@))),
{
    assert(s.push(x).drop_last() =~= s);
}

/// The view after a push: the view before, then the new item's.
pub proof fn lemma_sigvs_push(s: Seq<TraitMethodDef>, x: TraitMethodDef)
    ensures
        sigvs(s.push(x)) == sigvs(s).push(SigV {
            name: x.name@,
            has_self: x.has_self,
            params: paramvs(x.params@),
            ret: opt_tv(x.return_type),
        }),
{
    assert(s.push(x).drop_last() =~= s);
}

/// The view after a push: the view before, then the new item's.
pub proof fn lemma_fnvs_push(s: Seq<FnStmt>, x: FnStmt)
    ensures
        fnvs(s.push(x)) == fnvs(s).push(fnv(x)),
{
    assert(s.push(x).drop_last() =~= s);
}

/// The parameters of a concatenation: those of each part in turn.
pub proof fn lemma_paramvs_concat(a: Seq<FnParam>, b: Seq<FnParam>)
    ensures
        paramvs(a + b) == paramvs(a) + paramvs(b),
    decreases b.len(),
{
    if b.len() == 0 {
        assert(a + b =~= a);
        assert(paramvs(a) + paramvs(b) =~= paramvs(a));
    } else {
        lemma_paramvs_concat(a, b.drop_last());
        assert((a + b).drop_last() =~= a + b.drop_last());
        assert(paramvs(a) + paramvs(b) =~= (paramvs(a) + paramvs(b.drop_last())).push(
            (b.last().name@, tv(b.last().param_type)),
        ));
    }
}

/// A function's value, one step unfolded.
pub proof fn lemma_fnv(f: FnStmt)
    ensures
        fnv(f) == (FnV {
            name: f.name@,
            type_params: views_of(f.type_params@),
            params: paramvs(f.params@),
            ret: opt_tv(f.return_type),
            body: bv(f.body),
        }),
{
}

} // verus!
