//! The Huzi syntax tree: statements with source spans, expressions and
//! types, and the source spelling of a type.
use crate::text::{dec_digits, push_decimal, push_str, string_of};
use vstd::prelude::*;

verus! {

/// A source range: start line/column and end line/column, 1-based.
#[derive(Debug, Clone, Copy, PartialEq, Eq, Structural)]
pub struct Span {
    pub line: usize,
    pub column: usize,
    pub end_line: usize,
    pub end_column: usize,
}

impl Span {
    pub fn start_line(&self) -> (r: usize)
        ensures
            r == self.line,
    {
        self.line
    }
}

/// The end of a span does not come before its start.
pub open spec fn span_ordered(s: Span) -> bool {
    s.end_line > s.line || (s.end_line == s.line && s.end_column >= s.column)
}

/// A node with its source span.
#[derive(Debug)]
pub struct Spanned<T> {
    pub node: T,
    pub span: Span,
}

impl<T> Spanned<T> {
    /// A node at one position: the span starts and ends there.
    pub fn new(node: T, line: usize, column: usize) -> (r: Spanned<T>)
        ensures
            r.node == node,
            r.span == (Span { line, column, end_line: line, end_column: column }),
    {
        Spanned { node, span: Span { line, column, end_line: line, end_column: column } }
    }

    /// A node with explicit start and end.
    pub fn with_range(
        node: T,
        line: usize,
        column: usize,
        end_line: usize,
        end_column: usize,
    ) -> (r: Spanned<T>)
        ensures
            r.node == node,
            r.span == (Span { line, column, end_line, end_column }),
    {
        Spanned { node, span: Span { line, column, end_line, end_column } }
    }

    pub fn with_span(node: T, span: Span) -> (r: Spanned<T>)
        ensures
            r.node == node,
            r.span == span,
    {
        Spanned { node, span }
    }
}

/// A type as written in source.
#[derive(Debug, PartialEq)]
pub enum Type {
    I32,
    I64,
    U32,
    U64,
    F32,
    F64,
    Bool,
    Str,
    Char,
    Unit,
    Named(String),
    Generic(String),
    Box(Box<Type>),
    Applied(String, Vec<Type>),
    Array(Box<Type>, usize),
    Tuple(Vec<Type>),
}

#[derive(Debug)]
pub enum Literal {
    Int(i64),
    /// A floating-point literal, kept as its source spelling.
    Float(String),
    String(String),
    Bool(bool),
    Char(char),
}

#[derive(Debug, Clone, Copy, PartialEq, Eq, Structural)]
pub enum BinOp {
    Add,
    Sub,
    Mul,
    Div,
    Mod,
    Eq,
    Neq,
    Lt,
    Le,
    Gt,
    Ge,
    And,
    Or,
}

#[derive(Debug, Clone, Copy, PartialEq, Eq, Structural)]
pub enum UnOp {
    Not,
    Neg,
}

#[derive(Debug)]
pub struct BinaryExpr {
    pub left: Box<Expr>,
    pub operator: BinOp,
    pub right: Box<Expr>,
}

#[derive(Debug)]
pub struct UnaryExpr {
    pub operator: UnOp,
    pub operand: Box<Expr>,
}

#[derive(Debug)]
pub struct AssignExpr {
    pub target: Box<Expr>,
    pub value: Box<Expr>,
}

#[derive(Debug)]
pub struct CallExpr {
    pub callee: Box<Expr>,
    pub arguments: Vec<Expr>,
    pub type_args: Vec<Type>,
}

#[derive(Debug)]
pub struct MethodCallExpr {
    pub receiver: Box<Expr>,
    pub method: String,
    pub arguments: Vec<Expr>,
}

#[derive(Debug)]
pub struct FieldAccessExpr {
    pub base: Box<Expr>,
    pub field: String,
}

#[derive(Debug)]
pub struct ArrayIndexExpr {
    pub array: Box<Expr>,
    pub index: Box<Expr>,
}

#[derive(Debug)]
pub struct TryExpr {
    pub inner: Box<Expr>,
}

#[derive(Debug)]
pub struct StructLiteralExpr {
    pub name: String,
    pub fields: Vec<(String, Expr)>,
    pub type_args: Vec<Type>,
}

#[derive(Debug)]
pub struct EnumConstructExpr {
    pub enum_name: String,
    pub variant: String,
    pub args: Vec<Expr>,
}

#[derive(Debug)]
pub enum Pattern {
    Wildcard,
    Variant { enum_name: String, variant: String, bindings: Vec<String> },
}

#[derive(Debug)]
pub struct MatchArm {
    pub pattern: Pattern,
    pub body: Block,
}

#[derive(Debug)]
pub struct MatchExpr {
    pub scrutinee: Box<Expr>,
    pub arms: Vec<MatchArm>,
}

#[derive(Debug)]
pub struct IfExpr {
    pub condition: Box<Expr>,
    pub then_branch: Block,
    pub else_branch: Block,
}

#[derive(Debug)]
pub enum Expr {
    Ident(String),
    Literal(Literal),
    Binary(BinaryExpr),
    Unary(UnaryExpr),
    Assign(AssignExpr),
    Call(CallExpr),
    MethodCall(MethodCallExpr),
    FieldAccess(FieldAccessExpr),
    ArrayIndex(ArrayIndexExpr),
    ArrayLiteral(Vec<Expr>),
    TupleLiteral(Vec<Expr>),
    StructLiteral(StructLiteralExpr),
    EnumConstruct(EnumConstructExpr),
    BoxAlloc(Box<Expr>),
    VecEmpty(Type),
    Null,
    Try(TryExpr),
    Match(MatchExpr),
    If(IfExpr),
}

#[derive(Debug)]
pub struct LetStmt {
    pub name: String,
    pub mutable: bool,
    pub type_annotation: Option<Type>,
    pub value: Option<Expr>,
}

#[derive(Debug)]
pub struct StructField {
    pub name: String,
    pub field_type: Type,
}

#[derive(Debug)]
pub struct StructDef {
    pub name: String,
    pub type_params: Vec<String>,
    pub fields: Vec<StructField>,
}

#[derive(Debug)]
pub struct EnumVariant {
    pub name: String,
    pub payloads: Vec<Type>,
}

#[derive(Debug)]
pub struct EnumDef {
    pub name: String,
    pub variants: Vec<EnumVariant>,
}

#[derive(Debug)]
pub struct FnParam {
    pub name: String,
    pub param_type: Type,
}

#[derive(Debug)]
pub struct FnStmt {
    pub name: String,
    pub type_params: Vec<String>,
    pub params: Vec<FnParam>,
    pub return_type: Option<Type>,
    pub body: Block,
}

#[derive(Debug)]
pub struct ImportStmt {
    pub name: String,
}

#[derive(Debug)]
pub struct ExportStmt {
    pub path: String,
    pub is_wildcard: bool,
}

#[derive(Debug)]
pub struct ReturnStmt {
    pub value: Option<Expr>,
}

#[derive(Debug)]
pub struct ExprStmt {
    pub expr: Expr,
}

#[derive(Debug)]
pub struct IfStmt {
    pub condition: Expr,
    pub then_branch: Block,
    pub elif_branches: Vec<(Expr, Block)>,
    pub else_branch: Option<Block>,
}

#[derive(Debug)]
pub enum ForSource {
    Range { start: Expr, end: Expr },
    Array(Expr),
}

#[derive(Debug)]
pub struct ForStmt {
    pub var_name: String,
    pub source: ForSource,
    pub body: Block,
}

#[derive(Debug)]
pub struct WhileStmt {
    pub condition: Expr,
    pub body: Block,
}

#[derive(Debug)]
pub struct TraitMethodDef {
    pub name: String,
    pub has_self: bool,
    pub params: Vec<FnParam>,
    pub return_type: Option<Type>,
}

#[derive(Debug)]
pub struct TraitDef {
    pub name: String,
    pub methods: Vec<TraitMethodDef>,
}

#[derive(Debug)]
pub struct ImplBlock {
    pub trait_name: String,
    pub target_type: String,
    pub methods: Vec<FnStmt>,
}

#[derive(Debug)]
pub struct Block {
    pub statements: Vec<Spanned<Stmt>>,
}

#[derive(Debug)]
pub enum Stmt {
    Let(LetStmt),
    Struct(StructDef),
    Enum(EnumDef),
    Fn(FnStmt),
    Import(ImportStmt),
    Export(ExportStmt),
    Return(ReturnStmt),
    Break,
    Continue,
    If(IfStmt),
    For(ForStmt),
    While(WhileStmt),
    Block(Block),
    Expr(ExprStmt),
    Trait(TraitDef),
    Impl(ImplBlock),
    Defer(Box<Spanned<Stmt>>),
}

#[derive(Debug)]
pub struct Program {
    pub statements: Vec<Spanned<Stmt>>,
}

/// `items` joined with `", "`.
pub open spec fn join_comma(items: Seq<Seq<char>>) -> Seq<char>
    decreases items.len(),
{
    if items.len() == 0 {
        Seq::empty()
    } else if items.len() == 1 {
        items[0]
    } else {
        join_comma(items.drop_last()) + ", "@ + items.last()
    }
}

/// How a type is written in source: `i32`, `Box<T>`, `[T; N]`, `(A, B)`,
/// `Name<A, B>`.
pub open spec fn type_text(t: Type) -> Seq<char>
    decreases t,
{
    match t {
        Type::I32 => "i32"@,
        Type::I64 => "i64"@,
        Type::U32 => "u32"@,
        Type::U64 => "u64"@,
        Type::F32 => "f32"@,
        Type::F64 => "f64"@,
        Type::Bool => "bool"@,
        Type::Str => "str"@,
        Type::Char => "char"@,
        Type::Unit => "()"@,
        Type::Named(s) => s@,
        Type::Generic(s) => s@,
        Type::Box(inner) => "Box<"@ + type_text(*inner) + ">"@,
        Type::Applied(name, args) => name@ + "<"@ + types_text(args@) + ">"@,
        Type::Array(elem, n) => "["@ + type_text(*elem) + "; "@ + dec_digits(n as nat) + "]"@,
        Type::Tuple(elems) => "("@ + types_text(elems@) + ")"@,
    }
}

/// Types written one after another, separated by `", "`.
pub open spec fn types_text(ts: Seq<Type>) -> Seq<char>
    decreases ts,
{
    if ts.len() == 0 {
        Seq::empty()
    } else if ts.len() == 1 {
        type_text(ts[0])
    } else {
        types_text(ts.drop_last()) + ", "@ + type_text(ts.last())
    }
}

/// Appends the source spelling of `t`.
pub fn push_type(out: &mut Vec<char>, t: &Type)
    ensures
        final(out)@ == old(out)@ + type_text(*t),
    decreases t,
{
    match t {
        Type::I32 => push_str(out, "i32"),
        Type::I64 => push_str(out, "i64"),
        Type::U32 => push_str(out, "u32"),
        Type::U64 => push_str(out, "u64"),
        Type::F32 => push_str(out, "f32"),
        Type::F64 => push_str(out, "f64"),
        Type::Bool => push_str(out, "bool"),
        Type::Str => push_str(out, "str"),
        Type::Char => push_str(out, "char"),
        Type::Unit => push_str(out, "()"),
        Type::Named(s) => push_str(out, s.as_str()),
        Type::Generic(s) => push_str(out, s.as_str()),
        Type::Box(inner) => {
            push_str(out, "Box<");
            push_type(out, inner);
            push_str(out, ">");
            assert(final(out)@ =~= old(out)@ + type_text(*t));
        },
        Type::Applied(name, args) => {
            push_str(out, name.as_str());
            push_str(out, "<");
            push_types(out, args);
            push_str(out, ">");
            assert(final(out)@ =~= old(out)@ + type_text(*t));
        },
        Type::Array(elem, n) => {
            push_str(out, "[");
            push_type(out, elem);
            push_str(out, "; ");
            push_decimal(out, *n as u64);
            push_str(out, "]");
            assert(final(out)@ =~= old(out)@ + type_text(*t));
        },
        Type::Tuple(elems) => {
            push_str(out, "(");
            push_types(out, elems);
            push_str(out, ")");
            assert(final(out)@ =~= old(out)@ + type_text(*t));
        },
    }
}

/// Appends the types separated by `", "`.
pub fn push_types(out: &mut Vec<char>, ts: &Vec<Type>)
    ensures
        final(out)@ == old(out)@ + types_text(ts@),
    decreases ts,
{
    let mut i: usize = 0;
    assert(ts@.take(0) =~= Seq::<Type>::empty());
    while i < ts.len()
        invariant
            0 <= i <= ts.len(),
            out@ == old(out)@ + types_text(ts@.take(i as int)),
        decreases ts.len() - i,
    {
        assert(ts@.take(i + 1).drop_last() =~= ts@.take(i as int));
        assert(ts@.take(i + 1).last() == ts@[i as int]);
        if i > 0 {
            push_str(out, ", ");
        }
        proof {
            assert(decreases_to!(ts => ts@[i as int]));
        }
        push_type(out, &ts[i]);
        proof {
            if i == 0 {
                assert(ts@.take(1) =~= seq![ts@[0]]);
            }
        }
        assert(out@ =~= old(out)@ + types_text(ts@.take(i + 1)));
        i += 1;
    }
    assert(ts@.take(ts.len() as int) =~= ts@);
}

/// The source spelling of a type.
pub fn type_string(t: &Type) -> (r: String)
    ensures
        r@ == type_text(*t),
{
    let mut out: Vec<char> = Vec::new();
    push_type(&mut out, t);
    string_of(out.as_slice())
}

} // verus!
