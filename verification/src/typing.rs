//! Type-level rules of the code generator: which maps it specialises,
//! primitive type names, operator spellings, source-file splitting for
//! debug info, and the signature check of trait method implementations.
use crate::ast::{type_string, type_text, BinOp, FnParam, FnStmt, TraitMethodDef, Type};
use crate::render::HuziError;
use crate::text::{chars_of, dec_digits, eq_str, push_str, string_of};
use vstd::prelude::*;

verus! {

/// The key/value specialisation of a map.
#[derive(Debug, Clone, Copy, PartialEq, Eq, Structural)]
pub enum MapKind {
    StrI32,
    StrStr,
    I32I32,
}

/// `str` as a type (the parser writes it as `Named("str")`).
pub open spec fn is_str_type(t: Type) -> bool {
    match t {
        Type::Str => true,
        Type::Named(n) => n@ == "str"@,
        _ => false,
    }
}

/// `i32`/`u32` as a type (also as names).
pub open spec fn is_i32_type(t: Type) -> bool {
    match t {
        Type::I32 | Type::U32 => true,
        Type::Named(n) => n@ == "i32"@ || n@ == "u32"@,
        _ => false,
    }
}

pub open spec fn map_name(n: Seq<char>) -> bool {
    n == "Map"@ || n == "HashMap"@ || n == "map"@
}

/// The map specialisation a type asks for: a bare map name is `str->i32`;
/// `Map<K, V>` with `str`/`i32` keys and values picks the matching kind.
pub open spec fn map_kind_of(t: Type) -> Option<MapKind> {
    match t {
        Type::Named(n) => if map_name(n@) {
            Some(MapKind::StrI32)
        } else {
            None
        },
        Type::Applied(n, args) => if map_name(n@) {
            if args@.len() != 2 {
                None
            } else if is_str_type(args@[0]) && is_i32_type(args@[1]) {
                Some(MapKind::StrI32)
            } else if is_str_type(args@[0]) && is_str_type(args@[1]) {
                Some(MapKind::StrStr)
            } else if is_i32_type(args@[0]) && is_i32_type(args@[1]) {
                Some(MapKind::I32I32)
            } else {
                None
            }
        } else {
            None
        },
        _ => None,
    }
}

impl MapKind {
    pub fn is_str_ty(ty: &Type) -> (r: bool)
        ensures
            r == is_str_type(*ty),
    {
        match ty {
            Type::Str => true,
            Type::Named(n) => eq_str(chars_of(n.as_str()).as_slice(), "str"),
            _ => false,
        }
    }

    pub fn is_i32_ty(ty: &Type) -> (r: bool)
        ensures
            r == is_i32_type(*ty),
    {
        match ty {
            Type::I32 | Type::U32 => true,
            Type::Named(n) => {
                let c = chars_of(n.as_str());
                eq_str(c.as_slice(), "i32") || eq_str(c.as_slice(), "u32")
            },
            _ => false,
        }
    }

    /// `Map`, `HashMap` or `map`.
    pub fn is_map_name(name: &str) -> (r: bool)
        ensures
            r == map_name(name@),
    {
        let c = chars_of(name);
        eq_str(c.as_slice(), "Map") || eq_str(c.as_slice(), "HashMap") || eq_str(c.as_slice(), "map")
    }

    /// The specialisation of a map type; `None` for other types and for
    /// unsupported key/value combinations.
    pub fn from_ast(ty: &Type) -> (r: Option<MapKind>)
        ensures
            r == map_kind_of(*ty),
    {
        match ty {
            Type::Named(n) => {
                if Self::is_map_name(n.as_str()) {
                    Some(MapKind::StrI32)
                } else {
                    None
                }
            },
            Type::Applied(n, args) => {
                if !Self::is_map_name(n.as_str()) {
                    return None;
                }
                if args.len() != 2 {
                    return None;
                }
                let k_str = Self::is_str_ty(&args[0]);
                let k_i32 = Self::is_i32_ty(&args[0]);
                let v_str = Self::is_str_ty(&args[1]);
                let v_i32 = Self::is_i32_ty(&args[1]);
                if k_str && v_i32 {
                    Some(MapKind::StrI32)
                } else if k_str && v_str {
                    Some(MapKind::StrStr)
                } else if k_i32 && v_i32 {
                    Some(MapKind::I32I32)
                } else {
                    None
                }
            },
            _ => None,
        }
    }

    /// Whether keys are `str` (else `i32`).
    pub fn key_is_str(self) -> (r: bool)
        ensures
            r == (self == MapKind::StrI32 || self == MapKind::StrStr),
    {
        match self {
            MapKind::StrI32 | MapKind::StrStr => true,
            MapKind::I32I32 => false,
        }
    }

    /// Whether values are `str` (else `i32`).
    pub fn val_is_str(self) -> (r: bool)
        ensures
            r == (self == MapKind::StrStr),
    {
        match self {
            MapKind::StrStr => true,
            _ => false,
        }
    }

    /// `K->V` for messages.
    pub fn display(self) -> (r: &'static str)
        ensures
            r@ == match self {
                MapKind::StrI32 => "str->i32"@,
                MapKind::StrStr => "str->str"@,
                MapKind::I32I32 => "i32->i32"@,
            },
    {
        match self {
            MapKind::StrI32 => "str->i32",
            MapKind::StrStr => "str->str",
            MapKind::I32I32 => "i32->i32",
        }
    }
}

/// The primitive type names that the parser keeps as `Named(..)`.
pub open spec fn primitive_name(n: Seq<char>) -> bool {
    n == "i32"@ || n == "u32"@ || n == "i64"@ || n == "u64"@ || n == "f32"@ || n == "f64"@
        || n == "bool"@ || n == "char"@ || n == "str"@
}

pub fn is_primitive_type_name(name: &str) -> (r: bool)
    ensures
        r == primitive_name(name@),
{
    let c = chars_of(name);
    let s = c.as_slice();
    eq_str(s, "i32") || eq_str(s, "u32") || eq_str(s, "i64") || eq_str(s, "u64") || eq_str(s, "f32")
        || eq_str(s, "f64") || eq_str(s, "bool") || eq_str(s, "char") || eq_str(s, "str")
}

pub open spec fn op_text(op: BinOp) -> Seq<char> {
    match op {
        BinOp::Eq => "=="@,
        BinOp::Neq => "!="@,
        BinOp::Lt => "<"@,
        BinOp::Le => "<="@,
        BinOp::Gt => ">"@,
        BinOp::Ge => ">="@,
        BinOp::Add => "+"@,
        BinOp::Sub => "-"@,
        BinOp::Mul => "*"@,
        BinOp::Div => "/"@,
        BinOp::Mod => "%"@,
        BinOp::And => "&&"@,
        BinOp::Or => "||"@,
    }
}

/// How an operator is written.
pub fn bin_op_symbol(op: &BinOp) -> (r: &'static str)
    ensures
        r@ == op_text(*op),
{
    match op {
        BinOp::Eq => "==",
        BinOp::Neq => "!=",
        BinOp::Lt => "<",
        BinOp::Le => "<=",
        BinOp::Gt => ">",
        BinOp::Ge => ">=",
        BinOp::Add => "+",
        BinOp::Sub => "-",
        BinOp::Mul => "*",
        BinOp::Div => "/",
        BinOp::Mod => "%",
        BinOp::And => "&&",
        BinOp::Or => "||",
    }
}

/// A source path as (file name, directory): the whole path when it has no
/// file name, and an empty directory when it has no parent.
pub fn split_source_path(path: &str) -> (r: (String, String))
    ensures
        r.0@ == match crate::paths::path_file_name_text(path@) {
            Some(n) => n,
            None => path@,
        },
        r.1@ == match crate::paths::path_parent_text(path@) {
            Some(d) => d,
            None => Seq::empty(),
        },
{
    let filename = match crate::paths::path_file_name(path) {
        Some(n) => n,
        None => string_of(chars_of(path).as_slice()),
    };
    let directory = match crate::paths::path_parent(path) {
        Some(d) => d,
        None => String::new(),
    };
    (filename, directory)
}

/// Structural equality of types.
pub open spec fn same_type(a: Type, b: Type) -> bool
    decreases a,
{
    match (a, b) {
        (Type::I32, Type::I32) | (Type::I64, Type::I64) | (Type::U32, Type::U32) | (
            Type::U64,
            Type::U64,
        ) | (Type::F32, Type::F32) | (Type::F64, Type::F64) | (Type::Bool, Type::Bool) | (
            Type::Str,
            Type::Str,
        ) | (Type::Char, Type::Char) | (Type::Unit, Type::Unit) => true,
        (Type::Named(x), Type::Named(y)) => x@ == y@,
        (Type::Generic(x), Type::Generic(y)) => x@ == y@,
        (Type::Box(x), Type::Box(y)) => same_type(*x, *y),
        (Type::Applied(n, xs), Type::Applied(m, ys)) => n@ == m@ && same_types(xs@, ys@),
        (Type::Array(x, n), Type::Array(y, m)) => n == m && same_type(*x, *y),
        (Type::Tuple(xs), Type::Tuple(ys)) => same_types(xs@, ys@),
        _ => false,
    }
}

pub open spec fn same_types(xs: Seq<Type>, ys: Seq<Type>) -> bool
    decreases xs,
{
    xs.len() == ys.len() && forall|i: int| 0 <= i < xs.len() ==> same_type(#[trigger] xs[i], ys[i])
}

/// Types that are equal are built alike and are written alike: the same
/// constructor, the same names, lengths and element counts, and the same
/// source spelling, down to every argument and element.
pub proof fn law_equal_types_are_identical(a: Type, b: Type)
    requires
        same_type(a, b),
    ensures
        type_text(a) == type_text(b),
        a is I32 <==> b is I32,
        a is I64 <==> b is I64,
        a is U32 <==> b is U32,
        a is U64 <==> b is U64,
        a is F32 <==> b is F32,
        a is F64 <==> b is F64,
        a is Bool <==> b is Bool,
        a is Str <==> b is Str,
        a is Char <==> b is Char,
        a is Unit <==> b is Unit,
        a matches Type::Named(x) ==> (b matches Type::Named(y) && x@ == y@),
        a matches Type::Generic(x) ==> (b matches Type::Generic(y) && x@ == y@),
        a is Box <==> b is Box,
        a matches Type::Applied(n, xs) ==> (b matches Type::Applied(m, ys) && n@ == m@ && xs@.len()
            == ys@.len()),
        a matches Type::Array(x, n) ==> (b matches Type::Array(y, m) && n == m),
        a matches Type::Tuple(xs) ==> (b matches Type::Tuple(ys) && xs@.len() == ys@.len()),
    decreases a,
{
    match (a, b) {
        (Type::Box(x), Type::Box(y)) => {
            law_equal_types_are_identical(*x, *y);
        },
        (Type::Applied(n, xs), Type::Applied(m, ys)) => {
            lemma_equal_type_lists_spelled_alike(xs@, ys@);
            assert(n@ == m@ && xs@.len() == ys@.len());
        },
        (Type::Array(x, n), Type::Array(y, m)) => {
            law_equal_types_are_identical(*x, *y);
        },
        (Type::Tuple(xs), Type::Tuple(ys)) => {
            lemma_equal_type_lists_spelled_alike(xs@, ys@);
            assert(xs@.len() == ys@.len());
        },
        _ => {},
    }
}

/// Every type equals itself.
pub proof fn law_type_equal_to_itself(a: Type)
    ensures
        same_type(a, a),
    decreases a,
{
    match a {
        Type::Box(x) => {
            law_type_equal_to_itself(*x);
        },
        Type::Applied(n, xs) => {
            lemma_type_list_equal_to_itself(xs@);
        },
        Type::Array(x, n) => {
            law_type_equal_to_itself(*x);
        },
        Type::Tuple(xs) => {
            lemma_type_list_equal_to_itself(xs@);
        },
        _ => {},
    }
}

proof fn lemma_type_list_equal_to_itself(xs: Seq<Type>)
    ensures
        same_types(xs, xs),
    decreases xs,
{
    assert forall|i: int| 0 <= i < xs.len() implies same_type(#[trigger] xs[i], xs[i]) by {
        law_type_equal_to_itself(xs[i]);
    }
}

/// Lists of pairwise equal types are written alike.
proof fn lemma_equal_type_lists_spelled_alike(xs: Seq<Type>, ys: Seq<Type>)
    requires
        same_types(xs, ys),
    ensures
        crate::ast::types_text(xs) == crate::ast::types_text(ys),
    decreases xs,
{
    if xs.len() >= 1 {
        let n = xs.len() - 1;
        assert(same_type(xs[n], ys[n]));
        law_equal_types_are_identical(xs.last(), ys.last());
        if xs.len() >= 2 {
            assert(same_types(xs.drop_last(), ys.drop_last())) by {
                assert forall|i: int| 0 <= i < xs.drop_last().len() implies same_type(
                    #[trigger] xs.drop_last()[i],
                    ys.drop_last()[i],
                ) by {
                    assert(same_type(xs[i], ys[i]));
                }
            }
            lemma_equal_type_lists_spelled_alike(xs.drop_last(), ys.drop_last());
        }
    }
}

/// Whether two types are equal.
pub fn type_eq(a: &Type, b: &Type) -> (r: bool)
    ensures
        r == same_type(*a, *b),
    decreases a,
{
    match (a, b) {
        (Type::I32, Type::I32) | (Type::I64, Type::I64) | (Type::U32, Type::U32) | (
            Type::U64,
            Type::U64,
        ) | (Type::F32, Type::F32) | (Type::F64, Type::F64) | (Type::Bool, Type::Bool) | (
            Type::Str,
            Type::Str,
        ) | (Type::Char, Type::Char) | (Type::Unit, Type::Unit) => true,
        (Type::Named(x), Type::Named(y)) | (Type::Generic(x), Type::Generic(y)) => {
            crate::text::chars_eq(chars_of(x.as_str()).as_slice(), chars_of(y.as_str()).as_slice())
        },
        (Type::Box(x), Type::Box(y)) => type_eq(x, y),
        (Type::Applied(n, xs), Type::Applied(m, ys)) => {
            crate::text::chars_eq(chars_of(n.as_str()).as_slice(), chars_of(m.as_str()).as_slice())
                && types_eq(xs, ys)
        },
        (Type::Array(x, n), Type::Array(y, m)) => *n == *m && type_eq(x, y),
        (Type::Tuple(xs), Type::Tuple(ys)) => types_eq(xs, ys),
        _ => false,
    }
}

fn types_eq(xs: &Vec<Type>, ys: &Vec<Type>) -> (r: bool)
    ensures
        r == same_types(xs@, ys@),
    decreases xs,
{
    if xs.len() != ys.len() {
        return false;
    }
    let mut i: usize = 0;
    while i < xs.len()
        invariant
            0 <= i <= xs.len(),
            xs.len() == ys.len(),
            forall|j: int| 0 <= j < i ==> same_type(#[trigger] xs@[j], ys@[j]),
        decreases xs.len() - i,
    {
        proof {
            assert(decreases_to!(xs => xs@[i as int]));
        }
        if !type_eq(&xs[i], &ys[i]) {
            return false;
        }
        i += 1;
    }
    true
}

pub open spec fn same_opt_type(a: Option<Type>, b: Option<Type>) -> bool {
    match (a, b) {
        (None, None) => true,
        (Some(x), Some(y)) => same_type(x, y),
        _ => false,
    }
}

/// A copy of a type.
pub fn copy_type(t: &Type) -> (r: Type)
    ensures
        same_type(r, *t),
    decreases t,
{
    match t {
        Type::I32 => Type::I32,
        Type::I64 => Type::I64,
        Type::U32 => Type::U32,
        Type::U64 => Type::U64,
        Type::F32 => Type::F32,
        Type::F64 => Type::F64,
        Type::Bool => Type::Bool,
        Type::Str => Type::Str,
        Type::Char => Type::Char,
        Type::Unit => Type::Unit,
        Type::Named(s) => Type::Named(s.clone()),
        Type::Generic(s) => Type::Generic(s.clone()),
        Type::Box(x) => Type::Box(Box::new(copy_type(x))),
        Type::Applied(n, xs) => Type::Applied(n.clone(), copy_types(xs)),
        Type::Array(x, n) => Type::Array(Box::new(copy_type(x)), *n),
        Type::Tuple(xs) => Type::Tuple(copy_types(xs)),
    }
}

fn copy_types(xs: &Vec<Type>) -> (r: Vec<Type>)
    ensures
        same_types(r@, xs@),
    decreases xs,
{
    let mut out: Vec<Type> = Vec::new();
    let mut i: usize = 0;
    while i < xs.len()
        invariant
            0 <= i <= xs.len(),
            out.len() == i,
            forall|j: int| 0 <= j < i ==> same_type(#[trigger] out@[j], xs@[j]),
        decreases xs.len() - i,
    {
        proof {
            assert(decreases_to!(xs => xs@[i as int]));
        }
        let c = copy_type(&xs[i]);
        out.push(c);
        i += 1;
    }
    out
}

/// A copy of an optional type.
pub fn copy_opt_type(t: &Option<Type>) -> (r: Option<Type>)
    ensures
        same_opt_type(r, *t),
{
    match t {
        Some(x) => Some(copy_type(x)),
        None => None,
    }
}

/// How a return type is shown in messages: the type, or a note that an
/// unannotated function returns `i32`.
pub open spec fn return_text(t: Option<Type>) -> Seq<char> {
    match t {
        Some(x) => type_text(x),
        None => "无标注(默认 i32)"@,
    }
}

pub fn fmt_return(ty: &Option<Type>) -> (r: String)
    ensures
        r@ == return_text(*ty),
{
    match ty {
        Some(t) => type_string(t),
        None => string_of(chars_of("无标注(默认 i32)").as_slice()),
    }
}

/// Which check an implementation method fails against its trait method,
/// in the order they are made: parameter count (counting `self`), a first
/// parameter named `self` of the target type, each parameter type, then
/// the return type.
pub enum SigMismatch {
    Count,
    SelfName,
    SelfType,
    Param(int),
    Return,
}

pub open spec fn first_param_mismatch(m: Seq<FnParam>, t: Seq<FnParam>, off: int, k: int) -> Option<int>
    decreases t.len() - k,
{
    if k < 0 || k >= t.len() {
        None
    } else if !same_type(m[k + off].param_type, t[k].param_type) {
        Some(k)
    } else {
        first_param_mismatch(m, t, off, k + 1)
    }
}

pub open spec fn sig_check(m: FnStmt, tm: TraitMethodDef, target: Seq<char>) -> Option<SigMismatch> {
    let off: int = if tm.has_self {
        1
    } else {
        0
    };
    if m.params@.len() != tm.params@.len() + off {
        Some(SigMismatch::Count)
    } else if tm.has_self && m.params@[0].name@ != "self"@ {
        Some(SigMismatch::SelfName)
    } else if tm.has_self && !(m.params@[0].param_type matches Type::Named(n) && n@ == target) {
        Some(SigMismatch::SelfType)
    } else if first_param_mismatch(m.params@, tm.params@, off, 0) is Some {
        Some(SigMismatch::Param(first_param_mismatch(m.params@, tm.params@, off, 0).unwrap()))
    } else if !same_opt_type(m.return_type, tm.return_type) {
        Some(SigMismatch::Return)
    } else {
        None
    }
}

/// The message for a failed check.
pub open spec fn sig_message(
    m: FnStmt,
    tm: TraitMethodDef,
    trait_name: Seq<char>,
    target: Seq<char>,
    mm: SigMismatch,
) -> Seq<char> {
    let off: int = if tm.has_self {
        1
    } else {
        0
    };
    match mm {
        SigMismatch::Count => "方法 '"@ + m.name@ + "' 参数数量不匹配:trait '"@ + trait_name + "' 期望 "@
            + dec_digits((tm.params@.len() + off) as nat) + " 个(含 self),实际 "@ + dec_digits(
            m.params@.len(),
        ) + " 个"@,
        SigMismatch::SelfName => "方法 '"@ + m.name@ + "' 首个参数必须为 'self':期望 'self',实际为 '"@
            + m.params@[0].name@ + "'"@,
        SigMismatch::SelfType => "方法 '"@ + m.name@ + "' 的 'self' 类型与实现目标不一致:期望 '"@ + target
            + "',实际 '"@ + type_text(m.params@[0].param_type) + "'"@,
        SigMismatch::Param(k) => "方法 '"@ + m.name@ + "' 参数 '"@ + m.params@[k + off].name@
            + "' 类型与 trait '"@ + trait_name + "' 不一致:期望 '"@ + type_text(tm.params@[k].param_type)
            + "',实际 '"@ + type_text(m.params@[k + off].param_type) + "'"@,
        SigMismatch::Return => "方法 '"@ + m.name@ + "' 返回类型与 trait '"@ + trait_name + "' 不一致:期望 '"@
            + return_text(tm.return_type) + "',实际 '"@ + return_text(m.return_type) + "'"@,
    }
}

/// Checks an implementation method against the trait's declaration of it;
/// the error is reported at `line`/`column` of the `impl`.
pub fn validate_method_signature(
    m: &FnStmt,
    tm: &TraitMethodDef,
    trait_name: &str,
    target_type: &str,
    line: usize,
    column: usize,
) -> (r: Result<(), HuziError>)
    requires
        tm.params.len() < usize::MAX,
    ensures
        r is Ok <==> sig_check(*m, *tm, target_type@) is None,
        r matches Err(e) ==> e.line == line && e.column == column && e.message@ == sig_message(
            *m,
            *tm,
            trait_name@,
            target_type@,
            sig_check(*m, *tm, target_type@)->0,
        ),
{
    let off: usize = if tm.has_self {
        1
    } else {
        0
    };
    let expected = tm.params.len() + off;
    if m.params.len() != expected {
        let mut msg: Vec<char> = Vec::new();
        push_str(&mut msg, "方法 '");
        push_str(&mut msg, m.name.as_str());
        push_str(&mut msg, "' 参数数量不匹配:trait '");
        push_str(&mut msg, trait_name);
        push_str(&mut msg, "' 期望 ");
        crate::text::push_decimal(&mut msg, expected as u64);
        push_str(&mut msg, " 个(含 self),实际 ");
        crate::text::push_decimal(&mut msg, m.params.len() as u64);
        push_str(&mut msg, " 个");
        return Err(HuziError { message: string_of(msg.as_slice()), line, column });
    }
    if tm.has_self {
        let first = chars_of(m.params[0].name.as_str());
        if !eq_str(first.as_slice(), "self") {
            let mut msg: Vec<char> = Vec::new();
            push_str(&mut msg, "方法 '");
            push_str(&mut msg, m.name.as_str());
            push_str(&mut msg, "' 首个参数必须为 'self':期望 'self',实际为 '");
            push_str(&mut msg, m.params[0].name.as_str());
            push_str(&mut msg, "'");
            return Err(HuziError { message: string_of(msg.as_slice()), line, column });
        }
        let self_ok = match &m.params[0].param_type {
            Type::Named(n) => eq_str(chars_of(n.as_str()).as_slice(), target_type),
            _ => false,
        };
        if !self_ok {
            let mut msg: Vec<char> = Vec::new();
            push_str(&mut msg, "方法 '");
            push_str(&mut msg, m.name.as_str());
            push_str(&mut msg, "' 的 'self' 类型与实现目标不一致:期望 '");
            push_str(&mut msg, target_type);
            push_str(&mut msg, "',实际 '");
            crate::ast::push_type(&mut msg, &m.params[0].param_type);
            push_str(&mut msg, "'");
            return Err(HuziError { message: string_of(msg.as_slice()), line, column });
        }
    }
    let mut k: usize = 0;
    while k < tm.params.len()
        invariant
            0 <= k <= tm.params.len(),
            m.params@.len() == tm.params@.len() + off,
            off == (if tm.has_self { 1usize } else { 0usize }),
            tm.has_self ==> m.params@[0].name@ == "self"@,
            tm.has_self ==> (m.params@[0].param_type matches Type::Named(n) && n@ == target_type@),
            first_param_mismatch(m.params@, tm.params@, off as int, 0) == first_param_mismatch(
                m.params@,
                tm.params@,
                off as int,
                k as int,
            ),
        decreases tm.params.len() - k,
    {
        let mp = &m.params[k + off];
        let tp = &tm.params[k];
        if !type_eq(&mp.param_type, &tp.param_type) {
            let mut msg: Vec<char> = Vec::new();
            push_str(&mut msg, "方法 '");
            push_str(&mut msg, m.name.as_str());
            push_str(&mut msg, "' 参数 '");
            push_str(&mut msg, mp.name.as_str());
            push_str(&mut msg, "' 类型与 trait '");
            push_str(&mut msg, trait_name);
            push_str(&mut msg, "' 不一致:期望 '");
            crate::ast::push_type(&mut msg, &tp.param_type);
            push_str(&mut msg, "',实际 '");
            crate::ast::push_type(&mut msg, &mp.param_type);
            push_str(&mut msg, "'");
            proof {
                assert(first_param_mismatch(m.params@, tm.params@, off as int, k as int) == Some(
                    k as int,
                ));
                assert(sig_check(*m, *tm, target_type@) == Some(SigMismatch::Param(k as int)));
                assert(msg@ =~= sig_message(
                    *m,
                    *tm,
                    trait_name@,
                    target_type@,
                    SigMismatch::Param(k as int),
                ));
            }
            return Err(HuziError { message: string_of(msg.as_slice()), line, column });
        }
        k += 1;
    }
    let same_ret = match (&m.return_type, &tm.return_type) {
        (None, None) => true,
        (Some(x), Some(y)) => type_eq(x, y),
        _ => false,
    };
    if !same_ret {
        let mut msg: Vec<char> = Vec::new();
        push_str(&mut msg, "方法 '");
        push_str(&mut msg, m.name.as_str());
        push_str(&mut msg, "' 返回类型与 trait '");
        push_str(&mut msg, trait_name);
        push_str(&mut msg, "' 不一致:期望 '");
        let want = fmt_return(&tm.return_type);
        push_str(&mut msg, want.as_str());
        push_str(&mut msg, "',实际 '");
        let got = fmt_return(&m.return_type);
        push_str(&mut msg, got.as_str());
        push_str(&mut msg, "'");
        return Err(HuziError { message: string_of(msg.as_slice()), line, column });
    }
    Ok(())
}

} // verus!
