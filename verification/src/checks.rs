//! Checks the code generator makes on the syntax tree before it emits any
//! code: the nesting shape of `Box` types and values, enum constructor
//! arity, and the exhaustiveness of `match`.
use crate::ast::{join_comma, EnumConstructExpr, Literal, MatchArm, Pattern, Type};
use crate::modules::views_of;
use crate::paths::opt_text;
use crate::render::HuziError;
use crate::text::{push_decimal, dec_digits, push_str, string_of};
use vstd::prelude::*;

verus! {

// ---------------------------------------------------------------------------
// Box shapes
// ---------------------------------------------------------------------------

/// The canonical name of the innermost type of a `Box`: a struct by its name,
/// a scalar by its spelling; other types have none.
pub open spec fn leaf_name(ty: Type) -> Option<Seq<char>> {
    match ty {
        Type::I32 => Some("i32"@),
        Type::U32 => Some("u32"@),
        Type::I64 => Some("i64"@),
        Type::U64 => Some("u64"@),
        Type::F32 => Some("f32"@),
        Type::F64 => Some("f64"@),
        Type::Bool => Some("bool"@),
        Type::Char => Some("char"@),
        Type::Str => Some("str"@),
        Type::Named(n) => Some(n@),
        _ => None,
    }
}

pub fn canonical_leaf_name(ty: &Type) -> (r: Option<String>)
    ensures
        opt_text(r) == leaf_name(*ty),
{
    match ty {
        Type::I32 => Some("i32".to_owned()),
        Type::U32 => Some("u32".to_owned()),
        Type::I64 => Some("i64".to_owned()),
        Type::U64 => Some("u64".to_owned()),
        Type::F32 => Some("f32".to_owned()),
        Type::F64 => Some("f64".to_owned()),
        Type::Bool => Some("bool".to_owned()),
        Type::Char => Some("char".to_owned()),
        Type::Str => Some("str".to_owned()),
        Type::Named(n) => Some(n.clone()),
        _ => None,
    }
}

/// How many `Box` layers wrap a type.
pub open spec fn box_depth(ty: Type) -> nat
    decreases ty,
{
    match ty {
        Type::Box(inner) => box_depth(*inner) + 1,
        _ => 0,
    }
}

/// The type inside all `Box` layers.
pub open spec fn box_leaf(ty: Type) -> Type
    decreases ty,
{
    match ty {
        Type::Box(inner) => box_leaf(*inner),
        _ => ty,
    }
}

/// A `Box` type's shape: its depth and the canonical name of what it holds.
/// A type that is not a `Box`, or whose innermost type has no canonical
/// name, has none.
pub open spec fn box_shape(ty: Type) -> Option<(nat, Seq<char>)> {
    if box_depth(ty) == 0 {
        None
    } else {
        match leaf_name(box_leaf(ty)) {
            Some(n) => Some((box_depth(ty), n)),
            None => None,
        }
    }
}

pub open spec fn shape_view(r: Option<(u32, String)>) -> Option<(nat, Seq<char>)> {
    match r {
        Some((d, n)) => Some((d as nat, n@)),
        None => None,
    }
}

fn unbox(ty: &Type) -> (r: (u32, &Type))
    requires
        box_depth(*ty) <= u32::MAX,
    ensures
        r.0 == box_depth(*ty),
        *r.1 == box_leaf(*ty),
    decreases ty,
{
    match ty {
        Type::Box(inner) => {
            let (d, leaf) = unbox(inner);
            (d + 1, leaf)
        },
        _ => (0, ty),
    }
}

/// The shape of a `Box` type, compared exactly when a boxed value is
/// assigned.
pub fn box_ast_shape(ty: &Type) -> (r: Option<(u32, String)>)
    requires
        box_depth(*ty) <= u32::MAX,
    ensures
        shape_view(r) == box_shape(*ty),
{
    let (depth, leaf) = unbox(ty);
    if depth == 0 {
        return None;
    }
    match canonical_leaf_name(leaf) {
        Some(n) => Some((depth, n)),
        None => None,
    }
}

/// `name` wrapped in `depth` layers of `Box<..>`.
pub open spec fn box_text(depth: nat, name: Seq<char>) -> Seq<char>
    decreases depth,
{
    if depth == 0 {
        name
    } else {
        "Box<"@ + box_text((depth - 1) as nat, name) + ">"@
    }
}

/// How a nested `Box` shape is shown in messages: `(2, "Node")` is
/// `Box<Box<Node>>`.
pub fn display_box_nest(depth: u32, name: &str) -> (r: String)
    ensures
        r@ == box_text(depth as nat, name@),
{
    let mut s: Vec<char> = Vec::new();
    push_str(&mut s, name);
    let mut i: u32 = 0;
    while i < depth
        invariant
            0 <= i <= depth,
            s@ == box_text(i as nat, name@),
        decreases depth - i,
    {
        let mut t: Vec<char> = Vec::new();
        push_str(&mut t, "Box<");
        crate::text::push_all(&mut t, s.as_slice());
        push_str(&mut t, ">");
        s = t;
        i += 1;
    }
    string_of(s.as_slice())
}

/// The scalar name a literal is shown with: integers that fit in `i32` are
/// `i32`, larger ones `i64`; floats are `f64`.
pub open spec fn lit_shape(lit: Literal) -> Seq<char> {
    match lit {
        Literal::Int(n) => if i32::MIN <= n && n <= i32::MAX {
            "i32"@
        } else {
            "i64"@
        },
        Literal::Float(_) => "f64"@,
        Literal::Bool(_) => "bool"@,
        Literal::String(_) => "str"@,
        Literal::Char(_) => "char"@,
    }
}

pub fn lit_shape_name(lit: &Literal) -> (r: &'static str)
    ensures
        r@ == lit_shape(*lit),
{
    match lit {
        Literal::Int(n) => {
            if *n >= -2147483648i64 && *n <= 2147483647i64 {
                "i32"
            } else {
                "i64"
            }
        },
        Literal::Float(_) => "f64",
        Literal::Bool(_) => "bool",
        Literal::String(_) => "str",
        Literal::Char(_) => "char",
    }
}

/// Containers passed by handle: maps and `vec<T>`.
pub open spec fn container_handle(ty: Type) -> bool {
    match ty {
        Type::Named(n) => n@ == "Map"@ || n@ == "HashMap"@ || n@ == "map"@,
        Type::Applied(n, _) => n@ == "vec"@ || n@ == "Map"@ || n@ == "HashMap"@ || n@ == "map"@,
        _ => false,
    }
}

pub fn is_container_handle_type(ty: &Type) -> (r: bool)
    ensures
        r == container_handle(*ty),
{
    match ty {
        Type::Named(n) => {
            let s = n.as_str();
            str_is(s, "Map") || str_is(s, "HashMap") || str_is(s, "map")
        },
        Type::Applied(n, _) => {
            let s = n.as_str();
            str_is(s, "vec") || str_is(s, "Map") || str_is(s, "HashMap") || str_is(s, "map")
        },
        _ => false,
    }
}

fn str_is(s: &str, lit: &str) -> (r: bool)
    ensures
        r == (s@ == lit@),
{
    let a = s.to_owned();
    let b = lit.to_owned();
    a == b
}

// ---------------------------------------------------------------------------
// Enum constructors
// ---------------------------------------------------------------------------

/// What the checks read of a declared enum: its name and its variants' names
/// in declaration order (a variant's tag is its index).
pub struct EnumShape {
    pub name: String,
    pub variants: Vec<String>,
}

pub open spec fn no_variant_text(enum_name: Seq<char>, variant: Seq<char>) -> Seq<char> {
    "Enum '"@ + enum_name + "' has no variant '"@ + variant + "'"@
}

/// The message for a constructor given the wrong number of arguments.
pub open spec fn arity_text(enum_name: Seq<char>, variant: Seq<char>, expected: nat, got: nat) -> Seq<char> {
    if expected == 0 {
        "Unit variant '"@ + enum_name + "::"@ + variant + "' takes no arguments"@
    } else if expected == 1 {
        "Variant '"@ + enum_name + "::"@ + variant + "' expects exactly 1 argument"@
    } else {
        "Variant '"@ + enum_name + "::"@ + variant + "' expects "@ + dec_digits(expected)
            + " arguments, got "@ + dec_digits(got)
    }
}

fn global_error(text: Vec<char>) -> (r: HuziError)
    ensures
        r.message@ == text@,
        r.line == 0,
        r.column == 0,
{
    HuziError { message: string_of(text.as_slice()), line: 0, column: 0 }
}

/// A constructor must pass exactly as many arguments as its variant holds.
pub fn check_enum_variant_arity(expr: &EnumConstructExpr, expected: usize) -> (r: Result<(), HuziError>)
    ensures
        r is Ok <==> expr.args.len() == expected,
        r matches Err(e) ==> e.line == 0 && e.column == 0 && e.message@ == arity_text(
            expr.enum_name@,
            expr.variant@,
            expected as nat,
            expr.args.len() as nat,
        ),
{
    if expr.args.len() == expected {
        return Ok(());
    }
    let mut m: Vec<char> = Vec::new();
    if expected == 0 {
        push_str(&mut m, "Unit variant '");
        push_str(&mut m, expr.enum_name.as_str());
        push_str(&mut m, "::");
        push_str(&mut m, expr.variant.as_str());
        push_str(&mut m, "' takes no arguments");
    } else if expected == 1 {
        push_str(&mut m, "Variant '");
        push_str(&mut m, expr.enum_name.as_str());
        push_str(&mut m, "::");
        push_str(&mut m, expr.variant.as_str());
        push_str(&mut m, "' expects exactly 1 argument");
    } else {
        push_str(&mut m, "Variant '");
        push_str(&mut m, expr.enum_name.as_str());
        push_str(&mut m, "::");
        push_str(&mut m, expr.variant.as_str());
        push_str(&mut m, "' expects ");
        push_decimal(&mut m, expected as u64);
        push_str(&mut m, " arguments, got ");
        push_decimal(&mut m, expr.args.len() as u64);
    }
    Err(global_error(m))
}

/// The first index at which `names` holds `name`, or `names.len()`.
pub open spec fn name_index(names: Seq<Seq<char>>, name: Seq<char>) -> int
    decreases names.len(),
{
    if names.len() == 0 {
        0
    } else if names[0] == name {
        0
    } else {
        1 + name_index(names.drop_first(), name)
    }
}

pub proof fn lemma_name_index(names: Seq<Seq<char>>, name: Seq<char>)
    ensures
        0 <= name_index(names, name) <= names.len(),
        name_index(names, name) < names.len() ==> names[name_index(names, name)] == name,
        forall|j: int| 0 <= j < name_index(names, name) ==> names[j] != name,
        name_index(names, name) == names.len() <==> !names.contains(name),
    decreases names.len(),
{
    if names.len() > 0 && names[0] != name {
        let d = names.drop_first();
        lemma_name_index(d, name);
        assert forall|j: int| 0 <= j < name_index(names, name) implies names[j] != name by {
            if j > 0 {
                assert(names[j] == d[j - 1]);
            }
        }
        if names.contains(name) {
            let k = choose|k: int| 0 <= k < names.len() && names[k] == name;
            assert(d[k - 1] == name);
        }
        if d.contains(name) {
            let k = choose|k: int| 0 <= k < d.len() && d[k] == name;
            assert(names[k + 1] == name);
        }
    } else if names.len() > 0 {
        assert(names.contains(name)) by {
            assert(names[0] == name);
        }
    }
}

/// The tag of `variant` in `info`: the index of its first occurrence.
pub fn find_variant(info: &EnumShape, variant: &str) -> (r: Result<usize, HuziError>)
    ensures
        r is Ok <==> views_of(info.variants@).contains(variant@),
        match r {
            Ok(i) => i == name_index(views_of(info.variants@), variant@) && i < info.variants.len(),
            Err(e) => !views_of(info.variants@).contains(variant@) && e.line == 0 && e.column
                == 0 && e.message@ == no_variant_text(info.name@, variant@),
        },
{
    let ghost vs = views_of(info.variants@);
    proof {
        lemma_name_index(vs, variant@);
    }
    let target = variant.to_owned();
    let mut i: usize = 0;
    while i < info.variants.len()
        invariant
            0 <= i <= info.variants.len(),
            vs == views_of(info.variants@),
            target@ == variant@,
            forall|j: int| 0 <= j < i ==> vs[j] != variant@,
            0 <= name_index(vs, variant@) <= vs.len(),
            name_index(vs, variant@) < vs.len() ==> vs[name_index(vs, variant@)] == variant@,
            forall|j: int| 0 <= j < name_index(vs, variant@) ==> vs[j] != variant@,
        decreases info.variants.len() - i,
    {
        if info.variants[i] == target {
            assert(vs[i as int] == variant@);
            return Ok(i);
        }
        i += 1;
    }
    assert(!vs.contains(variant@)) by {
        if vs.contains(variant@) {
            let k = choose|k: int| 0 <= k < vs.len() && vs[k] == variant@;
        }
    }
    let mut m: Vec<char> = Vec::new();
    push_str(&mut m, "Enum '");
    push_str(&mut m, info.name.as_str());
    push_str(&mut m, "' has no variant '");
    push_str(&mut m, variant);
    push_str(&mut m, "'");
    Err(global_error(m))
}

pub open spec fn unknown_enum_text(enum_name: Seq<char>) -> Seq<char> {
    "Unknown enum: "@ + enum_name
}

/// The declared enum an `Enum::Variant` constructor names, and the
/// variant's tag; `enums` holds each enum under a distinct name.
pub fn resolve_enum_variant(enums: &Vec<EnumShape>, expr: &EnumConstructExpr) -> (r: Result<(usize, usize), HuziError>)
    ensures
        match r {
            Ok((e, t)) => e < enums.len() && enums@[e as int].name@ == expr.enum_name@
                && (forall|j: int| 0 <= j < e ==> enums@[j].name@ != expr.enum_name@) && t
                == name_index(views_of(enums@[e as int].variants@), expr.variant@) && t
                < enums@[e as int].variants.len(),
            Err(err) => err.line == 0 && err.column == 0 && (((forall|j: int|
                0 <= j < enums.len() ==> enums@[j].name@ != expr.enum_name@) && err.message@
                == unknown_enum_text(expr.enum_name@)) || (exists|e: int|
                0 <= e < enums.len() && enums@[e].name@ == expr.enum_name@ && (forall|j: int|
                    0 <= j < e ==> enums@[j].name@ != expr.enum_name@) && !views_of(
                    enums@[e].variants@,
                ).contains(expr.variant@) && err.message@ == no_variant_text(
                    expr.enum_name@,
                    expr.variant@,
                ))),
        },
{
    let mut i: usize = 0;
    while i < enums.len()
        invariant
            0 <= i <= enums.len(),
            forall|j: int| 0 <= j < i ==> enums@[j].name@ != expr.enum_name@,
        decreases enums.len() - i,
    {
        if enums[i].name == expr.enum_name {
            return match find_variant(&enums[i], expr.variant.as_str()) {
                Ok(t) => Ok((i, t)),
                Err(e) => Err(e),
            };
        }
        i += 1;
    }
    let mut m: Vec<char> = Vec::new();
    push_str(&mut m, "Unknown enum: ");
    push_str(&mut m, expr.enum_name.as_str());
    Err(global_error(m))
}

// ---------------------------------------------------------------------------
// Match exhaustiveness
// ---------------------------------------------------------------------------

/// The enum named by the first variant pattern among `arms`.
pub open spec fn first_pattern_enum(arms: Seq<MatchArm>) -> Option<Seq<char>>
    decreases arms.len(),
{
    if arms.len() == 0 {
        None
    } else {
        match arms[0].pattern {
            Pattern::Variant { enum_name, .. } => Some(enum_name@),
            Pattern::Wildcard => first_pattern_enum(arms.drop_first()),
        }
    }
}

pub fn match_pattern_enum(arms: &[MatchArm]) -> (r: Option<&str>)
    ensures
        match r {
            Some(s) => first_pattern_enum(arms@) == Some(s@),
            None => first_pattern_enum(arms@).is_none(),
        },
{
    let mut i: usize = 0;
    assert(arms@.skip(0) =~= arms@);
    while i < arms.len()
        invariant
            0 <= i <= arms.len(),
            first_pattern_enum(arms@) == first_pattern_enum(arms@.skip(i as int)),
        decreases arms.len() - i,
    {
        assert(arms@.skip(i as int)[0] == arms@[i as int]);
        assert(arms@.skip(i as int).drop_first() =~= arms@.skip(i + 1));
        match &arms[i].pattern {
            Pattern::Variant { enum_name, .. } => {
                return Some(enum_name.as_str());
            },
            Pattern::Wildcard => {},
        }
        i += 1;
    }
    None
}

/// The enum named by the first variant pattern that does not name `name`.
pub open spec fn first_foreign(arms: Seq<MatchArm>, name: Seq<char>) -> Option<Seq<char>>
    decreases arms.len(),
{
    if arms.len() == 0 {
        None
    } else {
        match arms[0].pattern {
            Pattern::Variant { enum_name, .. } => if enum_name@ != name {
                Some(enum_name@)
            } else {
                first_foreign(arms.drop_first(), name)
            },
            Pattern::Wildcard => first_foreign(arms.drop_first(), name),
        }
    }
}

pub open spec fn foreign_text(arm_enum: Seq<char>, name: Seq<char>) -> Seq<char> {
    "Match arms use '"@ + arm_enum + "' but the scrutinee is '"@ + name + "'"@
}

/// Every variant arm must name the enum being matched.
pub open spec fn arm_names_check(arms: Seq<MatchArm>, name: Option<Seq<char>>) -> Result<(), Seq<char>> {
    match name {
        None => Ok(()),
        Some(n) => match first_foreign(arms, n) {
            None => Ok(()),
            Some(e) => Err(foreign_text(e, n)),
        },
    }
}

pub open spec fn err_text(r: Result<(), HuziError>) -> Result<(), Seq<char>> {
    match r {
        Ok(()) => Ok(()),
        Err(e) => Err(e.message@),
    }
}

pub open spec fn global(r: Result<(), HuziError>) -> bool {
    r matches Err(e) ==> e.line == 0 && e.column == 0
}

pub open spec fn shape_name(info: Option<&EnumShape>) -> Option<Seq<char>> {
    match info {
        Some(i) => Some(i.name@),
        None => None,
    }
}

pub fn check_arm_enum_names(arms: &[MatchArm], info: Option<&EnumShape>) -> (r: Result<(), HuziError>)
    ensures
        err_text(r) == arm_names_check(arms@, shape_name(info)),
        global(r),
{
    let shape = match info {
        None => {
            return Ok(());
        },
        Some(i) => i,
    };
    let ghost n = shape.name@;
    assert(shape_name(info) == Some(n));
    let mut i: usize = 0;
    assert(arms@.skip(0) =~= arms@);
    while i < arms.len()
        invariant
            0 <= i <= arms.len(),
            n == shape.name@,
            shape_name(info) == Some(n),
            first_foreign(arms@, n) == first_foreign(arms@.skip(i as int), n),
        decreases arms.len() - i,
    {
        assert(arms@.skip(i as int)[0] == arms@[i as int]);
        assert(arms@.skip(i as int).drop_first() =~= arms@.skip(i + 1));
        match &arms[i].pattern {
            Pattern::Variant { enum_name, .. } => {
                if !(*enum_name == shape.name) {
                    let mut m: Vec<char> = Vec::new();
                    push_str(&mut m, "Match arms use '");
                    push_str(&mut m, enum_name.as_str());
                    push_str(&mut m, "' but the scrutinee is '");
                    push_str(&mut m, shape.name.as_str());
                    push_str(&mut m, "'");
                    assert(first_foreign(arms@, n) == Some(enum_name@));
                    assert(m@ =~= foreign_text(enum_name@, n));
                    return Err(global_error(m));
                }
            },
            Pattern::Wildcard => {},
        }
        i += 1;
    }
    Ok(())
}

/// Whether some arm is the wildcard `_`.
pub open spec fn has_wildcard(arms: Seq<MatchArm>) -> bool {
    exists|j: int| 0 <= j < arms.len() && (#[trigger] arms[j]).pattern is Wildcard
}

/// Whether an arm's pattern is variant `v`.
pub open spec fn arm_is(a: MatchArm, v: Seq<char>) -> bool {
    match a.pattern {
        Pattern::Variant { variant, .. } => variant@ == v,
        Pattern::Wildcard => false,
    }
}

/// Whether some arm matches variant `v`.
pub open spec fn covers(arms: Seq<MatchArm>, v: Seq<char>) -> bool {
    exists|j: int| 0 <= j < arms.len() && #[trigger] arm_is(arms[j], v)
}

/// The variants of `vs` that no arm matches, in declaration order.
pub open spec fn uncovered(arms: Seq<MatchArm>, vs: Seq<Seq<char>>) -> Seq<Seq<char>>
    decreases vs.len(),
{
    if vs.len() == 0 {
        Seq::empty()
    } else if covers(arms, vs.last()) {
        uncovered(arms, vs.drop_last())
    } else {
        uncovered(arms, vs.drop_last()).push(vs.last())
    }
}

/// The variant named by the first arm whose variant `vs` does not declare.
pub open spec fn first_unknown(arms: Seq<MatchArm>, vs: Seq<Seq<char>>) -> Option<Seq<char>>
    decreases arms.len(),
{
    if arms.len() == 0 {
        None
    } else {
        match arms[0].pattern {
            Pattern::Variant { variant, .. } => if !vs.contains(variant@) {
                Some(variant@)
            } else {
                first_unknown(arms.drop_first(), vs)
            },
            Pattern::Wildcard => first_unknown(arms.drop_first(), vs),
        }
    }
}

pub open spec fn missing_text(name: Seq<char>, missing: Seq<Seq<char>>) -> Seq<char> {
    "Non-exhaustive match for enum '"@ + name + "': missing variants: "@ + join_comma(missing)
        + "\n  help: add arms for the missing variants or a wildcard arm `_`"@
}

/// The outcome of the exhaustiveness check: with a wildcard arm only the
/// enum names are checked; without one the scrutinee must be an enum, every
/// arm must name one of its variants, and every variant must have an arm.
pub open spec fn match_check(arms: Seq<MatchArm>, info: Option<(Seq<char>, Seq<Seq<char>>)>) -> Result<(), Seq<char>> {
    if has_wildcard(arms) {
        arm_names_check(
            arms,
            match info {
                Some((n, _)) => Some(n),
                None => None,
            },
        )
    } else {
        match info {
            None => Err("match must have a wildcard arm `_`"@),
            Some((name, vs)) => match arm_names_check(arms, Some(name)) {
                Err(e) => Err(e),
                Ok(()) => match first_unknown(arms, vs) {
                    Some(v) => Err(no_variant_text(name, v)),
                    None => if uncovered(arms, vs).len() == 0 {
                        Ok(())
                    } else {
                        Err(missing_text(name, uncovered(arms, vs)))
                    },
                },
            },
        }
    }
}

pub open spec fn shape_info(info: Option<&EnumShape>) -> Option<(Seq<char>, Seq<Seq<char>>)> {
    match info {
        Some(i) => Some((i.name@, views_of(i.variants@))),
        None => None,
    }
}

fn any_wildcard(arms: &[MatchArm]) -> (r: bool)
    ensures
        r == has_wildcard(arms@),
{
    let mut i: usize = 0;
    while i < arms.len()
        invariant
            0 <= i <= arms.len(),
            forall|j: int| 0 <= j < i ==> !((#[trigger] arms@[j]).pattern is Wildcard),
        decreases arms.len() - i,
    {
        if let Pattern::Wildcard = &arms[i].pattern {
            assert(arms@[i as int].pattern is Wildcard);
            return true;
        }
        i += 1;
    }
    false
}

fn arms_cover(arms: &[MatchArm], v: &String) -> (r: bool)
    ensures
        r == covers(arms@, v@),
{
    let mut i: usize = 0;
    while i < arms.len()
        invariant
            0 <= i <= arms.len(),
            forall|j: int| 0 <= j < i ==> !#[trigger] arm_is(arms@[j], v@),
        decreases arms.len() - i,
    {
        if let Pattern::Variant { variant, .. } = &arms[i].pattern {
            if *variant == *v {
                assert(arm_is(arms@[i as int], v@));
                return true;
            }
        }
        i += 1;
    }
    false
}

/// The variants `names` that no arm matches, in order.
fn uncovered_variants(arms: &[MatchArm], names: &Vec<String>) -> (r: Vec<String>)
    ensures
        views_of(r@) == uncovered(arms@, views_of(names@)),
{
    let ghost vs = views_of(names@);
    let mut out: Vec<String> = Vec::new();
    let mut i: usize = 0;
    assert(vs.take(0) =~= Seq::<Seq<char>>::empty());
    assert(views_of(out@) =~= Seq::<Seq<char>>::empty());
    while i < names.len()
        invariant
            0 <= i <= names.len(),
            vs == views_of(names@),
            views_of(out@) == uncovered(arms@, vs.take(i as int)),
        decreases names.len() - i,
    {
        let ghost t = vs.take(i + 1);
        assert(t.drop_last() =~= vs.take(i as int));
        assert(t.last() == names@[i as int]@);
        if !arms_cover(arms, &names[i]) {
            let ghost before = out@;
            out.push(names[i].clone());
            assert(views_of(out@) =~= views_of(before).push(names@[i as int]@));
        }
        i += 1;
    }
    assert(vs.take(names.len() as int) =~= vs);
    out
}

/// The first arm naming a variant `info` does not declare.
fn unknown_arm_variant(arms: &[MatchArm], info: &EnumShape) -> (r: Option<String>)
    ensures
        opt_text(r) == first_unknown(arms@, views_of(info.variants@)),
{
    let ghost vs = views_of(info.variants@);
    let mut i: usize = 0;
    assert(arms@.skip(0) =~= arms@);
    while i < arms.len()
        invariant
            0 <= i <= arms.len(),
            vs == views_of(info.variants@),
            first_unknown(arms@, vs) == first_unknown(arms@.skip(i as int), vs),
        decreases arms.len() - i,
    {
        assert(arms@.skip(i as int)[0] == arms@[i as int]);
        assert(arms@.skip(i as int).drop_first() =~= arms@.skip(i + 1));
        if let Pattern::Variant { variant, .. } = &arms[i].pattern {
            if find_variant(info, variant.as_str()).is_err() {
                return Some(variant.clone());
            }
        }
        i += 1;
    }
    None
}

/// Appends `items` separated by `", "`.
fn push_comma_joined(out: &mut Vec<char>, items: &Vec<String>)
    ensures
        final(out)@ == old(out)@ + join_comma(views_of(items@)),
{
    let ghost start = out@;
    let ghost vs = views_of(items@);
    let mut i: usize = 0;
    assert(vs.take(0) =~= Seq::<Seq<char>>::empty());
    assert(out@ =~= start + join_comma(vs.take(0)));
    while i < items.len()
        invariant
            0 <= i <= items.len(),
            vs == views_of(items@),
            out@ == start + join_comma(vs.take(i as int)),
        decreases items.len() - i,
    {
        let ghost t = vs.take(i + 1);
        assert(t.drop_last() =~= vs.take(i as int));
        assert(t.last() == items@[i as int]@);
        if i > 0 {
            push_str(out, ", ");
        }
        push_str(out, items[i].as_str());
        proof {
            if i == 0 {
                assert(t =~= seq![items@[0]@]);
                assert(join_comma(vs.take(0)) =~= Seq::<char>::empty());
            }
        }
        assert(out@ =~= start + join_comma(t));
        i += 1;
    }
    assert(vs.take(items.len() as int) =~= vs);
}

/// A `match` must cover its scrutinee: a wildcard arm covers everything;
/// otherwise the scrutinee must be a declared enum (`info`), every arm must
/// name one of its variants, and every variant must have an arm. No
/// spelling suggestion is appended to the unknown-variant message.
pub fn check_match_exhaustiveness(arms: &[MatchArm], info: Option<&EnumShape>) -> (r: Result<(), HuziError>)
    ensures
        err_text(r) == match_check(arms@, shape_info(info)),
        global(r),
{
    if any_wildcard(arms) {
        return check_arm_enum_names(arms, info);
    }
    let info = match info {
        None => {
            let mut m: Vec<char> = Vec::new();
            push_str(&mut m, "match must have a wildcard arm `_`");
            return Err(global_error(m));
        },
        Some(i) => i,
    };
    match check_arm_enum_names(arms, Some(info)) {
        Err(e) => {
            return Err(e);
        },
        Ok(()) => {},
    }
    match unknown_arm_variant(arms, info) {
        Some(v) => {
            let mut m: Vec<char> = Vec::new();
            push_str(&mut m, "Enum '");
            push_str(&mut m, info.name.as_str());
            push_str(&mut m, "' has no variant '");
            push_str(&mut m, v.as_str());
            push_str(&mut m, "'");
            return Err(global_error(m));
        },
        None => {},
    }
    let missing = uncovered_variants(arms, &info.variants);
    if missing.len() == 0 {
        return Ok(());
    }
    let mut m: Vec<char> = Vec::new();
    push_str(&mut m, "Non-exhaustive match for enum '");
    push_str(&mut m, info.name.as_str());
    push_str(&mut m, "': missing variants: ");
    push_comma_joined(&mut m, &missing);
    push_str(&mut m, "\n  help: add arms for the missing variants or a wildcard arm `_`");
    Err(global_error(m))
}

proof fn lemma_uncovered_empty(arms: Seq<MatchArm>, vs: Seq<Seq<char>>)
    requires
        uncovered(arms, vs).len() == 0,
    ensures
        forall|i: int| 0 <= i < vs.len() ==> covers(arms, #[trigger] vs[i]),
    decreases vs.len(),
{
    if vs.len() > 0 {
        let d = vs.drop_last();
        if !covers(arms, vs.last()) {
            assert(uncovered(arms, vs).len() == uncovered(arms, d).len() + 1);
        }
        lemma_uncovered_empty(arms, d);
        assert forall|i: int| 0 <= i < vs.len() implies covers(arms, #[trigger] vs[i]) by {
            if i < vs.len() - 1 {
                assert(vs[i] == d[i]);
            }
        }
    }
}

/// A `match` the check accepts without a wildcard arm has an arm for every
/// variant of the enum it matches, and names no other variant.
pub proof fn law_accepted_match_is_exhaustive(
    arms: Seq<MatchArm>,
    name: Seq<char>,
    variants: Seq<Seq<char>>,
)
    requires
        !has_wildcard(arms),
        match_check(arms, Some((name, variants))) is Ok,
    ensures
        forall|i: int| 0 <= i < variants.len() ==> covers(arms, #[trigger] variants[i]),
        first_unknown(arms, variants).is_none(),
{
    lemma_uncovered_empty(arms, variants);
}

} // verus!
