//! Name mangling for monomorphization: a type becomes an identifier-safe
//! string, and a generic name with type arguments becomes one symbol name.
use crate::ast::{type_text, Type};
use crate::text::{dec_digits, push_decimal, push_str, string_of};
use vstd::prelude::*;

verus! {

/// The identifier-safe spelling of a type.
pub open spec fn mangle_text(t: Type) -> Seq<char>
    decreases t,
{
    match t {
        Type::I32 => "i32"@,
        Type::I64 => "i64"@,
        Type::U32 => "u32"@,
        Type::U64 => "u64"@,
        Type::F32 => "f32"@,
        Type::F64 => "f64"@,
        Type::Bool => "bool"@,
        Type::Str => "str"@,
        Type::Char => "char"@,
        Type::Unit => "unit"@,
        Type::Named(s) => s@,
        Type::Generic(s) => s@,
        Type::Box(inner) => "Box__"@ + mangle_text(*inner),
        Type::Applied(name, args) => name@ + "__"@ + mangles_text(args@),
        Type::Array(elem, n) => "arr__"@ + mangle_text(*elem) + "_"@ + dec_digits(n as nat),
        Type::Tuple(elems) => "tuple__"@ + mangles_text(elems@),
    }
}

/// Mangled types joined with `_`.
pub open spec fn mangles_text(ts: Seq<Type>) -> Seq<char>
    decreases ts,
{
    if ts.len() == 0 {
        Seq::empty()
    } else if ts.len() == 1 {
        mangle_text(ts[0])
    } else {
        mangles_text(ts.drop_last()) + "_"@ + mangle_text(ts.last())
    }
}

/// The symbol name of `base` instantiated at `type_args`.
pub open spec fn mangle_name_text(base: Seq<char>, type_args: Seq<Type>) -> Seq<char> {
    if type_args.len() == 0 {
        base
    } else {
        base + "__"@ + mangles_text(type_args)
    }
}

/// The scalar types: those written with a keyword.
pub open spec fn is_scalar(t: Type) -> bool {
    match t {
        Type::I32 | Type::I64 | Type::U32 | Type::U64 | Type::F32 | Type::F64 | Type::Bool
        | Type::Str | Type::Char | Type::Unit => true,
        _ => false,
    }
}

/// Scalar types mangle to their own keywords (`()` to `unit`), so two
/// scalar types give the same spelling, and the same instantiated symbol
/// name, only when they are the same type.
pub proof fn law_scalar_mangling(base: Seq<char>, t: Type, u: Type)
    requires
        is_scalar(t),
        is_scalar(u),
    ensures
        !(t is Unit) ==> mangle_text(t) == type_text(t),
        t is Unit ==> mangle_text(t) == "unit"@,
        mangle_text(t) == mangle_text(u) <==> t == u,
        mangle_name_text(base, seq![t]) == mangle_name_text(base, seq![u]) <==> t == u,
{
    reveal_strlit("i32");
    reveal_strlit("i64");
    reveal_strlit("u32");
    reveal_strlit("u64");
    reveal_strlit("f32");
    reveal_strlit("f64");
    reveal_strlit("bool");
    reveal_strlit("str");
    reveal_strlit("char");
    reveal_strlit("unit");
    reveal_strlit("__");
    assert(mangles_text(seq![t]) == mangle_text(t));
    assert(mangles_text(seq![u]) == mangle_text(u));
    let pre = base + "__"@;
    if mangle_name_text(base, seq![t]) == mangle_name_text(base, seq![u]) {
        assert(mangle_text(t) =~= (pre + mangle_text(t)).skip(pre.len() as int));
        assert(mangle_text(u) =~= (pre + mangle_text(u)).skip(pre.len() as int));
        assert(pre + mangle_text(t) == mangle_name_text(base, seq![t]));
    }
    if mangle_text(t) == mangle_text(u) && t != u {
        let a = mangle_text(t);
        let b = mangle_text(u);
        assert(a.len() == b.len());
        assert(a[0] == b[0]);
        assert(a[1] == b[1]);
        assert(a[a.len() - 1] == b[b.len() - 1]);
    }
}

fn push_mangled(out: &mut Vec<char>, t: &Type)
    ensures
        final(out)@ == old(out)@ + mangle_text(*t),
    decreases t,
{
    match t {
        Type::I32 => push_str(out, "i32"),
        Type::I64 => push_str(out, "i64"),
        Type::U32 => push_str(out, "u32"),
        Type::U64 => push_str(out, "u64"),
        Type::F32 => push_str(out, "f32"),
        Type::F64 => push_str(out, "f64"),
        Type::Bool => push_str(out, "bool"),
        Type::Str => push_str(out, "str"),
        Type::Char => push_str(out, "char"),
        Type::Unit => push_str(out, "unit"),
        Type::Named(s) => push_str(out, s.as_str()),
        Type::Generic(s) => push_str(out, s.as_str()),
        Type::Box(inner) => {
            push_str(out, "Box__");
            push_mangled(out, inner);
            assert(final(out)@ =~= old(out)@ + mangle_text(*t));
        },
        Type::Applied(name, args) => {
            push_str(out, name.as_str());
            push_str(out, "__");
            push_mangled_list(out, args);
            assert(final(out)@ =~= old(out)@ + mangle_text(*t));
        },
        Type::Array(elem, n) => {
            push_str(out, "arr__");
            push_mangled(out, elem);
            push_str(out, "_");
            push_decimal(out, *n as u64);
            assert(final(out)@ =~= old(out)@ + mangle_text(*t));
        },
        Type::Tuple(elems) => {
            push_str(out, "tuple__");
            push_mangled_list(out, elems);
            assert(final(out)@ =~= old(out)@ + mangle_text(*t));
        },
    }
}

fn push_mangled_list(out: &mut Vec<char>, ts: &Vec<Type>)
    ensures
        final(out)@ == old(out)@ + mangles_text(ts@),
    decreases ts,
{
    let mut i: usize = 0;
    assert(ts@.take(0) =~= Seq::<Type>::empty());
    while i < ts.len()
        invariant
            0 <= i <= ts.len(),
            out@ == old(out)@ + mangles_text(ts@.take(i as int)),
        decreases ts.len() - i,
    {
        assert(ts@.take(i + 1).drop_last() =~= ts@.take(i as int));
        assert(ts@.take(i + 1).last() == ts@[i as int]);
        if i > 0 {
            push_str(out, "_");
        }
        proof {
            assert(decreases_to!(ts => ts@[i as int]));
        }
        push_mangled(out, &ts[i]);
        proof {
            if i == 0 {
                assert(ts@.take(1) =~= seq![ts@[0]]);
            }
        }
        assert(out@ =~= old(out)@ + mangles_text(ts@.take(i + 1)));
        i += 1;
    }
    assert(ts@.take(ts.len() as int) =~= ts@);
}

/// The identifier-safe spelling of a type, such as `Box__i32` or
/// `arr__i32_4`.
pub fn mangle_type(ty: &Type) -> (r: String)
    ensures
        r@ == mangle_text(*ty),
{
    let mut out: Vec<char> = Vec::new();
    push_mangled(&mut out, ty);
    string_of(out.as_slice())
}

/// The monomorphized symbol name: `base` alone without type arguments,
/// else `base__` followed by the mangled arguments joined with `_`.
pub fn mangle_name(base: &str, type_args: &[Type]) -> (r: String)
    ensures
        r@ == mangle_name_text(base@, type_args@),
{
    let mut out: Vec<char> = Vec::new();
    push_str(&mut out, base);
    if type_args.len() > 0 {
        push_str(&mut out, "__");
        let ghost ts = type_args@;
        let ghost b = out@;
        let mut i: usize = 0;
        assert(ts.take(0) =~= Seq::<Type>::empty());
        while i < type_args.len()
            invariant
                0 <= i <= type_args.len(),
                ts == type_args@,
                out@ == b + mangles_text(ts.take(i as int)),
            decreases type_args.len() - i,
        {
            assert(ts.take(i + 1).drop_last() =~= ts.take(i as int));
            assert(ts.take(i + 1).last() == ts[i as int]);
            if i > 0 {
                push_str(&mut out, "_");
            }
            push_mangled(&mut out, &type_args[i]);
            proof {
                if i == 0 {
                    assert(ts.take(1) =~= seq![ts[0]]);
                }
            }
            assert(out@ =~= b + mangles_text(ts.take(i + 1)));
            i += 1;
        }
        assert(ts.take(type_args.len() as int) =~= ts);
    }
    assert(out@ =~= mangle_name_text(base@, type_args@));
    string_of(out.as_slice())
}

} // verus!
