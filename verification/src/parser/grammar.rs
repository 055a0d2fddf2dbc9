//! The token grammar of types, type parameters, parameters, imports and
//! patterns: where each form that starts at a position ends, and what it
//! holds, or that it does not parse there.
use super::token::{SpannedToken, Token, TokenKind};
use crate::ast::{Pattern, Type};
use vstd::prelude::*;

verus! {

/// The token at `p` has kind `k`.
pub open spec fn is_kind(ts: Seq<SpannedToken>, p: int, k: TokenKind) -> bool {
    0 <= p < ts.len() && ts[p].token.kind() == k
}

/// The token at `p` is `>`.
pub open spec fn is_kind_gt(ts: Seq<SpannedToken>, p: int) -> bool {
    is_kind(ts, p, TokenKind::Greater)
}

/// `p` is past the tokens or at `Eof`.
pub open spec fn at_end_at(ts: Seq<SpannedToken>, p: int) -> bool {
    p >= ts.len() || ts[p].token is Eof
}

/// The name of the identifier at `p`, if there is one.
pub open spec fn ident_at(ts: Seq<SpannedToken>, p: int) -> Option<Seq<char>> {
    if 0 <= p < ts.len() {
        match ts[p].token {
            Token::Ident(n) => Some(n@),
            _ => None,
        }
    } else {
        None
    }
}

/// A type as a value: each kind with its names and parts.
pub enum TypeV {
    I32,
    I64,
    U32,
    U64,
    F32,
    F64,
    Bool,
    Str,
    Char,
    Unit,
    Named(Seq<char>),
    Generic(Seq<char>),
    Boxed(Box<TypeV>),
    Applied(Seq<char>, Seq<TypeV>),
    Array(Box<TypeV>, usize),
    Tuple(Seq<TypeV>),
}

/// The value of a type.
pub open spec fn tv(t: Type) -> TypeV
    decreases t,
{
    match t {
        Type::I32 => TypeV::I32,
        Type::I64 => TypeV::I64,
        Type::U32 => TypeV::U32,
        Type::U64 => TypeV::U64,
        Type::F32 => TypeV::F32,
        Type::F64 => TypeV::F64,
        Type::Bool => TypeV::Bool,
        Type::Str => TypeV::Str,
        Type::Char => TypeV::Char,
        Type::Unit => TypeV::Unit,
        Type::Named(n) => TypeV::Named(n@),
        Type::Generic(n) => TypeV::Generic(n@),
        Type::Box(b) => TypeV::Boxed(Box::new(tv(*b))),
        Type::Applied(n, args) => TypeV::Applied(n@, tvs(args@)),
        Type::Array(b, n) => TypeV::Array(Box::new(tv(*b)), n),
        Type::Tuple(es) => TypeV::Tuple(tvs(es@)),
    }
}

/// The values of a sequence of types, in order.
pub open spec fn tvs(s: Seq<Type>) -> Seq<TypeV>
    decreases s,
{
    if s.len() == 0 {
        Seq::empty()
    } else {
        tvs(s.drop_last()).push(tv(s.last()))
    }
}

/// The values of types after a push: those before, then the new one.
pub proof fn lemma_tvs_push(s: Seq<Type>, x: Type)
    ensures
        tvs(s.push(x)) == tvs(s).push(tv(x)),
{
    assert(s.push(x).drop_last() =~= s);
}

/// The integer of the literal at `q` (zero where there is none).
pub open spec fn int_at(ts: Seq<SpannedToken>, q: int) -> i64 {
    if 0 <= q < ts.len() {
        match ts[q].token {
            Token::Int(n) => n,
            _ => 0,
        }
    } else {
        0
    }
}

/// A type starting at `p`: `[T; N]`, `()`, `(A, B, ..)`, `Box<Name>` or a
/// name; where it ends and the type it is.
pub open spec fn type_parse(ts: Seq<SpannedToken>, p: int) -> Option<(int, TypeV)>
    decreases ts.len() - p, 1int,
{
    if p < 0 || p >= ts.len() {
        None
    } else if is_kind(ts, p, TokenKind::LBracket) {
        match type_parse(ts, p + 1) {
            Some((e, t)) => if is_kind(ts, e, TokenKind::Semi) && is_kind(ts, e + 1, TokenKind::Int)
                && is_kind(ts, e + 2, TokenKind::RBracket) {
                Some((e + 3, TypeV::Array(Box::new(t), int_at(ts, e + 1) as usize)))
            } else {
                None
            },
            None => None,
        }
    } else if is_kind(ts, p, TokenKind::LParen) {
        if is_kind(ts, p + 1, TokenKind::RParen) {
            Some((p + 2, TypeV::Unit))
        } else {
            match type_parse(ts, p + 1) {
                Some((e, t)) => if p < e <= ts.len() {
                    match tuple_rest(ts, e, seq![t]) {
                        Some((f, ts2)) => Some((f, TypeV::Tuple(ts2))),
                        None => None,
                    }
                } else {
                    None
                },
                None => None,
            }
        }
    } else {
        match ident_at(ts, p) {
            Some(n) => if is_kind(ts, p + 1, TokenKind::Less) {
                if n == "Box"@ {
                    box_end(ts, p + 1)
                } else {
                    None
                }
            } else {
                Some((p + 1, TypeV::Named(n)))
            },
            None => None,
        }
    }
}

/// The rest of a tuple type after elements `acc`, the last ending at `q`:
/// more elements after commas, then `)`.
pub open spec fn tuple_rest(ts: Seq<SpannedToken>, q: int, acc: Seq<TypeV>) -> Option<(int, Seq<TypeV>)>
    decreases ts.len() - q, 0int,
{
    if q < 0 || q >= ts.len() {
        None
    } else if is_kind(ts, q, TokenKind::Comma) {
        match type_parse(ts, q + 1) {
            Some((e, t)) => if q < e <= ts.len() {
                tuple_rest(ts, e, acc.push(t))
            } else {
                None
            },
            None => None,
        }
    } else if is_kind(ts, q, TokenKind::RParen) {
        Some((q + 1, acc))
    } else {
        None
    }
}

/// `<Name>` of `Box<Name>`, starting at the `<` at `q`.
pub open spec fn box_end(ts: Seq<SpannedToken>, q: int) -> Option<(int, TypeV)>
    decreases ts.len() - q, 0int,
{
    if q < 0 || q >= ts.len() {
        None
    } else {
        match type_parse(ts, q + 1) {
            Some((e, t)) => if t is Named && is_kind(ts, e, TokenKind::Greater) {
                Some((e + 1, TypeV::Boxed(Box::new(t))))
            } else {
                None
            },
            _ => None,
        }
    }
}

/// The names of `<A, B, ..>` after a definition's name (none without
/// `<`); a name may not repeat and the list may not be empty.
pub open spec fn type_params_parse(ts: Seq<SpannedToken>, p: int) -> Option<(int, Seq<Seq<char>>)> {
    if !is_kind(ts, p, TokenKind::Less) {
        Some((p, Seq::empty()))
    } else if is_kind(ts, p + 1, TokenKind::Greater) {
        None
    } else {
        type_params_loop(ts, p + 1, Seq::empty())
    }
}

/// Type parameter names after `<`, up to and including `>`, after the
/// names `acc` already read.
pub open spec fn type_params_loop(ts: Seq<SpannedToken>, q: int, acc: Seq<Seq<char>>) -> Option<(int, Seq<Seq<char>>)>
    decreases ts.len() - q,
{
    if q < 0 || q >= ts.len() {
        None
    } else if is_kind(ts, q, TokenKind::Greater) {
        Some((q + 1, acc))
    } else if at_end_at(ts, q) {
        None
    } else {
        match ident_at(ts, q) {
            Some(n) => if acc.contains(n) {
                None
            } else if is_kind(ts, q + 1, TokenKind::Comma) {
                type_params_loop(ts, q + 2, acc.push(n))
            } else if is_kind(ts, q + 1, TokenKind::Greater) {
                Some((q + 2, acc.push(n)))
            } else {
                None
            },
            None => None,
        }
    }
}

/// `name: Type` pairs separated by commas up to `)` or the end (neither
/// consumed); the names and types in order after `acc`.
pub open spec fn params_loop(ts: Seq<SpannedToken>, q: int, acc: Seq<(Seq<char>, TypeV)>) -> Option<
    (int, Seq<(Seq<char>, TypeV)>),
>
    decreases ts.len() - q,
{
    if q < 0 || q >= ts.len() {
        None
    } else if is_kind(ts, q, TokenKind::RParen) || at_end_at(ts, q) {
        Some((q, acc))
    } else {
        match ident_at(ts, q) {
            Some(n) => if is_kind(ts, q + 1, TokenKind::Colon) {
                match type_parse(ts, q + 2) {
                    Some((e, t)) => if is_kind(ts, e, TokenKind::Comma) {
                        if e > q {
                            params_loop(ts, e + 1, acc.push((n, t)))
                        } else {
                            None
                        }
                    } else {
                        Some((e, acc.push((n, t))))
                    },
                    None => None,
                }
            } else {
                None
            },
            None => None,
        }
    }
}


/// `import a.b::c` starting at the `import` token at `p`; the module name
/// with its segments joined by `.`.
pub open spec fn import_parse(ts: Seq<SpannedToken>, p: int) -> Option<(int, Seq<char>)> {
    let q = if at_end_at(ts, p) {
        p
    } else {
        p + 1
    };
    match ident_at(ts, q) {
        Some(n) => import_rest(ts, q + 1, n),
        None => None,
    }
}

/// More `.name` or `::name` segments from `q`, joined onto `name`.
pub open spec fn import_rest(ts: Seq<SpannedToken>, q: int, name: Seq<char>) -> Option<(int, Seq<char>)>
    decreases ts.len() - q,
{
    if q < 0 || q >= ts.len() {
        None
    } else if is_kind(ts, q, TokenKind::Dot) || is_kind(ts, q, TokenKind::PathSep) {
        match ident_at(ts, q + 1) {
            Some(s) => import_rest(ts, q + 2, name + "."@ + s),
            None => None,
        }
    } else {
        Some((q, name))
    }
}

/// `export a::b` or `export a::*` starting at the `export` token at `p`:
/// where it ends, the path (segments joined by `::`) and whether it ends
/// in `*`.
pub open spec fn export_parse(ts: Seq<SpannedToken>, p: int) -> Option<(int, Seq<char>, bool)> {
    let q = if at_end_at(ts, p) {
        p
    } else {
        p + 1
    };
    match ident_at(ts, q) {
        Some(n) => export_rest(ts, q + 1, n),
        None => None,
    }
}

/// More `::name` segments of an export path from `q`, or a final `::*`.
pub open spec fn export_rest(ts: Seq<SpannedToken>, q: int, path: Seq<char>) -> Option<
    (int, Seq<char>, bool),
>
    decreases ts.len() - q,
{
    if q < 0 || q >= ts.len() {
        None
    } else if is_kind(ts, q, TokenKind::PathSep) {
        if is_kind(ts, q + 1, TokenKind::Star) {
            Some((q + 2, path, true))
        } else {
            match ident_at(ts, q + 1) {
                Some(s) => export_rest(ts, q + 2, path + "::"@ + s),
                None => None,
            }
        }
    } else {
        Some((q, path, false))
    }
}

/// A pattern as values.
pub enum PatView {
    Wild,
    Variant(Seq<char>, Seq<char>, Seq<Seq<char>>),
}

/// A pattern's names as values.
pub open spec fn pat_view(p: Pattern) -> PatView {
    match p {
        Pattern::Wildcard => PatView::Wild,
        Pattern::Variant { enum_name, variant, bindings } => PatView::Variant(
            enum_name@,
            variant@,
            bindings@.map_values(|b: String| b@),
        ),
    }
}

/// A pattern at `p`: `_`, `Enum::Variant` or `Enum::Variant(a, b, ..)`.
#[verifier::opaque]
pub open spec fn pattern_parse(ts: Seq<SpannedToken>, p: int) -> Option<(int, PatView)> {
    match ident_at(ts, p) {
        Some(n) => if n == "_"@ {
            Some((p + 1, PatView::Wild))
        } else if is_kind(ts, p + 1, TokenKind::PathSep) {
            match ident_at(ts, p + 2) {
                Some(v) => if is_kind(ts, p + 3, TokenKind::LParen) {
                    if is_kind(ts, p + 4, TokenKind::RParen) {
                        Some((p + 5, PatView::Variant(n, v, Seq::empty())))
                    } else {
                        match bindings_loop(ts, p + 4, Seq::empty()) {
                            Some((e, bs)) => Some((e, PatView::Variant(n, v, bs))),
                            None => None,
                        }
                    }
                } else {
                    Some((p + 3, PatView::Variant(n, v, Seq::empty())))
                },
                None => None,
            }
        } else {
            None
        },
        None => None,
    }
}

/// Binding names separated by commas, then `)`.
pub open spec fn bindings_loop(ts: Seq<SpannedToken>, q: int, acc: Seq<Seq<char>>) -> Option<(int, Seq<Seq<char>>)>
    decreases ts.len() - q,
{
    if q < 0 || q >= ts.len() {
        None
    } else {
        match ident_at(ts, q) {
            Some(b) => if is_kind(ts, q + 1, TokenKind::Comma) {
                bindings_loop(ts, q + 2, acc.push(b))
            } else if is_kind(ts, q + 1, TokenKind::RParen) {
                Some((q + 2, acc.push(b)))
            } else {
                None
            },
            None => None,
        }
    }
}

/// `<T>()` after `vec`, with the `<` at `p`: `Some(Some((end, T)))` when
/// it is there in full, `Some(None)` when it is not an empty-vector form at
/// all, `None` when arguments follow the `(`.
#[verifier::opaque]
pub open spec fn vec_empty_parse(ts: Seq<SpannedToken>, p: int) -> Option<Option<(int, TypeV)>> {
    match type_parse(ts, p + 1) {
        Some((e, t)) => if !is_kind(ts, e, TokenKind::Greater) || !is_kind(
            ts,
            e + 1,
            TokenKind::LParen,
        ) {
            Some(None)
        } else if is_kind(ts, e + 2, TokenKind::RParen) {
            Some(Some((e + 3, t)))
        } else {
            None
        },
        None => Some(None),
    }
}

/// Type arguments `<A, B, ..>` at `p`: where the closing `>` ends and the
/// types (at least one).
#[verifier::opaque]
pub open spec fn generic_head(ts: Seq<SpannedToken>, p: int) -> Option<(int, Seq<TypeV>)> {
    if !is_kind(ts, p, TokenKind::Less) {
        None
    } else {
        generic_loop(ts, p + 1, Seq::empty())
    }
}

/// Type arguments from `q` up to and including `>`, after the types `n`
/// already read.
pub open spec fn generic_loop(ts: Seq<SpannedToken>, q: int, n: Seq<TypeV>) -> Option<(int, Seq<TypeV>)>
    decreases ts.len() - q,
{
    if q < 0 || q >= ts.len() {
        None
    } else if is_kind(ts, q, TokenKind::Greater) || at_end_at(ts, q) {
        if n.len() > 0 && is_kind(ts, q, TokenKind::Greater) {
            Some((q + 1, n))
        } else {
            None
        }
    } else {
        match type_parse(ts, q) {
            Some((e, t)) => if is_kind(ts, e, TokenKind::Comma) {
                if e >= q {
                    generic_loop(ts, e + 1, n.push(t))
                } else {
                    None
                }
            } else if is_kind(ts, e, TokenKind::Greater) {
                Some((e + 1, n.push(t)))
            } else {
                None
            },
            None => None,
        }
    }
}

} // verus!
