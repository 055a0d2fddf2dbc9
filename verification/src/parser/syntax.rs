//! The token grammar of expressions and statements: where each form that
//! starts at a position ends and the syntax tree it gives, or that it does
//! not parse there. `d` is whether the parse stands inside a `defer`
//! (where `return` is refused).
use super::expr::int_text;
use super::grammar::{
    at_end_at, export_parse, generic_head, ident_at, import_parse, is_kind, params_loop,
    pattern_parse, type_params_parse, type_parse, vec_empty_parse, PatView, TypeV,
};
use super::token::{SpannedToken, Token, TokenKind};
use super::tree::{bv, ev, evs, fldvs, sv, ExprV, FnV, ForV, LitV, SigV, StmtV};
use crate::ast::{BinOp, Block, Expr, Span, Stmt, UnOp};
use crate::render::HuziError;
use vstd::prelude::*;

verus! {

/// The position after one `advance` from `p`.
pub open spec fn nx(ts: Seq<SpannedToken>, p: int) -> int {
    if at_end_at(ts, p) {
        p
    } else {
        p + 1
    }
}

/// The trees of the targets `x = ...` accepts.
pub open spec fn assignable_v(t: ExprV) -> bool {
    t is Ident || t is ArrayIndex || t is FieldAccess
}

/// An expression parse agrees with the grammar `g`: it succeeds exactly
/// where the form parses, stops where it ends and builds its tree.
pub open spec fn expr_agrees(g: Option<(int, ExprV)>, r: Result<Expr, HuziError>, end: int) -> bool {
    match g {
        Some((e, t)) => r matches Ok(x) && end == e && ev(x) == t,
        None => r is Err,
    }
}

/// A statement parse agrees with the grammar `g`.
pub open spec fn stmt_agrees(g: Option<(int, StmtV)>, r: Result<Stmt, HuziError>, end: int) -> bool {
    match g {
        Some((e, t)) => r matches Ok(x) && end == e && sv(x) == t,
        None => r is Err,
    }
}

/// A block parse agrees with the grammar `g`.
pub open spec fn block_agrees(
    g: Option<(int, Seq<(Span, StmtV)>)>,
    r: Result<Block, HuziError>,
    end: int,
) -> bool {
    match g {
        Some((e, t)) => r matches Ok(x) && end == e && bv(x) == t,
        None => r is Err,
    }
}

/// A parse of a list of expressions agrees with the grammar `g`.
pub open spec fn exprs_agrees(
    g: Option<(int, Seq<ExprV>)>,
    r: Result<Vec<Expr>, HuziError>,
    end: int,
) -> bool {
    match g {
        Some((e, t)) => r matches Ok(x) && end == e && evs(x@) == t,
        None => r is Err,
    }
}

/// `n + 1`, saturating at the top.
pub open spec fn sat1(n: usize) -> usize {
    if n == usize::MAX {
        n
    } else {
        (n + 1) as usize
    }
}

/// The span of the token at `q`, as one point.
pub open spec fn point_span(ts: Seq<SpannedToken>, q: int) -> Span {
    Span { line: ts[q].line, column: ts[q].column, end_line: ts[q].line, end_column: ts[q].column }
}

/// Where a statement that started at `line`/`column` ends once the parse
/// stands at `e`: one column past the token before `e`, or one column past
/// the start when that would come before it.
pub open spec fn span_end(ts: Seq<SpannedToken>, e: int, line: usize, column: usize) -> (usize, usize) {
    let prev = ts[e - 1];
    if prev.line == usize::MAX || prev.line < line || (prev.line == line && sat1(prev.column)
        < column) {
        (line, sat1(column))
    } else {
        (prev.line, sat1(prev.column))
    }
}

/// The span of a statement from the token at `s` to the one before `e`.
pub open spec fn stmt_span(ts: Seq<SpannedToken>, s: int, e: int) -> Span {
    let end = span_end(ts, e, ts[s].line, ts[s].column);
    Span { line: ts[s].line, column: ts[s].column, end_line: end.0, end_column: end.1 }
}

/// The binary operator a token spells.
pub open spec fn binop_of(k: TokenKind) -> BinOp {
    match k {
        TokenKind::BarBar => BinOp::Or,
        TokenKind::AmpAmp => BinOp::And,
        TokenKind::EqualEqual => BinOp::Eq,
        TokenKind::BangEqual => BinOp::Neq,
        TokenKind::Less => BinOp::Lt,
        TokenKind::LessEqual => BinOp::Le,
        TokenKind::Greater => BinOp::Gt,
        TokenKind::GreaterEqual => BinOp::Ge,
        TokenKind::Plus => BinOp::Add,
        TokenKind::Minus => BinOp::Sub,
        TokenKind::Star => BinOp::Mul,
        TokenKind::Slash => BinOp::Div,
        _ => BinOp::Mod,
    }
}

/// The binary operators of precedence level `lvl` (19 `||` down to 14
/// `* / %`).
pub open spec fn is_op(lvl: int, k: TokenKind) -> bool {
    if lvl == 19 {
        k == TokenKind::BarBar
    } else if lvl == 18 {
        k == TokenKind::AmpAmp
    } else if lvl == 17 {
        k == TokenKind::EqualEqual || k == TokenKind::BangEqual
    } else if lvl == 16 {
        k == TokenKind::Less || k == TokenKind::LessEqual || k == TokenKind::Greater || k
            == TokenKind::GreaterEqual
    } else if lvl == 15 {
        k == TokenKind::Plus || k == TokenKind::Minus
    } else {
        k == TokenKind::Star || k == TokenKind::Slash || k == TokenKind::Percent
    }
}

/// The token at `q` is an operator of level `lvl`.
pub open spec fn op_at(ts: Seq<SpannedToken>, q: int, lvl: int) -> bool {
    0 <= q < ts.len() && is_op(lvl, ts[q].token.kind())
}

/// A token that can start an expression.
pub open spec fn expr_start_at(ts: Seq<SpannedToken>, q: int) -> bool {
    0 <= q < ts.len() && match ts[q].token {
        Token::True | Token::False | Token::Int(_) | Token::Float(_) | Token::String(_)
        | Token::Char(_) | Token::Ident(_) | Token::LParen | Token::LBracket | Token::If
        | Token::Match | Token::Bang | Token::Minus => true,
        _ => false,
    }
}

/// `a::b::c` from the first name at `r`: where the path ends and its
/// segments joined by `::`.
pub open spec fn path_end(ts: Seq<SpannedToken>, r: int) -> Option<(int, Seq<char>)> {
    match ident_at(ts, r) {
        Some(n) => path_more(ts, r + 1, n),
        None => None,
    }
}

/// More `::name` segments from `s`, joined onto `acc`.
pub open spec fn path_more(ts: Seq<SpannedToken>, s: int, acc: Seq<char>) -> Option<(int, Seq<char>)>
    decreases ts.len() - s,
{
    if is_kind(ts, s, TokenKind::PathSep) {
        match ident_at(ts, s + 1) {
            Some(m) => path_more(ts, s + 2, acc + "::"@ + m),
            None => None,
        }
    } else {
        Some((s, acc))
    }
}

/// `name: Type` pairs of a function's parameter list, commas optional,
/// up to `)` (not consumed), after the parameters `acc`.
pub open spec fn fn_params_loop(ts: Seq<SpannedToken>, s: int, acc: Seq<(Seq<char>, TypeV)>) -> Option<
    (int, Seq<(Seq<char>, TypeV)>),
>
    decreases ts.len() - s,
{
    if s < 0 || s >= ts.len() {
        None
    } else if is_kind(ts, s, TokenKind::RParen) {
        Some((s, acc))
    } else {
        match ident_at(ts, s) {
            Some(n) => if is_kind(ts, s + 1, TokenKind::Colon) {
                match type_parse(ts, s + 2) {
                    Some((e, t)) => if s < e <= ts.len() {
                        if is_kind(ts, e, TokenKind::Comma) {
                            fn_params_loop(ts, e + 1, acc.push((n, t)))
                        } else {
                            fn_params_loop(ts, e, acc.push((n, t)))
                        }
                    } else {
                        None
                    },
                    None => None,
                }
            } else {
                None
            },
            None => None,
        }
    }
}

/// The optional `self` of a method after `(` at `t`: where what follows it
/// starts, and `Some` of its written type (if any) when it is there.
pub open spec fn self_part(ts: Seq<SpannedToken>, t: int) -> Option<(int, Option<Option<TypeV>>)> {
    if ident_at(ts, t) == Some("self"@) {
        let a = t + 1;
        let b: Option<(int, Option<TypeV>)> = if is_kind(ts, a, TokenKind::Colon) {
            match type_parse(ts, a + 1) {
                Some((e, ty)) => Some((e, Some(ty))),
                None => None,
            }
        } else {
            Some((a, None))
        };
        match b {
            Some((b, ty)) => Some(
                (
                    if is_kind(ts, b, TokenKind::Comma) {
                        b + 1
                    } else {
                        b
                    },
                    Some(ty),
                ),
            ),
            None => None,
        }
    } else {
        Some((t, None))
    }
}

/// The parameters of a trait or impl method after `(` at `t`: where the `)`
/// stands, the `self` part and the other parameters.
pub open spec fn method_params(ts: Seq<SpannedToken>, t: int) -> Option<
    (int, Option<Option<TypeV>>, Seq<(Seq<char>, TypeV)>),
> {
    if is_kind(ts, t, TokenKind::RParen) {
        Some((t, None, Seq::empty()))
    } else {
        match self_part(ts, t) {
            Some((t1, slf)) => match params_loop(ts, t1, Seq::empty()) {
                Some((u, ps)) => Some((u, slf, ps)),
                None => None,
            },
            None => None,
        }
    }
}

/// `fn name(params) [-> Type]` of a trait or impl method starting at `s`:
/// where the signature ends, the name, the `self` part, the parameters and
/// the return type.
pub open spec fn method_sig(ts: Seq<SpannedToken>, s: int) -> Option<
    (int, Seq<char>, Option<Option<TypeV>>, Seq<(Seq<char>, TypeV)>, Option<TypeV>),
> {
    if is_kind(ts, s, TokenKind::Fn) && ident_at(ts, s + 1) is Some && is_kind(
        ts,
        s + 2,
        TokenKind::LParen,
    ) {
        let name = ident_at(ts, s + 1).unwrap();
        match method_params(ts, s + 3) {
            Some((u, slf, ps)) => if is_kind(ts, u, TokenKind::RParen) {
                if is_kind(ts, u + 1, TokenKind::Arrow) {
                    match type_parse(ts, u + 2) {
                        Some((v, rt)) => Some((v, name, slf, ps, Some(rt))),
                        None => None,
                    }
                } else {
                    Some((u + 1, name, slf, ps, None))
                }
            } else {
                None
            },
            None => None,
        }
    } else {
        None
    }
}

/// The methods of a trait after `{`, up to `}`, after those in `acc`.
pub open spec fn trait_rest(ts: Seq<SpannedToken>, s: int, acc: Seq<SigV>) -> Option<(int, Seq<SigV>)>
    decreases ts.len() - s,
{
    if s < 0 || s >= ts.len() {
        None
    } else if is_kind(ts, s, TokenKind::RBrace) {
        Some((s + 1, acc))
    } else if at_end_at(ts, s) {
        None
    } else {
        match method_sig(ts, s) {
            Some((v, name, slf, ps, rt)) => {
                let w = if is_kind(ts, v, TokenKind::Semi) {
                    v + 1
                } else {
                    v
                };
                if s < w <= ts.len() {
                    trait_rest(
                        ts,
                        w,
                        acc.push(SigV { name, has_self: slf is Some, params: ps, ret: rt }),
                    )
                } else {
                    None
                }
            },
            None => None,
        }
    }
}

/// `trait Name { ... }` at `p`.
pub open spec fn trait_p(ts: Seq<SpannedToken>, p: int) -> Option<(int, StmtV)> {
    let q = nx(ts, p);
    if ident_at(ts, q) is Some && is_kind(ts, q + 1, TokenKind::LBrace) {
        match trait_rest(ts, q + 2, Seq::empty()) {
            Some((e, ms)) => Some((e, StmtV::Trait(ident_at(ts, q).unwrap(), ms))),
            None => None,
        }
    } else {
        None
    }
}

/// `struct Name<T> { field: Type, ... }` at `p`.
pub open spec fn struct_p(ts: Seq<SpannedToken>, p: int) -> Option<(int, StmtV)> {
    let q = nx(ts, p);
    match ident_at(ts, q) {
        Some(n) => match type_params_parse(ts, q + 1) {
            Some((e, tps)) => if is_kind(ts, e, TokenKind::LBrace) {
                match sfields_rest(ts, e + 1, Seq::empty()) {
                    Some((f, fs)) => Some((f, StmtV::Struct(n, tps, fs))),
                    None => None,
                }
            } else {
                None
            },
            None => None,
        },
        None => None,
    }
}

/// Struct fields `name: Type` after `{`, up to and including `}`, after
/// those in `acc`.
pub open spec fn sfields_rest(ts: Seq<SpannedToken>, s: int, acc: Seq<(Seq<char>, TypeV)>) -> Option<
    (int, Seq<(Seq<char>, TypeV)>),
>
    decreases ts.len() - s,
{
    if s < 0 || s >= ts.len() {
        None
    } else if is_kind(ts, s, TokenKind::RBrace) {
        Some((s + 1, acc))
    } else if at_end_at(ts, s) {
        None
    } else if ident_at(ts, s) is Some && is_kind(ts, s + 1, TokenKind::Colon) {
        match type_parse(ts, s + 2) {
            Some((e, t)) => if s < e <= ts.len() {
                let acc2 = acc.push((ident_at(ts, s).unwrap(), t));
                if is_kind(ts, e, TokenKind::Comma) {
                    sfields_rest(ts, e + 1, acc2)
                } else if is_kind(ts, e, TokenKind::RBrace) {
                    Some((e + 1, acc2))
                } else {
                    None
                }
            } else {
                None
            },
            None => None,
        }
    } else {
        None
    }
}

/// `enum Name { A, B(T, U), ... }` at `p`.
pub open spec fn enum_def_p(ts: Seq<SpannedToken>, p: int) -> Option<(int, StmtV)> {
    let q = nx(ts, p);
    if ident_at(ts, q) is Some && is_kind(ts, q + 1, TokenKind::LBrace) {
        match variants_rest(ts, q + 2, Seq::empty()) {
            Some((e, vs)) => Some((e, StmtV::Enum(ident_at(ts, q).unwrap(), vs))),
            None => None,
        }
    } else {
        None
    }
}

/// Enum variants after `{`, up to and including `}`, after those in `acc`.
pub open spec fn variants_rest(ts: Seq<SpannedToken>, s: int, acc: Seq<(Seq<char>, Seq<TypeV>)>) -> Option<
    (int, Seq<(Seq<char>, Seq<TypeV>)>),
>
    decreases ts.len() - s,
{
    if s < 0 || s >= ts.len() {
        None
    } else if is_kind(ts, s, TokenKind::RBrace) {
        Some((s + 1, acc))
    } else if at_end_at(ts, s) {
        None
    } else if ident_at(ts, s) is Some {
        let v: Option<(int, Seq<TypeV>)> = if is_kind(ts, s + 1, TokenKind::LParen) {
            if is_kind(ts, s + 2, TokenKind::RParen) {
                Some((s + 3, Seq::empty()))
            } else {
                payloads_rest(ts, s + 2, Seq::empty())
            }
        } else {
            Some((s + 1, Seq::empty()))
        };
        match v {
            Some((e, pl)) => if s < e <= ts.len() {
                let acc2 = acc.push((ident_at(ts, s).unwrap(), pl));
                if is_kind(ts, e, TokenKind::Comma) {
                    variants_rest(ts, e + 1, acc2)
                } else if is_kind(ts, e, TokenKind::RBrace) {
                    Some((e + 1, acc2))
                } else {
                    None
                }
            } else {
                None
            },
            None => None,
        }
    } else {
        None
    }
}

/// Payload types separated by commas, then `)`, after those in `acc`.
pub open spec fn payloads_rest(ts: Seq<SpannedToken>, s: int, acc: Seq<TypeV>) -> Option<
    (int, Seq<TypeV>),
>
    decreases ts.len() - s,
{
    if s < 0 || s >= ts.len() {
        None
    } else {
        match type_parse(ts, s) {
            Some((e, t)) => if s < e <= ts.len() {
                if is_kind(ts, e, TokenKind::Comma) {
                    payloads_rest(ts, e + 1, acc.push(t))
                } else if is_kind(ts, e, TokenKind::RParen) {
                    Some((e + 1, acc.push(t)))
                } else {
                    None
                }
            } else {
                None
            },
            None => None,
        }
    }
}

/// An expression at `p`: where it ends and its tree.
pub closed spec fn expr_p(ts: Seq<SpannedToken>, p: int, d: bool) -> Option<(int, ExprV)>
    decreases ts.len() - p, 20int,
{
    if p < 0 || p >= ts.len() {
        None
    } else {
        match bin_p(ts, p, d, 19) {
            Some((e, a)) => if is_kind(ts, e, TokenKind::Equal) {
                if assignable_v(a) && p < e {
                    match expr_p(ts, e + 1, d) {
                        Some((f, v)) => Some((f, ExprV::Assign(Box::new(a), Box::new(v)))),
                        None => None,
                    }
                } else {
                    None
                }
            } else {
                Some((e, a))
            },
            None => None,
        }
    }
}

/// Operands of level `lvl` joined by its operators, left to right.
pub open spec fn bin_p(ts: Seq<SpannedToken>, p: int, d: bool, lvl: int) -> Option<(int, ExprV)>
    decreases ts.len() - p, lvl,
{
    if p < 0 || p >= ts.len() || lvl < 14 || lvl > 19 {
        None
    } else {
        let first = if lvl == 14 {
            unary_p(ts, p, d)
        } else {
            bin_p(ts, p, d, lvl - 1)
        };
        match first {
            Some((e, a)) => if p < e <= ts.len() {
                bin_rest(ts, e, d, lvl, a)
            } else {
                None
            },
            None => None,
        }
    }
}

/// Further operators of level `lvl` and their operands after an operand
/// ending at `q`; `a` is the tree so far.
pub open spec fn bin_rest(ts: Seq<SpannedToken>, q: int, d: bool, lvl: int, a: ExprV) -> Option<
    (int, ExprV),
>
    decreases ts.len() - q, lvl,
{
    if q < 0 || q >= ts.len() || lvl < 14 || lvl > 19 {
        None
    } else if op_at(ts, q, lvl) {
        let next = if lvl == 14 {
            unary_p(ts, q + 1, d)
        } else {
            bin_p(ts, q + 1, d, lvl - 1)
        };
        match next {
            Some((f, b)) => if q < f <= ts.len() {
                bin_rest(
                    ts,
                    f,
                    d,
                    lvl,
                    ExprV::Binary(Box::new(a), binop_of(ts[q].token.kind()), Box::new(b)),
                )
            } else {
                None
            },
            None => None,
        }
    } else {
        Some((q, a))
    }
}

/// A comparison takes the operator its token spells: after the left
/// operand `a`, a `<`, `<=`, `>` or `>=` at `q` followed by a right operand
/// `b` gives `a < b`, `a <= b`, `a > b` or `a >= b` before any further
/// comparison; distinct comparison tokens give distinct operators.
pub proof fn law_comparison_operator(ts: Seq<SpannedToken>, q: int, d: bool, a: ExprV)
    requires
        op_at(ts, q, 16),
    ensures
        ({
            let k = ts[q].token.kind();
            let op = binop_of(k);
            &&& k == TokenKind::Less ==> op == BinOp::Lt
            &&& k == TokenKind::LessEqual ==> op == BinOp::Le
            &&& k == TokenKind::Greater ==> op == BinOp::Gt
            &&& k == TokenKind::GreaterEqual ==> op == BinOp::Ge
            &&& bin_rest(ts, q, d, 16, a) == match bin_p(ts, q + 1, d, 15) {
                Some((f, b)) => if q < f <= ts.len() {
                    bin_rest(ts, f, d, 16, ExprV::Binary(Box::new(a), op, Box::new(b)))
                } else {
                    None
                },
                None => None,
            }
        }),
        forall|k1: TokenKind, k2: TokenKind|
            is_op(16, k1) && is_op(16, k2) && k1 != k2 ==> binop_of(k1) != binop_of(k2),
{
}

/// Every binary operator takes the operator its token spells, at every
/// precedence level: after the left operand `a`, the operator token at `q`
/// and the right operand `b` give `a op b` before any further operator of
/// that level; distinct operator tokens give distinct operators.
pub proof fn law_binary_operator(ts: Seq<SpannedToken>, q: int, d: bool, lvl: int, a: ExprV)
    requires
        14 <= lvl <= 19,
        op_at(ts, q, lvl),
    ensures
        ({
            let k = ts[q].token.kind();
            let op = binop_of(k);
            &&& k == TokenKind::BarBar ==> op == BinOp::Or
            &&& k == TokenKind::AmpAmp ==> op == BinOp::And
            &&& k == TokenKind::EqualEqual ==> op == BinOp::Eq
            &&& k == TokenKind::BangEqual ==> op == BinOp::Neq
            &&& k == TokenKind::Less ==> op == BinOp::Lt
            &&& k == TokenKind::LessEqual ==> op == BinOp::Le
            &&& k == TokenKind::Greater ==> op == BinOp::Gt
            &&& k == TokenKind::GreaterEqual ==> op == BinOp::Ge
            &&& k == TokenKind::Plus ==> op == BinOp::Add
            &&& k == TokenKind::Minus ==> op == BinOp::Sub
            &&& k == TokenKind::Star ==> op == BinOp::Mul
            &&& k == TokenKind::Slash ==> op == BinOp::Div
            &&& k == TokenKind::Percent ==> op == BinOp::Mod
            &&& bin_rest(ts, q, d, lvl, a) == match (if lvl == 14 {
                unary_p(ts, q + 1, d)
            } else {
                bin_p(ts, q + 1, d, lvl - 1)
            }) {
                Some((f, b)) => if q < f <= ts.len() {
                    bin_rest(ts, f, d, lvl, ExprV::Binary(Box::new(a), op, Box::new(b)))
                } else {
                    None
                },
                None => None,
            }
        }),
        forall|k1: TokenKind, k2: TokenKind, l1: int, l2: int|
            14 <= l1 <= 19 && 14 <= l2 <= 19 && is_op(l1, k1) && is_op(l2, k2) && k1 != k2
                ==> binop_of(k1) != binop_of(k2),
{
}

/// `!x`, `-x` or a postfix expression.
pub open spec fn unary_p(ts: Seq<SpannedToken>, p: int, d: bool) -> Option<(int, ExprV)>
    decreases ts.len() - p, 13int,
{
    if p < 0 || p >= ts.len() {
        None
    } else if is_kind(ts, p, TokenKind::Bang) || is_kind(ts, p, TokenKind::Minus) {
        match unary_p(ts, p + 1, d) {
            Some((e, x)) => Some(
                (
                    e,
                    ExprV::Unary(
                        if is_kind(ts, p, TokenKind::Bang) {
                            UnOp::Not
                        } else {
                            UnOp::Neg
                        },
                        Box::new(x),
                    ),
                ),
            ),
            None => None,
        }
    } else {
        call_p(ts, p, d)
    }
}

/// A primary expression followed by postfix forms.
pub closed spec fn call_p(ts: Seq<SpannedToken>, p: int, d: bool) -> Option<(int, ExprV)>
    decreases ts.len() - p, 12int,
{
    if p < 0 || p >= ts.len() {
        None
    } else {
        match primary_p(ts, p, d) {
            Some((e, a)) => if p < e <= ts.len() {
                post_rest(ts, e, d, a)
            } else {
                None
            },
            None => None,
        }
    }
}

/// Postfix forms after an expression `a` ending at `q`: `[i]`, `.f`, `.0`,
/// `.m(..)`, `(..)`, `?`.
pub closed spec fn post_rest(ts: Seq<SpannedToken>, q: int, d: bool, a: ExprV) -> Option<(int, ExprV)>
    decreases ts.len() - q, 12int,
{
    if q < 0 || q >= ts.len() {
        None
    } else if is_kind(ts, q, TokenKind::LBracket) {
        match expr_p(ts, q + 1, d) {
            Some((e, i)) => if q < e && is_kind(ts, e, TokenKind::RBracket) {
                post_rest(ts, e + 1, d, ExprV::ArrayIndex(Box::new(a), Box::new(i)))
            } else {
                None
            },
            None => None,
        }
    } else if is_kind(ts, q, TokenKind::Dot) {
        if is_kind(ts, q + 1, TokenKind::Int) {
            post_rest(
                ts,
                q + 2,
                d,
                ExprV::FieldAccess(Box::new(a), int_text(super::grammar::int_at(ts, q + 1))),
            )
        } else if ident_at(ts, q + 1) is Some {
            let n = ident_at(ts, q + 1).unwrap();
            if is_kind(ts, q + 2, TokenKind::LParen) {
                match args_p(ts, q + 3, d, Seq::empty()) {
                    Some((f, args)) => if q < f <= ts.len() {
                        post_rest(ts, f, d, ExprV::MethodCall(Box::new(a), n, args))
                    } else {
                        None
                    },
                    None => None,
                }
            } else {
                post_rest(ts, q + 2, d, ExprV::FieldAccess(Box::new(a), n))
            }
        } else {
            None
        }
    } else if is_kind(ts, q, TokenKind::LParen) {
        match args_p(ts, q + 1, d, Seq::empty()) {
            Some((f, args)) => if q < f <= ts.len() {
                post_rest(ts, f, d, ExprV::Call(Box::new(a), args, Seq::empty()))
            } else {
                None
            },
            None => None,
        }
    } else if is_kind(ts, q, TokenKind::Question) {
        post_rest(ts, q + 1, d, ExprV::Try(Box::new(a)))
    } else {
        Some((q, a))
    }
}

/// Arguments after `(` up to and including `)`, commas optional, after
/// those in `acc`.
pub closed spec fn args_p(ts: Seq<SpannedToken>, s: int, d: bool, acc: Seq<ExprV>) -> Option<
    (int, Seq<ExprV>),
>
    decreases ts.len() - s, 21int,
{
    if s < 0 || s >= ts.len() {
        None
    } else if is_kind(ts, s, TokenKind::RParen) {
        Some((s + 1, acc))
    } else if at_end_at(ts, s) {
        None
    } else {
        match expr_p(ts, s, d) {
            Some((e, x)) => if s < e < ts.len() {
                if is_kind(ts, e, TokenKind::Comma) {
                    args_p(ts, e + 1, d, acc.push(x))
                } else {
                    args_p(ts, e, d, acc.push(x))
                }
            } else {
                None
            },
            None => None,
        }
    }
}

/// A primary expression: a literal, a name and the forms that start with
/// one, `(..)`, `[..]`, `if` or `match`.
pub closed spec fn primary_p(ts: Seq<SpannedToken>, p: int, d: bool) -> Option<(int, ExprV)>
    decreases ts.len() - p, 11int,
{
    if p < 0 || p >= ts.len() {
        None
    } else {
        match ts[p].token {
            Token::True => Some((p + 1, ExprV::Lit(LitV::Bool(true)))),
            Token::False => Some((p + 1, ExprV::Lit(LitV::Bool(false)))),
            Token::Int(n) => Some((p + 1, ExprV::Lit(LitV::Int(n)))),
            Token::Float(x) => Some((p + 1, ExprV::Lit(LitV::Float(x@)))),
            Token::String(x) => Some((p + 1, ExprV::Lit(LitV::Str(x@)))),
            Token::Char(c) => Some((p + 1, ExprV::Lit(LitV::Char(c)))),
            Token::Ident(name) => {
                let q = p + 1;
                let n = name@;
                if n == "box"@ && is_kind(ts, q, TokenKind::LParen) {
                    box_p(ts, q, d)
                } else if n == "null"@ {
                    Some((q, ExprV::Null))
                } else {
                    let v = if n == "vec"@ && is_kind(ts, q, TokenKind::Less) {
                        vec_empty_parse(ts, q)
                    } else {
                        Some(None)
                    };
                    match v {
                        None => None,
                        Some(Some((e, t))) => Some((e, ExprV::VecEmpty(t))),
                        Some(None) => {
                            let g = if is_kind(ts, q, TokenKind::Less) {
                                generic_p(ts, q, d, n)
                            } else {
                                Some(None)
                            };
                            match g {
                                None => None,
                                Some(Some(r)) => Some(r),
                                Some(None) => if is_kind(ts, q, TokenKind::PathSep) {
                                    match path_end(ts, q + 1) {
                                        Some((e, var)) => if is_kind(ts, e, TokenKind::LParen) {
                                            if p < e {
                                                match args_p(ts, e + 1, d, Seq::empty()) {
                                                    Some((f, args)) => Some(
                                                        (f, ExprV::EnumConstruct(n, var, args)),
                                                    ),
                                                    None => None,
                                                }
                                            } else {
                                                None
                                            }
                                        } else {
                                            Some((e, ExprV::EnumConstruct(n, var, Seq::empty())))
                                        },
                                        None => None,
                                    }
                                } else if is_kind(ts, q, TokenKind::LBrace) && is_kind(
                                    ts,
                                    q + 1,
                                    TokenKind::Ident,
                                ) && is_kind(ts, q + 2, TokenKind::Colon) {
                                    match fields_p(ts, q, d) {
                                        Some((e, fs)) => Some(
                                            (e, ExprV::StructLiteral(n, fs, Seq::empty())),
                                        ),
                                        None => None,
                                    }
                                } else {
                                    Some((q, ExprV::Ident(n)))
                                },
                            }
                        },
                    }
                }
            },
            Token::LParen => paren_p(ts, p + 1, d),
            Token::LBracket => if is_kind(ts, p + 1, TokenKind::RBracket) {
                Some((p + 2, ExprV::ArrayLiteral(Seq::empty())))
            } else {
                match elems_p(ts, p + 1, d, Seq::empty()) {
                    Some((e, xs)) => Some((e, ExprV::ArrayLiteral(xs))),
                    None => None,
                }
            },
            Token::If => if_expr_p(ts, p, d),
            Token::Match => match_p(ts, p, d),
            _ => None,
        }
    }
}

/// Array literal elements up to and including `]`, after those in `acc`.
pub open spec fn elems_p(ts: Seq<SpannedToken>, s: int, d: bool, acc: Seq<ExprV>) -> Option<
    (int, Seq<ExprV>),
>
    decreases ts.len() - s, 21int,
{
    if s < 0 || s >= ts.len() {
        None
    } else {
        match expr_p(ts, s, d) {
            Some((e, x)) => if s < e < ts.len() {
                if is_kind(ts, e, TokenKind::Comma) {
                    elems_p(ts, e + 1, d, acc.push(x))
                } else if is_kind(ts, e, TokenKind::RBracket) {
                    Some((e + 1, acc.push(x)))
                } else {
                    None
                }
            } else {
                None
            },
            None => None,
        }
    }
}

/// After `(`: a parenthesised expression (its own tree) or a tuple
/// literal.
pub open spec fn paren_p(ts: Seq<SpannedToken>, s: int, d: bool) -> Option<(int, ExprV)>
    decreases ts.len() - s, 21int,
{
    if s < 0 || s >= ts.len() {
        None
    } else {
        match expr_p(ts, s, d) {
            Some((e, x)) => if s < e < ts.len() {
                if is_kind(ts, e, TokenKind::Comma) {
                    tuple_more(ts, e, d, seq![x])
                } else if is_kind(ts, e, TokenKind::RParen) {
                    Some((e + 1, x))
                } else {
                    None
                }
            } else {
                None
            },
            None => None,
        }
    }
}

/// More tuple elements after commas, up to and including `)`, after those
/// in `acc`.
pub open spec fn tuple_more(ts: Seq<SpannedToken>, q: int, d: bool, acc: Seq<ExprV>) -> Option<
    (int, ExprV),
>
    decreases ts.len() - q, 21int,
{
    if q < 0 || q >= ts.len() {
        None
    } else if is_kind(ts, q, TokenKind::Comma) {
        match expr_p(ts, q + 1, d) {
            Some((e, x)) => if q < e < ts.len() {
                tuple_more(ts, e, d, acc.push(x))
            } else {
                None
            },
            None => None,
        }
    } else if is_kind(ts, q, TokenKind::RParen) {
        Some((q + 1, ExprV::TupleLiteral(acc)))
    } else {
        None
    }
}

/// `box(expr)` with the `(` at `q`.
pub open spec fn box_p(ts: Seq<SpannedToken>, q: int, d: bool) -> Option<(int, ExprV)>
    decreases ts.len() - q, 10int,
{
    if q < 0 || q >= ts.len() || !is_kind(ts, q, TokenKind::LParen) {
        None
    } else {
        match expr_p(ts, q + 1, d) {
            Some((e, x)) => if is_kind(ts, e, TokenKind::RParen) {
                Some((e + 1, ExprV::BoxAlloc(Box::new(x))))
            } else {
                None
            },
            None => None,
        }
    }
}

/// `<T, ..>(args)` or `<T, ..> { f: v, .. }` after the name `n`, with the
/// `<` at `q`: `Some(Some((end, tree)))` when it is there, `Some(None)`
/// when the form is not a generic use at all, `None` on an error after the
/// type arguments.
pub open spec fn generic_p(ts: Seq<SpannedToken>, q: int, d: bool, n: Seq<char>) -> Option<
    Option<(int, ExprV)>,
>
    decreases ts.len() - q, 10int,
{
    if q < 0 || q >= ts.len() {
        None
    } else {
        match generic_head(ts, q) {
            None => Some(None),
            Some((e, targs)) => if is_kind(ts, e, TokenKind::LParen) {
                if q < e {
                    match args_p(ts, e + 1, d, Seq::empty()) {
                        Some((f, args)) => Some(
                            Some((f, ExprV::Call(Box::new(ExprV::Ident(n)), args, targs))),
                        ),
                        None => None,
                    }
                } else {
                    None
                }
            } else if is_kind(ts, e, TokenKind::LBrace) && is_kind(ts, e + 1, TokenKind::Ident)
                && is_kind(ts, e + 2, TokenKind::Colon) {
                if q < e {
                    match fields_p(ts, e, d) {
                        Some((f, fs)) => Some(Some((f, ExprV::StructLiteral(n, fs, targs)))),
                        None => None,
                    }
                } else {
                    None
                }
            } else {
                Some(None)
            },
        }
    }
}

/// `{ field: expr, .. }` with the `{` at `q`: where it ends and the fields.
pub open spec fn fields_p(ts: Seq<SpannedToken>, q: int, d: bool) -> Option<
    (int, Seq<(Seq<char>, ExprV)>),
>
    decreases ts.len() - q, 8int,
{
    if q < 0 || q >= ts.len() || !is_kind(ts, q, TokenKind::LBrace) {
        None
    } else {
        fields_rest(ts, q + 1, d, Seq::empty())
    }
}

/// Fields `name: expr` after `{`, up to and including `}`, after those in
/// `acc`.
pub open spec fn fields_rest(ts: Seq<SpannedToken>, s: int, d: bool, acc: Seq<(Seq<char>, ExprV)>) -> Option<
    (int, Seq<(Seq<char>, ExprV)>),
>
    decreases ts.len() - s, 8int,
{
    if s < 0 || s >= ts.len() {
        None
    } else if is_kind(ts, s, TokenKind::RBrace) {
        Some((s + 1, acc))
    } else if at_end_at(ts, s) {
        None
    } else if ident_at(ts, s) is Some && is_kind(ts, s + 1, TokenKind::Colon) {
        match expr_p(ts, s + 2, d) {
            Some((e, x)) => if s < e {
                let acc2 = acc.push((ident_at(ts, s).unwrap(), x));
                if is_kind(ts, e, TokenKind::Comma) {
                    fields_rest(ts, e + 1, d, acc2)
                } else if is_kind(ts, e, TokenKind::RBrace) {
                    Some((e + 1, acc2))
                } else {
                    None
                }
            } else {
                None
            },
            None => None,
        }
    } else {
        None
    }
}

/// A block holding one expression statement with the point span of the
/// token at `q`.
pub open spec fn expr_block_v(ts: Seq<SpannedToken>, q: int, x: ExprV) -> Seq<(Span, StmtV)> {
    seq![(point_span(ts, q), StmtV::Expr(x))]
}

/// `if cond { .. } else { .. }` (or `else if ..`) at `p`.
pub open spec fn if_expr_p(ts: Seq<SpannedToken>, p: int, d: bool) -> Option<(int, ExprV)>
    decreases ts.len() - p, 10int,
{
    if p < 0 || p >= ts.len() {
        None
    } else {
        match expr_p(ts, p + 1, d) {
            Some((e, c)) => if p < e <= ts.len() {
                match block_p(ts, e, d) {
                    Some((f, th)) => if e < f && is_kind(ts, f, TokenKind::Else) {
                        if is_kind(ts, f + 1, TokenKind::If) {
                            match if_expr_p(ts, f + 1, d) {
                                Some((g, nested)) => Some(
                                    (
                                        g,
                                        ExprV::If(
                                            Box::new(c),
                                            th,
                                            expr_block_v(ts, f + 1, nested),
                                        ),
                                    ),
                                ),
                                None => None,
                            }
                        } else {
                            match block_p(ts, f + 1, d) {
                                Some((g, el)) => Some((g, ExprV::If(Box::new(c), th, el))),
                                None => None,
                            }
                        }
                    } else {
                        None
                    },
                    None => None,
                }
            } else {
                None
            },
            None => None,
        }
    }
}

/// `match scrutinee { pattern => body, .. }` at `p`.
pub open spec fn match_p(ts: Seq<SpannedToken>, p: int, d: bool) -> Option<(int, ExprV)>
    decreases ts.len() - p, 10int,
{
    if p < 0 || p >= ts.len() {
        None
    } else {
        match expr_p(ts, p + 1, d) {
            Some((e, sc)) => if p < e && is_kind(ts, e, TokenKind::LBrace) {
                match arms_rest(ts, e + 1, d, Seq::empty()) {
                    Some((f, arms)) => Some((f, ExprV::Match(Box::new(sc), arms))),
                    None => None,
                }
            } else {
                None
            },
            None => None,
        }
    }
}

/// Match arms after `{`, up to and including `}`, after those in `acc`.
pub open spec fn arms_rest(
    ts: Seq<SpannedToken>,
    s: int,
    d: bool,
    acc: Seq<(PatView, Seq<(Span, StmtV)>)>,
) -> Option<(int, Seq<(PatView, Seq<(Span, StmtV)>)>)>
    decreases ts.len() - s, 10int,
{
    if s < 0 || s >= ts.len() {
        None
    } else if is_kind(ts, s, TokenKind::RBrace) {
        Some((s + 1, acc))
    } else if at_end_at(ts, s) {
        None
    } else {
        match pattern_parse(ts, s) {
            Some((e, pv)) => if s < e && is_kind(ts, e, TokenKind::FatArrow) {
                let body = if is_kind(ts, e + 1, TokenKind::LBrace) {
                    block_p(ts, e + 1, d)
                } else {
                    match expr_p(ts, e + 1, d) {
                        Some((f, x)) => Some((f, expr_block_v(ts, e + 1, x))),
                        None => None,
                    }
                };
                match body {
                    Some((f, b)) => if e < f < ts.len() {
                        if is_kind(ts, f, TokenKind::Comma) {
                            arms_rest(ts, f + 1, d, acc.push((pv, b)))
                        } else {
                            arms_rest(ts, f, d, acc.push((pv, b)))
                        }
                    } else {
                        None
                    },
                    None => None,
                }
            } else {
                None
            },
            None => None,
        }
    }
}

/// `{ statement* }` at `p`: where it ends and its statements with spans.
pub closed spec fn block_p(ts: Seq<SpannedToken>, p: int, d: bool) -> Option<(int, Seq<(Span, StmtV)>)>
    decreases ts.len() - p, 27int,
{
    if p < 0 || p >= ts.len() || !is_kind(ts, p, TokenKind::LBrace) {
        None
    } else {
        block_rest(ts, p + 1, d, Seq::empty())
    }
}

/// Statements after `{`, up to and including `}`, after those in `acc`.
pub open spec fn block_rest(ts: Seq<SpannedToken>, s: int, d: bool, acc: Seq<(Span, StmtV)>) -> Option<
    (int, Seq<(Span, StmtV)>),
>
    decreases ts.len() - s, 31int,
{
    if s < 0 || s >= ts.len() {
        None
    } else if is_kind(ts, s, TokenKind::RBrace) {
        Some((s + 1, acc))
    } else if at_end_at(ts, s) {
        None
    } else {
        match stmt_p(ts, s, d) {
            Some((e, st)) => if s < e < ts.len() {
                block_rest(ts, e, d, acc.push((stmt_span(ts, s, e), st)))
            } else {
                None
            },
            None => None,
        }
    }
}

/// One statement at `p`, chosen by its first token.
pub closed spec fn stmt_p(ts: Seq<SpannedToken>, p: int, d: bool) -> Option<(int, StmtV)>
    decreases ts.len() - p, 29int,
{
    if p < 0 || p >= ts.len() {
        None
    } else if is_kind(ts, p, TokenKind::Let) {
        let q = nx(ts, p);
        let q2 = if is_kind(ts, q, TokenKind::Mut) {
            q + 1
        } else {
            q
        };
        match ident_at(ts, q2) {
            Some(n) => match let_type_end(ts, q2 + 1) {
                Some((r2, ty)) => match let_init(ts, p, r2, d) {
                    Some((e, v)) => Some(
                        (e, StmtV::Let(n, is_kind(ts, q, TokenKind::Mut), ty, v)),
                    ),
                    None => None,
                },
                None => None,
            },
            None => None,
        }
    } else if is_kind(ts, p, TokenKind::Struct) {
        struct_p(ts, p)
    } else if is_kind(ts, p, TokenKind::Enum) {
        enum_def_p(ts, p)
    } else if is_kind(ts, p, TokenKind::Fn) {
        fn_p(ts, p, d)
    } else if is_kind(ts, p, TokenKind::Import) {
        match import_parse(ts, p) {
            Some((e, name)) => Some((e, StmtV::Import(name))),
            None => None,
        }
    } else if is_kind(ts, p, TokenKind::Export) {
        match export_parse(ts, p) {
            Some((e, path, w)) => Some((e, StmtV::Export(path, w))),
            None => None,
        }
    } else if is_kind(ts, p, TokenKind::Return) {
        ret_p(ts, p, d)
    } else if is_kind(ts, p, TokenKind::Break) {
        Some((p + 1, StmtV::Break))
    } else if is_kind(ts, p, TokenKind::Continue) {
        Some((p + 1, StmtV::Continue))
    } else if is_kind(ts, p, TokenKind::If) {
        if_stmt_p(ts, p, d)
    } else if is_kind(ts, p, TokenKind::For) {
        for_p(ts, p, d)
    } else if is_kind(ts, p, TokenKind::While) {
        while_p(ts, p, d)
    } else if is_kind(ts, p, TokenKind::LBrace) {
        match block_p(ts, p, d) {
            Some((e, b)) => Some((e, StmtV::Block(b))),
            None => None,
        }
    } else {
        match expr_p(ts, p, d) {
            Some((e, x)) => Some((e, StmtV::Expr(x))),
            None => None,
        }
    }
}

/// `let [mut] name [: Type] [= expr]` at `p`.
pub open spec fn let_p(ts: Seq<SpannedToken>, p: int, d: bool) -> Option<(int, StmtV)> {
    if p < 0 || p >= ts.len() {
        None
    } else {
        let q = nx(ts, p);
        let q2 = if is_kind(ts, q, TokenKind::Mut) {
            q + 1
        } else {
            q
        };
        match ident_at(ts, q2) {
            Some(n) => match let_type_end(ts, q2 + 1) {
                Some((r2, ty)) => match let_init(ts, p, r2, d) {
                    Some((e, v)) => Some(
                        (e, StmtV::Let(n, is_kind(ts, q, TokenKind::Mut), ty, v)),
                    ),
                    None => None,
                },
                None => None,
            },
            None => None,
        }
    }
}

/// The optional initializer `= expr` of a `let` at `p` whose type part
/// ends at `r2`.
pub open spec fn let_init(ts: Seq<SpannedToken>, p: int, r2: int, d: bool) -> Option<
    (int, Option<ExprV>),
>
    decreases ts.len() - p, 27int,
{
    if is_kind(ts, r2, TokenKind::Equal) {
        if 0 <= p < r2 {
            match expr_p(ts, r2 + 1, d) {
                Some((e, x)) => Some((e, Some(x))),
                None => None,
            }
        } else {
            None
        }
    } else {
        Some((r2, None))
    }
}

/// The optional `: Type` from `r`: where it ends and the type.
#[verifier::opaque]
pub open spec fn let_type_end(ts: Seq<SpannedToken>, r: int) -> Option<(int, Option<TypeV>)> {
    if is_kind(ts, r, TokenKind::Colon) {
        match type_parse(ts, r + 1) {
            Some((e, t)) => Some((e, Some(t))),
            None => None,
        }
    } else {
        Some((r, None))
    }
}

/// `fn name<T>(params) [-> Type] { .. }` at `p`.
pub open spec fn fn_p(ts: Seq<SpannedToken>, p: int, d: bool) -> Option<(int, StmtV)>
    decreases ts.len() - p, 28int,
{
    let q = nx(ts, p);
    if p < 0 || p >= ts.len() || ident_at(ts, q) is None {
        None
    } else {
        match type_params_parse(ts, q + 1) {
            Some((e, tps)) => if is_kind(ts, e, TokenKind::LParen) {
                match fn_params_loop(ts, e + 1, Seq::empty()) {
                    Some((f, ps)) => {
                        let g: Option<(int, Option<TypeV>)> = if is_kind(
                            ts,
                            f + 1,
                            TokenKind::Arrow,
                        ) {
                            match type_parse(ts, f + 2) {
                                Some((g, t)) => Some((g, Some(t))),
                                None => None,
                            }
                        } else {
                            Some((f + 1, None))
                        };
                        match g {
                            Some((g, rt)) => if p < g <= ts.len() {
                                match block_p(ts, g, d) {
                                    Some((h, body)) => Some(
                                        (
                                            h,
                                            StmtV::Fn(
                                                FnV {
                                                    name: ident_at(ts, q).unwrap(),
                                                    type_params: tps,
                                                    params: ps,
                                                    ret: rt,
                                                    body,
                                                },
                                            ),
                                        ),
                                    ),
                                    None => None,
                                }
                            } else {
                                None
                            },
                            None => None,
                        }
                    },
                    None => None,
                }
            } else {
                None
            },
            None => None,
        }
    }
}

/// `return [expr]` at `p`; refused inside `defer`.
pub open spec fn ret_p(ts: Seq<SpannedToken>, p: int, d: bool) -> Option<(int, StmtV)>
    decreases ts.len() - p, 28int,
{
    if p < 0 || p >= ts.len() || d {
        None
    } else if expr_start_at(ts, p + 1) {
        match expr_p(ts, p + 1, d) {
            Some((e, x)) => Some((e, StmtV::Return(Some(x)))),
            None => None,
        }
    } else {
        Some((p + 1, StmtV::Return(None)))
    }
}

/// `if cond { .. } [elif cond { .. }]* [else { .. }]` at `p`.
pub open spec fn if_stmt_p(ts: Seq<SpannedToken>, p: int, d: bool) -> Option<(int, StmtV)>
    decreases ts.len() - p, 28int,
{
    if p < 0 || p >= ts.len() {
        None
    } else {
        match expr_p(ts, nx(ts, p), d) {
            Some((e, c)) => if p < e <= ts.len() {
                match block_p(ts, e, d) {
                    Some((f, th)) => if e < f <= ts.len() {
                        match elif_rest(ts, f, d, Seq::empty()) {
                            Some((g, elifs)) => if is_kind(ts, g, TokenKind::Else) {
                                if p < g {
                                    match block_p(ts, g + 1, d) {
                                        Some((h, el)) => Some(
                                            (h, StmtV::If(c, th, elifs, Some(el))),
                                        ),
                                        None => None,
                                    }
                                } else {
                                    None
                                }
                            } else {
                                Some((g, StmtV::If(c, th, elifs, None)))
                            },
                            None => None,
                        }
                    } else {
                        None
                    },
                    None => None,
                }
            } else {
                None
            },
            None => None,
        }
    }
}

/// `elif cond { .. }` branches from `s` after those in `acc`; where they
/// end.
pub open spec fn elif_rest(
    ts: Seq<SpannedToken>,
    s: int,
    d: bool,
    acc: Seq<(ExprV, Seq<(Span, StmtV)>)>,
) -> Option<(int, Seq<(ExprV, Seq<(Span, StmtV)>)>)>
    decreases ts.len() - s, 28int,
{
    if s < 0 || s >= ts.len() {
        None
    } else if is_kind(ts, s, TokenKind::Elif) {
        match expr_p(ts, s + 1, d) {
            Some((e, c)) => if s < e <= ts.len() {
                match block_p(ts, e, d) {
                    Some((f, b)) => if e < f <= ts.len() {
                        elif_rest(ts, f, d, acc.push((c, b)))
                    } else {
                        None
                    },
                    None => None,
                }
            } else {
                None
            },
            None => None,
        }
    } else {
        Some((s, acc))
    }
}

/// `for x in a..b { .. }` or `for x in array { .. }` at `p`.
pub open spec fn for_p(ts: Seq<SpannedToken>, p: int, d: bool) -> Option<(int, StmtV)>
    decreases ts.len() - p, 28int,
{
    let q = nx(ts, p);
    if p < 0 || p >= ts.len() || ident_at(ts, q) is None || !is_kind(ts, q + 1, TokenKind::In) {
        None
    } else {
        match expr_p(ts, q + 2, d) {
            Some((e, a)) => {
                let f: Option<(int, ForV)> = if is_kind(ts, e, TokenKind::DotDot) {
                    if p < e {
                        match expr_p(ts, e + 1, d) {
                            Some((f, b)) => Some((f, ForV::Range(a, b))),
                            None => None,
                        }
                    } else {
                        None
                    }
                } else {
                    Some((e, ForV::Array(a)))
                };
                match f {
                    Some((f, src)) => if p < f <= ts.len() {
                        match block_p(ts, f, d) {
                            Some((g, body)) => Some(
                                (g, StmtV::For(ident_at(ts, q).unwrap(), src, body)),
                            ),
                            None => None,
                        }
                    } else {
                        None
                    },
                    None => None,
                }
            },
            None => None,
        }
    }
}

/// `while cond { .. }` at `p`.
pub open spec fn while_p(ts: Seq<SpannedToken>, p: int, d: bool) -> Option<(int, StmtV)>
    decreases ts.len() - p, 28int,
{
    if p < 0 || p >= ts.len() {
        None
    } else {
        match expr_p(ts, nx(ts, p), d) {
            Some((e, c)) => if p < e <= ts.len() {
                match block_p(ts, e, d) {
                    Some((f, body)) => Some((f, StmtV::While(c, body))),
                    None => None,
                }
            } else {
                None
            },
            None => None,
        }
    }
}

/// The parameters an impl method gets from its `self` part: `self` with
/// its written type, or with the target type `tt`, or none.
pub open spec fn self_params(slf: Option<Option<TypeV>>, tt: Seq<char>) -> Seq<(Seq<char>, TypeV)> {
    match slf {
        Some(Some(t)) => seq![("self"@, t)],
        Some(None) => seq![("self"@, TypeV::Named(tt))],
        None => Seq::empty(),
    }
}

/// `impl Trait for Type { fn ..(..) [-> R] { .. } .. }` at `p`.
pub open spec fn impl_p(ts: Seq<SpannedToken>, p: int, d: bool) -> Option<(int, StmtV)>
    decreases ts.len() - p, 28int,
{
    let q = nx(ts, p);
    if p < 0 || p >= ts.len() {
        None
    } else if ident_at(ts, q) is Some && is_kind(ts, q + 1, TokenKind::For) && ident_at(
        ts,
        q + 2,
    ) is Some && is_kind(ts, q + 3, TokenKind::LBrace) {
        if p < q + 4 {
            let tt = ident_at(ts, q + 2).unwrap();
            match impl_rest(ts, q + 4, d, tt, Seq::empty()) {
                Some((e, fns)) => Some((e, StmtV::Impl(ident_at(ts, q).unwrap(), tt, fns))),
                None => None,
            }
        } else {
            None
        }
    } else {
        None
    }
}

/// The methods of an impl for the type `tt` after `{`, up to and
/// including `}`, after those in `acc`.
pub open spec fn impl_rest(ts: Seq<SpannedToken>, s: int, d: bool, tt: Seq<char>, acc: Seq<FnV>) -> Option<
    (int, Seq<FnV>),
>
    decreases ts.len() - s, 28int,
{
    if s < 0 || s >= ts.len() {
        None
    } else if is_kind(ts, s, TokenKind::RBrace) {
        Some((s + 1, acc))
    } else if at_end_at(ts, s) {
        None
    } else {
        match method_sig(ts, s) {
            Some((v, name, slf, ps, rt)) => if s < v <= ts.len() {
                match block_p(ts, v, d) {
                    Some((w, body)) => if v < w <= ts.len() {
                        impl_rest(
                            ts,
                            w,
                            d,
                            tt,
                            acc.push(
                                FnV {
                                    name,
                                    type_params: Seq::empty(),
                                    params: self_params(slf, tt) + ps,
                                    ret: rt,
                                    body,
                                },
                            ),
                        )
                    } else {
                        None
                    },
                    None => None,
                }
            } else {
                None
            },
            None => None,
        }
    }
}

/// `defer statement` at `p`, where `f` is whether it stands inside a
/// function: only there, and not inside another `defer`.
pub open spec fn defer_p(ts: Seq<SpannedToken>, p: int, f: bool, d: bool) -> Option<(int, StmtV)> {
    if f && !d {
        match stmt_p(ts, p + 1, true) {
            Some((e, st)) => Some((e, StmtV::Defer(Box::new((stmt_span(ts, p + 1, e), st))))),
            None => None,
        }
    } else {
        None
    }
}

/// The statements from `p` to the end, after those in `acc`, each with its
/// span; `None` when one does not parse.
pub open spec fn program_rest(ts: Seq<SpannedToken>, p: int, d: bool, acc: Seq<(Span, StmtV)>) -> Option<
    Seq<(Span, StmtV)>,
>
    decreases ts.len() - p,
{
    if p < 0 || p >= ts.len() || at_end_at(ts, p) {
        Some(acc)
    } else {
        match stmt_p(ts, p, d) {
            Some((e, st)) => if p < e <= ts.len() {
                program_rest(ts, e, d, acc.push((stmt_span(ts, p, e), st)))
            } else {
                None
            },
            None => None,
        }
    }
}

/// The program the tokens from `p` give, when every statement parses.
pub open spec fn program_tree(ts: Seq<SpannedToken>, p: int, d: bool) -> Option<Seq<(Span, StmtV)>> {
    program_rest(ts, p, d, Seq::empty())
}

/// `expr_p` one step unfolded.
pub proof fn lemma_expr_p(ts: Seq<SpannedToken>, p: int, d: bool)
    ensures
        expr_p(ts, p, d) == ({
        if p < 0 || p >= ts.len() {
            None
        } else {
            match bin_p(ts, p, d, 19) {
                Some((e, a)) => if is_kind(ts, e, TokenKind::Equal) {
                    if assignable_v(a) && p < e {
                        match expr_p(ts, e + 1, d) {
                            Some((f, v)) => Some((f, ExprV::Assign(Box::new(a), Box::new(v)))),
                            None => None,
                        }
                    } else {
                        None
                    }
                } else {
                    Some((e, a))
                },
                None => None,
            }
        }
        }),
{
}

/// `block_p` one step unfolded.
pub proof fn lemma_block_p(ts: Seq<SpannedToken>, p: int, d: bool)
    ensures
        block_p(ts, p, d) == ({
        if p < 0 || p >= ts.len() || !is_kind(ts, p, TokenKind::LBrace) {
            None
        } else {
            block_rest(ts, p + 1, d, Seq::empty())
        }
        }),
{
}

/// `stmt_p` one step unfolded.
pub proof fn lemma_stmt_p(ts: Seq<SpannedToken>, p: int, d: bool)
    ensures
        stmt_p(ts, p, d) == ({
        if p < 0 || p >= ts.len() {
            None
        } else if is_kind(ts, p, TokenKind::Let) {
            let q = nx(ts, p);
            let q2 = if is_kind(ts, q, TokenKind::Mut) {
                q + 1
            } else {
                q
            };
            match ident_at(ts, q2) {
                Some(n) => match let_type_end(ts, q2 + 1) {
                    Some((r2, ty)) => match let_init(ts, p, r2, d) {
                        Some((e, v)) => Some(
                            (e, StmtV::Let(n, is_kind(ts, q, TokenKind::Mut), ty, v)),
                        ),
                        None => None,
                    },
                    None => None,
                },
                None => None,
            }
        } else if is_kind(ts, p, TokenKind::Struct) {
            struct_p(ts, p)
        } else if is_kind(ts, p, TokenKind::Enum) {
            enum_def_p(ts, p)
        } else if is_kind(ts, p, TokenKind::Fn) {
            fn_p(ts, p, d)
        } else if is_kind(ts, p, TokenKind::Import) {
            match import_parse(ts, p) {
                Some((e, name)) => Some((e, StmtV::Import(name))),
                None => None,
            }
        } else if is_kind(ts, p, TokenKind::Export) {
            match export_parse(ts, p) {
                Some((e, path, w)) => Some((e, StmtV::Export(path, w))),
                None => None,
            }
        } else if is_kind(ts, p, TokenKind::Return) {
            ret_p(ts, p, d)
        } else if is_kind(ts, p, TokenKind::Break) {
            Some((p + 1, StmtV::Break))
        } else if is_kind(ts, p, TokenKind::Continue) {
            Some((p + 1, StmtV::Continue))
        } else if is_kind(ts, p, TokenKind::If) {
            if_stmt_p(ts, p, d)
        } else if is_kind(ts, p, TokenKind::For) {
            for_p(ts, p, d)
        } else if is_kind(ts, p, TokenKind::While) {
            while_p(ts, p, d)
        } else if is_kind(ts, p, TokenKind::LBrace) {
            match block_p(ts, p, d) {
                Some((e, b)) => Some((e, StmtV::Block(b))),
                None => None,
            }
        } else {
            match expr_p(ts, p, d) {
                Some((e, x)) => Some((e, StmtV::Expr(x))),
                None => None,
            }
        }
        }),
{
}

/// `call_p` one step unfolded.
pub proof fn lemma_call_p(ts: Seq<SpannedToken>, p: int, d: bool)
    ensures
        call_p(ts, p, d) == ({
        if p < 0 || p >= ts.len() {
            None
        } else {
            match primary_p(ts, p, d) {
                Some((e, a)) => if p < e <= ts.len() {
                    post_rest(ts, e, d, a)
                } else {
                    None
                },
                None => None,
            }
        }
        }),
{
}

/// `post_rest` one step unfolded.
pub proof fn lemma_post_rest(ts: Seq<SpannedToken>, q: int, d: bool, a: ExprV)
    ensures
        post_rest(ts, q, d, a) == ({
        if q < 0 || q >= ts.len() {
            None
        } else if is_kind(ts, q, TokenKind::LBracket) {
            match expr_p(ts, q + 1, d) {
                Some((e, i)) => if q < e && is_kind(ts, e, TokenKind::RBracket) {
                    post_rest(ts, e + 1, d, ExprV::ArrayIndex(Box::new(a), Box::new(i)))
                } else {
                    None
                },
                None => None,
            }
        } else if is_kind(ts, q, TokenKind::Dot) {
            if is_kind(ts, q + 1, TokenKind::Int) {
                post_rest(
                    ts,
                    q + 2,
                    d,
                    ExprV::FieldAccess(Box::new(a), int_text(super::grammar::int_at(ts, q + 1))),
                )
            } else if ident_at(ts, q + 1) is Some {
                let n = ident_at(ts, q + 1).unwrap();
                if is_kind(ts, q + 2, TokenKind::LParen) {
                    match args_p(ts, q + 3, d, Seq::empty()) {
                        Some((f, args)) => if q < f <= ts.len() {
                            post_rest(ts, f, d, ExprV::MethodCall(Box::new(a), n, args))
                        } else {
                            None
                        },
                        None => None,
                    }
                } else {
                    post_rest(ts, q + 2, d, ExprV::FieldAccess(Box::new(a), n))
                }
            } else {
                None
            }
        } else if is_kind(ts, q, TokenKind::LParen) {
            match args_p(ts, q + 1, d, Seq::empty()) {
                Some((f, args)) => if q < f <= ts.len() {
                    post_rest(ts, f, d, ExprV::Call(Box::new(a), args, Seq::empty()))
                } else {
                    None
                },
                None => None,
            }
        } else if is_kind(ts, q, TokenKind::Question) {
            post_rest(ts, q + 1, d, ExprV::Try(Box::new(a)))
        } else {
            Some((q, a))
        }
        }),
{
}

/// `args_p` one step unfolded.
pub proof fn lemma_args_p(ts: Seq<SpannedToken>, s: int, d: bool, acc: Seq<ExprV>)
    ensures
        args_p(ts, s, d, acc) == ({
        if s < 0 || s >= ts.len() {
            None
        } else if is_kind(ts, s, TokenKind::RParen) {
            Some((s + 1, acc))
        } else if at_end_at(ts, s) {
            None
        } else {
            match expr_p(ts, s, d) {
                Some((e, x)) => if s < e < ts.len() {
                    if is_kind(ts, e, TokenKind::Comma) {
                        args_p(ts, e + 1, d, acc.push(x))
                    } else {
                        args_p(ts, e, d, acc.push(x))
                    }
                } else {
                    None
                },
                None => None,
            }
        }
        }),
{
}

/// `primary_p` one step unfolded.
pub proof fn lemma_primary_p(ts: Seq<SpannedToken>, p: int, d: bool)
    ensures
        primary_p(ts, p, d) == ({
        if p < 0 || p >= ts.len() {
            None
        } else {
            match ts[p].token {
                Token::True => Some((p + 1, ExprV::Lit(LitV::Bool(true)))),
                Token::False => Some((p + 1, ExprV::Lit(LitV::Bool(false)))),
                Token::Int(n) => Some((p + 1, ExprV::Lit(LitV::Int(n)))),
                Token::Float(x) => Some((p + 1, ExprV::Lit(LitV::Float(x@)))),
                Token::String(x) => Some((p + 1, ExprV::Lit(LitV::Str(x@)))),
                Token::Char(c) => Some((p + 1, ExprV::Lit(LitV::Char(c)))),
                Token::Ident(name) => {
                    let q = p + 1;
                    let n = name@;
                    if n == "box"@ && is_kind(ts, q, TokenKind::LParen) {
                        box_p(ts, q, d)
                    } else if n == "null"@ {
                        Some((q, ExprV::Null))
                    } else {
                        let v = if n == "vec"@ && is_kind(ts, q, TokenKind::Less) {
                            vec_empty_parse(ts, q)
                        } else {
                            Some(None)
                        };
                        match v {
                            None => None,
                            Some(Some((e, t))) => Some((e, ExprV::VecEmpty(t))),
                            Some(None) => {
                                let g = if is_kind(ts, q, TokenKind::Less) {
                                    generic_p(ts, q, d, n)
                                } else {
                                    Some(None)
                                };
                                match g {
                                    None => None,
                                    Some(Some(r)) => Some(r),
                                    Some(None) => if is_kind(ts, q, TokenKind::PathSep) {
                                        match path_end(ts, q + 1) {
                                            Some((e, var)) => if is_kind(ts, e, TokenKind::LParen) {
                                                if p < e {
                                                    match args_p(ts, e + 1, d, Seq::empty()) {
                                                        Some((f, args)) => Some(
                                                            (f, ExprV::EnumConstruct(n, var, args)),
                                                        ),
                                                        None => None,
                                                    }
                                                } else {
                                                    None
                                                }
                                            } else {
                                                Some((e, ExprV::EnumConstruct(n, var, Seq::empty())))
                                            },
                                            None => None,
                                        }
                                    } else if is_kind(ts, q, TokenKind::LBrace) && is_kind(
                                        ts,
                                        q + 1,
                                        TokenKind::Ident,
                                    ) && is_kind(ts, q + 2, TokenKind::Colon) {
                                        match fields_p(ts, q, d) {
                                            Some((e, fs)) => Some(
                                                (e, ExprV::StructLiteral(n, fs, Seq::empty())),
                                            ),
                                            None => None,
                                        }
                                    } else {
                                        Some((q, ExprV::Ident(n)))
                                    },
                                }
                            },
                        }
                    }
                },
                Token::LParen => paren_p(ts, p + 1, d),
                Token::LBracket => if is_kind(ts, p + 1, TokenKind::RBracket) {
                    Some((p + 2, ExprV::ArrayLiteral(Seq::empty())))
                } else {
                    match elems_p(ts, p + 1, d, Seq::empty()) {
                        Some((e, xs)) => Some((e, ExprV::ArrayLiteral(xs))),
                        None => None,
                    }
                },
                Token::If => if_expr_p(ts, p, d),
                Token::Match => match_p(ts, p, d),
                _ => None,
            }
        }
        }),
{
}

} // verus!
