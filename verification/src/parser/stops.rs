//! Where each form stops when it does not parse: the position of the
//! token the parser rejects (and reports), for every form of the grammar in
//! `grammar` and `syntax`. Each function here follows the form it belongs
//! to branch by branch; its value matters only where that form gives
//! `None`.
use super::grammar::{
    at_end_at, ident_at, is_kind, params_loop, pattern_parse, type_params_parse, type_parse,
    vec_empty_parse,
};
use super::syntax::{
    args_p, arms_rest, assignable_v, bin_p, bin_rest, block_p, box_p, call_p, elems_p, elif_rest,
    expr_p, expr_start_at, fields_p, fields_rest, fn_params_loop, generic_p, if_expr_p, let_init,
    match_p, method_params, method_sig, nx, op_at, paren_p, path_end, path_more, payloads_rest,
    post_rest, primary_p, self_part, sfields_rest, stmt_p, trait_rest, tuple_more, unary_p,
    variants_rest, impl_rest,
};
use super::grammar::{bindings_loop, tuple_rest, type_params_loop, generic_head};
use super::token::{SpannedToken, Token, TokenKind};
use vstd::prelude::*;

verus! {

// ---- types, type parameters, parameters, imports, patterns ----

/// Where a type at `p` stops.
pub open spec fn type_stop(ts: Seq<SpannedToken>, p: int) -> int
    decreases ts.len() - p, 1int,
{
    if p < 0 || p >= ts.len() {
        p
    } else if is_kind(ts, p, TokenKind::LBracket) {
        match type_parse(ts, p + 1) {
            Some((e, t)) => if !is_kind(ts, e, TokenKind::Semi) {
                e
            } else if !is_kind(ts, e + 1, TokenKind::Int) {
                e + 1
            } else {
                e + 2
            },
            None => type_stop(ts, p + 1),
        }
    } else if is_kind(ts, p, TokenKind::LParen) {
        if is_kind(ts, p + 1, TokenKind::RParen) {
            p
        } else {
            match type_parse(ts, p + 1) {
                Some((e, t)) => if p < e <= ts.len() {
                    tuple_stop(ts, e)
                } else {
                    e
                },
                None => type_stop(ts, p + 1),
            }
        }
    } else {
        match ident_at(ts, p) {
            Some(n) => if is_kind(ts, p + 1, TokenKind::Less) {
                if n == "Box"@ {
                    box_type_stop(ts, p + 1)
                } else {
                    p + 1
                }
            } else {
                p
            },
            None => p,
        }
    }
}

/// Where the rest of a tuple type from `q` stops.
pub open spec fn tuple_stop(ts: Seq<SpannedToken>, q: int) -> int
    decreases ts.len() - q, 0int,
{
    if q < 0 || q >= ts.len() {
        q
    } else if is_kind(ts, q, TokenKind::Comma) {
        match type_parse(ts, q + 1) {
            Some((e, t)) => if q < e <= ts.len() {
                tuple_stop(ts, e)
            } else {
                e
            },
            None => type_stop(ts, q + 1),
        }
    } else {
        q
    }
}

/// Where `<Name>` of `Box<Name>` from the `<` at `q` stops.
pub open spec fn box_type_stop(ts: Seq<SpannedToken>, q: int) -> int
    decreases ts.len() - q, 0int,
{
    if q < 0 || q >= ts.len() {
        q
    } else {
        match type_parse(ts, q + 1) {
            Some((e, t)) => e,
            None => type_stop(ts, q + 1),
        }
    }
}

/// Where type parameters at `p` stop.
pub open spec fn type_params_stop(ts: Seq<SpannedToken>, p: int) -> int {
    if is_kind(ts, p, TokenKind::Greater) {
        p
    } else if is_kind(ts, p + 1, TokenKind::Greater) {
        p + 1
    } else {
        type_params_loop_stop(ts, p + 1, Seq::empty())
    }
}

/// Where type parameter names from `q` stop, after the names `acc`.
pub open spec fn type_params_loop_stop(ts: Seq<SpannedToken>, q: int, acc: Seq<Seq<char>>) -> int
    decreases ts.len() - q,
{
    if q < 0 || q >= ts.len() {
        q
    } else if is_kind(ts, q, TokenKind::Greater) || at_end_at(ts, q) {
        q
    } else {
        match ident_at(ts, q) {
            Some(n) => if acc.contains(n) {
                q + 1
            } else if is_kind(ts, q + 1, TokenKind::Comma) {
                type_params_loop_stop(ts, q + 2, acc.push(n))
            } else {
                q + 1
            },
            None => q,
        }
    }
}

/// Where `name: Type` pairs from `q` stop.
pub open spec fn params_stop(ts: Seq<SpannedToken>, q: int) -> int
    decreases ts.len() - q,
{
    if q < 0 || q >= ts.len() {
        q
    } else if is_kind(ts, q, TokenKind::RParen) || at_end_at(ts, q) {
        q
    } else {
        match ident_at(ts, q) {
            Some(n) => if is_kind(ts, q + 1, TokenKind::Colon) {
                match type_parse(ts, q + 2) {
                    Some((e, t)) => if is_kind(ts, e, TokenKind::Comma) && e > q {
                        params_stop(ts, e + 1)
                    } else {
                        e
                    },
                    None => type_stop(ts, q + 2),
                }
            } else {
                q + 1
            },
            None => q,
        }
    }
}

/// Where `import a.b` at `p` stops.
pub open spec fn import_stop(ts: Seq<SpannedToken>, p: int) -> int {
    let q = nx(ts, p);
    match ident_at(ts, q) {
        Some(n) => import_rest_stop(ts, q + 1),
        None => q,
    }
}

/// Where more segments of an import from `q` stop.
pub open spec fn import_rest_stop(ts: Seq<SpannedToken>, q: int) -> int
    decreases ts.len() - q,
{
    if q < 0 || q >= ts.len() {
        q
    } else if is_kind(ts, q, TokenKind::Dot) || is_kind(ts, q, TokenKind::PathSep) {
        match ident_at(ts, q + 1) {
            Some(s) => import_rest_stop(ts, q + 2),
            None => q + 1,
        }
    } else {
        q
    }
}

/// Where `export a::b` at `p` stops.
pub open spec fn export_stop(ts: Seq<SpannedToken>, p: int) -> int {
    let q = nx(ts, p);
    match ident_at(ts, q) {
        Some(n) => export_rest_stop(ts, q + 1),
        None => q,
    }
}

/// Where more segments of an export path from `q` stop.
pub open spec fn export_rest_stop(ts: Seq<SpannedToken>, q: int) -> int
    decreases ts.len() - q,
{
    if q < 0 || q >= ts.len() {
        q
    } else if is_kind(ts, q, TokenKind::PathSep) {
        if is_kind(ts, q + 1, TokenKind::Star) {
            q
        } else {
            match ident_at(ts, q + 1) {
                Some(s) => export_rest_stop(ts, q + 2),
                None => q + 1,
            }
        }
    } else {
        q
    }
}

/// Where a pattern at `p` stops.
pub open spec fn pattern_stop(ts: Seq<SpannedToken>, p: int) -> int {
    match ident_at(ts, p) {
        Some(n) => if n == "_"@ {
            p
        } else if is_kind(ts, p + 1, TokenKind::PathSep) {
            match ident_at(ts, p + 2) {
                Some(v) => if is_kind(ts, p + 3, TokenKind::LParen) && !is_kind(
                    ts,
                    p + 4,
                    TokenKind::RParen,
                ) {
                    bindings_stop(ts, p + 4)
                } else {
                    p
                },
                None => p + 2,
            }
        } else {
            p + 1
        },
        None => p,
    }
}

/// Where binding names from `q` stop.
pub open spec fn bindings_stop(ts: Seq<SpannedToken>, q: int) -> int
    decreases ts.len() - q,
{
    if q < 0 || q >= ts.len() {
        q
    } else {
        match ident_at(ts, q) {
            Some(b) => if is_kind(ts, q + 1, TokenKind::Comma) {
                bindings_stop(ts, q + 2)
            } else {
                q + 1
            },
            None => q,
        }
    }
}


// ---- expressions and statements ----

/// Where the `vec<T>()` form at the `<` at `q` stops: at the token after
/// `(` that is not `)`.
pub open spec fn vec_empty_stop(ts: Seq<SpannedToken>, q: int) -> int {
    match type_parse(ts, q + 1) {
        Some((e, t)) => e + 2,
        None => q,
    }
}

/// Where `::name` segments of a path from the first name at `r` stop.
pub open spec fn path_stop(ts: Seq<SpannedToken>, r: int) -> int {
    match ident_at(ts, r) {
        Some(n) => path_more_stop(ts, r + 1),
        None => r,
    }
}

/// Where more `::name` segments from `s` stop.
pub open spec fn path_more_stop(ts: Seq<SpannedToken>, s: int) -> int
    decreases ts.len() - s,
{
    if is_kind(ts, s, TokenKind::PathSep) && s < ts.len() {
        match ident_at(ts, s + 1) {
            Some(m) => path_more_stop(ts, s + 2),
            None => s + 1,
        }
    } else {
        s
    }
}

/// Where an expression at `p` stops.
pub open spec fn expr_stop(ts: Seq<SpannedToken>, p: int, d: bool) -> int
    decreases ts.len() - p, 20int,
{
    if p < 0 || p >= ts.len() {
        p
    } else {
        match bin_p(ts, p, d, 19) {
            Some((e, a)) => if is_kind(ts, e, TokenKind::Equal) && assignable_v(a) && p < e {
                expr_stop(ts, e + 1, d)
            } else {
                e
            },
            None => bin_stop(ts, p, d, 19),
        }
    }
}

/// Where operands of level `lvl` joined by its operators stop.
pub open spec fn bin_stop(ts: Seq<SpannedToken>, p: int, d: bool, lvl: int) -> int
    decreases ts.len() - p, lvl,
{
    if p < 0 || p >= ts.len() || lvl < 14 || lvl > 19 {
        p
    } else {
        let first = if lvl == 14 {
            unary_p(ts, p, d)
        } else {
            bin_p(ts, p, d, lvl - 1)
        };
        match first {
            Some((e, a)) => if p < e <= ts.len() {
                bin_rest_stop(ts, e, d, lvl)
            } else {
                e
            },
            None => if lvl == 14 {
                unary_stop(ts, p, d)
            } else {
                bin_stop(ts, p, d, lvl - 1)
            },
        }
    }
}

/// Where further operators of level `lvl` and their operands from `q` stop.
pub open spec fn bin_rest_stop(ts: Seq<SpannedToken>, q: int, d: bool, lvl: int) -> int
    decreases ts.len() - q, lvl,
{
    if q < 0 || q >= ts.len() || lvl < 14 || lvl > 19 {
        q
    } else if op_at(ts, q, lvl) {
        let next = if lvl == 14 {
            unary_p(ts, q + 1, d)
        } else {
            bin_p(ts, q + 1, d, lvl - 1)
        };
        match next {
            Some((f, b)) => if q < f <= ts.len() {
                bin_rest_stop(ts, f, d, lvl)
            } else {
                f
            },
            None => if lvl == 14 {
                unary_stop(ts, q + 1, d)
            } else {
                bin_stop(ts, q + 1, d, lvl - 1)
            },
        }
    } else {
        q
    }
}

/// Where a unary expression at `p` stops.
pub open spec fn unary_stop(ts: Seq<SpannedToken>, p: int, d: bool) -> int
    decreases ts.len() - p, 13int,
{
    if p < 0 || p >= ts.len() {
        p
    } else if is_kind(ts, p, TokenKind::Bang) || is_kind(ts, p, TokenKind::Minus) {
        unary_stop(ts, p + 1, d)
    } else {
        call_stop(ts, p, d)
    }
}

/// Where a primary expression with its postfix forms at `p` stops.
pub open spec fn call_stop(ts: Seq<SpannedToken>, p: int, d: bool) -> int
    decreases ts.len() - p, 12int,
{
    if p < 0 || p >= ts.len() {
        p
    } else {
        match primary_p(ts, p, d) {
            Some((e, a)) => if p < e <= ts.len() {
                post_stop(ts, e, d)
            } else {
                e
            },
            None => primary_stop(ts, p, d),
        }
    }
}

/// Where postfix forms from `q` stop.
pub open spec fn post_stop(ts: Seq<SpannedToken>, q: int, d: bool) -> int
    decreases ts.len() - q, 12int,
{
    if q < 0 || q >= ts.len() {
        q
    } else if is_kind(ts, q, TokenKind::LBracket) {
        match expr_p(ts, q + 1, d) {
            Some((e, i)) => if q < e && is_kind(ts, e, TokenKind::RBracket) {
                post_stop(ts, e + 1, d)
            } else {
                e
            },
            None => expr_stop(ts, q + 1, d),
        }
    } else if is_kind(ts, q, TokenKind::Dot) {
        if is_kind(ts, q + 1, TokenKind::Int) {
            post_stop(ts, q + 2, d)
        } else if ident_at(ts, q + 1) is Some {
            if is_kind(ts, q + 2, TokenKind::LParen) {
                match args_p(ts, q + 3, d, Seq::empty()) {
                    Some((f, args)) => if q < f <= ts.len() {
                        post_stop(ts, f, d)
                    } else {
                        f
                    },
                    None => args_stop(ts, q + 3, d),
                }
            } else {
                post_stop(ts, q + 2, d)
            }
        } else {
            q + 1
        }
    } else if is_kind(ts, q, TokenKind::LParen) {
        match args_p(ts, q + 1, d, Seq::empty()) {
            Some((f, args)) => if q < f <= ts.len() {
                post_stop(ts, f, d)
            } else {
                f
            },
            None => args_stop(ts, q + 1, d),
        }
    } else if is_kind(ts, q, TokenKind::Question) {
        post_stop(ts, q + 1, d)
    } else {
        q
    }
}

/// Where arguments from `s` up to `)` stop.
pub open spec fn args_stop(ts: Seq<SpannedToken>, s: int, d: bool) -> int
    decreases ts.len() - s, 21int,
{
    if s < 0 || s >= ts.len() {
        s
    } else if is_kind(ts, s, TokenKind::RParen) || at_end_at(ts, s) {
        s
    } else {
        match expr_p(ts, s, d) {
            Some((e, x)) => if s < e < ts.len() {
                if is_kind(ts, e, TokenKind::Comma) {
                    args_stop(ts, e + 1, d)
                } else {
                    args_stop(ts, e, d)
                }
            } else {
                e
            },
            None => expr_stop(ts, s, d),
        }
    }
}

/// Where a primary expression at `p` stops.
pub open spec fn primary_stop(ts: Seq<SpannedToken>, p: int, d: bool) -> int
    decreases ts.len() - p, 11int,
{
    if p < 0 || p >= ts.len() {
        p
    } else {
        match ts[p].token {
            Token::Ident(name) => {
                let q = p + 1;
                let n = name@;
                if n == "box"@ && is_kind(ts, q, TokenKind::LParen) {
                    box_stop(ts, q, d)
                } else if n == "null"@ {
                    q
                } else {
                    let v = if n == "vec"@ && is_kind(ts, q, TokenKind::Less) {
                        vec_empty_parse(ts, q)
                    } else {
                        Some(None)
                    };
                    match v {
                        None => vec_empty_stop(ts, q),
                        Some(Some(x)) => q,
                        Some(None) => {
                            let g = if is_kind(ts, q, TokenKind::Less) {
                                generic_p(ts, q, d, n)
                            } else {
                                Some(None)
                            };
                            match g {
                                None => generic_stop(ts, q, d),
                                Some(Some(x)) => q,
                                Some(None) => if is_kind(ts, q, TokenKind::PathSep) {
                                    match path_end(ts, q + 1) {
                                        Some((e, var)) => if is_kind(ts, e, TokenKind::LParen) && p < e {
                                            args_stop(ts, e + 1, d)
                                        } else {
                                            e
                                        },
                                        None => path_stop(ts, q + 1),
                                    }
                                } else if is_kind(ts, q, TokenKind::LBrace) && is_kind(
                                    ts,
                                    q + 1,
                                    TokenKind::Ident,
                                ) && is_kind(ts, q + 2, TokenKind::Colon) {
                                    fields_stop(ts, q, d)
                                } else {
                                    q
                                },
                            }
                        },
                    }
                }
            },
            Token::LParen => paren_stop(ts, p + 1, d),
            Token::LBracket => if is_kind(ts, p + 1, TokenKind::RBracket) {
                p
            } else {
                elems_stop(ts, p + 1, d)
            },
            Token::If => if_expr_stop(ts, p, d),
            Token::Match => match_stop(ts, p, d),
            _ => p,
        }
    }
}

/// Where array literal elements from `s` stop.
pub open spec fn elems_stop(ts: Seq<SpannedToken>, s: int, d: bool) -> int
    decreases ts.len() - s, 21int,
{
    if s < 0 || s >= ts.len() {
        s
    } else {
        match expr_p(ts, s, d) {
            Some((e, x)) => if s < e < ts.len() && is_kind(ts, e, TokenKind::Comma) {
                elems_stop(ts, e + 1, d)
            } else {
                e
            },
            None => expr_stop(ts, s, d),
        }
    }
}

/// Where a parenthesised expression or tuple after `(` at `s` stops.
pub open spec fn paren_stop(ts: Seq<SpannedToken>, s: int, d: bool) -> int
    decreases ts.len() - s, 21int,
{
    if s < 0 || s >= ts.len() {
        s
    } else {
        match expr_p(ts, s, d) {
            Some((e, x)) => if s < e < ts.len() && is_kind(ts, e, TokenKind::Comma) {
                tuple_more_stop(ts, e, d)
            } else {
                e
            },
            None => expr_stop(ts, s, d),
        }
    }
}

/// Where more tuple elements from `q` stop.
pub open spec fn tuple_more_stop(ts: Seq<SpannedToken>, q: int, d: bool) -> int
    decreases ts.len() - q, 21int,
{
    if q < 0 || q >= ts.len() {
        q
    } else if is_kind(ts, q, TokenKind::Comma) {
        match expr_p(ts, q + 1, d) {
            Some((e, x)) => if q < e < ts.len() {
                tuple_more_stop(ts, e, d)
            } else {
                e
            },
            None => expr_stop(ts, q + 1, d),
        }
    } else {
        q
    }
}

/// Where `box(expr)` with the `(` at `q` stops.
pub open spec fn box_stop(ts: Seq<SpannedToken>, q: int, d: bool) -> int
    decreases ts.len() - q, 10int,
{
    if q < 0 || q >= ts.len() || !is_kind(ts, q, TokenKind::LParen) {
        q
    } else {
        match expr_p(ts, q + 1, d) {
            Some((e, x)) => e,
            None => expr_stop(ts, q + 1, d),
        }
    }
}

/// Where a generic call or struct literal after its type arguments at `q`
/// stops.
pub open spec fn generic_stop(ts: Seq<SpannedToken>, q: int, d: bool) -> int
    decreases ts.len() - q, 10int,
{
    if q < 0 || q >= ts.len() {
        q
    } else {
        match generic_head(ts, q) {
            None => q,
            Some((e, targs)) => if q < e <= ts.len() {
                if is_kind(ts, e, TokenKind::LParen) {
                    args_stop(ts, e + 1, d)
                } else {
                    fields_stop(ts, e, d)
                }
            } else {
                e
            },
        }
    }
}

/// Where `{ field: expr, .. }` at `q` stops.
pub open spec fn fields_stop(ts: Seq<SpannedToken>, q: int, d: bool) -> int
    decreases ts.len() - q, 8int,
{
    if q < 0 || q >= ts.len() || !is_kind(ts, q, TokenKind::LBrace) {
        q
    } else {
        fields_rest_stop(ts, q + 1, d)
    }
}

/// Where struct literal fields from `s` stop.
pub open spec fn fields_rest_stop(ts: Seq<SpannedToken>, s: int, d: bool) -> int
    decreases ts.len() - s, 8int,
{
    if s < 0 || s >= ts.len() {
        s
    } else if is_kind(ts, s, TokenKind::RBrace) || at_end_at(ts, s) {
        s
    } else if ident_at(ts, s) is Some && is_kind(ts, s + 1, TokenKind::Colon) {
        match expr_p(ts, s + 2, d) {
            Some((e, x)) => if s < e && is_kind(ts, e, TokenKind::Comma) {
                fields_rest_stop(ts, e + 1, d)
            } else {
                e
            },
            None => expr_stop(ts, s + 2, d),
        }
    } else if ident_at(ts, s) is None {
        s
    } else {
        s + 1
    }
}

/// Where an `if` expression at `p` stops.
pub open spec fn if_expr_stop(ts: Seq<SpannedToken>, p: int, d: bool) -> int
    decreases ts.len() - p, 10int,
{
    if p < 0 || p >= ts.len() {
        p
    } else {
        match expr_p(ts, p + 1, d) {
            Some((e, c)) => if p < e <= ts.len() {
                match block_p(ts, e, d) {
                    Some((f, th)) => if e < f && is_kind(ts, f, TokenKind::Else) {
                        if is_kind(ts, f + 1, TokenKind::If) {
                            if_expr_stop(ts, f + 1, d)
                        } else {
                            block_stop(ts, f + 1, d)
                        }
                    } else {
                        f
                    },
                    None => block_stop(ts, e, d),
                }
            } else {
                e
            },
            None => expr_stop(ts, p + 1, d),
        }
    }
}

/// Where a `match` expression at `p` stops.
pub open spec fn match_stop(ts: Seq<SpannedToken>, p: int, d: bool) -> int
    decreases ts.len() - p, 10int,
{
    if p < 0 || p >= ts.len() {
        p
    } else {
        match expr_p(ts, p + 1, d) {
            Some((e, sc)) => if p < e && is_kind(ts, e, TokenKind::LBrace) {
                arms_stop(ts, e + 1, d)
            } else {
                e
            },
            None => expr_stop(ts, p + 1, d),
        }
    }
}

/// Where match arms from `s` stop.
pub open spec fn arms_stop(ts: Seq<SpannedToken>, s: int, d: bool) -> int
    decreases ts.len() - s, 10int,
{
    if s < 0 || s >= ts.len() {
        s
    } else if is_kind(ts, s, TokenKind::RBrace) || at_end_at(ts, s) {
        s
    } else {
        match pattern_parse(ts, s) {
            Some((e, pv)) => if s < e && is_kind(ts, e, TokenKind::FatArrow) {
                if is_kind(ts, e + 1, TokenKind::LBrace) {
                    match block_p(ts, e + 1, d) {
                        Some((f, b)) => if e < f < ts.len() {
                            if is_kind(ts, f, TokenKind::Comma) {
                                arms_stop(ts, f + 1, d)
                            } else {
                                arms_stop(ts, f, d)
                            }
                        } else {
                            f
                        },
                        None => block_stop(ts, e + 1, d),
                    }
                } else {
                    match expr_p(ts, e + 1, d) {
                        Some((f, x)) => if e < f < ts.len() {
                            if is_kind(ts, f, TokenKind::Comma) {
                                arms_stop(ts, f + 1, d)
                            } else {
                                arms_stop(ts, f, d)
                            }
                        } else {
                            f
                        },
                        None => expr_stop(ts, e + 1, d),
                    }
                }
            } else {
                e
            },
            None => pattern_stop(ts, s),
        }
    }
}

/// Where a block at `p` stops.
pub open spec fn block_stop(ts: Seq<SpannedToken>, p: int, d: bool) -> int
    decreases ts.len() - p, 27int,
{
    if p < 0 || p >= ts.len() || !is_kind(ts, p, TokenKind::LBrace) {
        p
    } else {
        block_rest_stop(ts, p + 1, d)
    }
}

/// Where the statements of a block from `s` stop.
pub open spec fn block_rest_stop(ts: Seq<SpannedToken>, s: int, d: bool) -> int
    decreases ts.len() - s, 31int,
{
    if s < 0 || s >= ts.len() {
        s
    } else if is_kind(ts, s, TokenKind::RBrace) || at_end_at(ts, s) {
        s
    } else {
        match stmt_p(ts, s, d) {
            Some((e, st)) => if s < e < ts.len() {
                block_rest_stop(ts, e, d)
            } else {
                e
            },
            None => stmt_stop(ts, s, d),
        }
    }
}

/// Where the optional `: Type` from `r` stops.
pub open spec fn let_type_stop(ts: Seq<SpannedToken>, r: int) -> int {
    if is_kind(ts, r, TokenKind::Colon) {
        type_stop(ts, r + 1)
    } else {
        r
    }
}

/// Where the optional `= expr` of a `let` at `p` from `r2` stops.
pub open spec fn let_init_stop(ts: Seq<SpannedToken>, p: int, r2: int, d: bool) -> int
    decreases ts.len() - p, 27int,
{
    if is_kind(ts, r2, TokenKind::Equal) && 0 <= p < r2 {
        expr_stop(ts, r2 + 1, d)
    } else {
        r2
    }
}

/// Where `let [mut] name [: Type] [= expr]` at `p` stops.
pub open spec fn let_stop(ts: Seq<SpannedToken>, p: int, d: bool) -> int
    decreases ts.len() - p, 28int,
{
    let q = nx(ts, p);
    let q2 = if is_kind(ts, q, TokenKind::Mut) {
        q + 1
    } else {
        q
    };
    if p < 0 || p >= ts.len() {
        p
    } else {
        match ident_at(ts, q2) {
            Some(n) => match super::syntax::let_type_end(ts, q2 + 1) {
                Some((r2, ty)) => let_init_stop(ts, p, r2, d),
                None => let_type_stop(ts, q2 + 1),
            },
            None => q2,
        }
    }
}

/// Where a statement at `p` stops.
pub open spec fn stmt_stop(ts: Seq<SpannedToken>, p: int, d: bool) -> int
    decreases ts.len() - p, 29int,
{
    if p < 0 || p >= ts.len() {
        p
    } else if is_kind(ts, p, TokenKind::Let) {
        let_stop(ts, p, d)
    } else if is_kind(ts, p, TokenKind::Struct) {
        struct_stop(ts, p)
    } else if is_kind(ts, p, TokenKind::Enum) {
        enum_stop(ts, p)
    } else if is_kind(ts, p, TokenKind::Fn) {
        fn_stop(ts, p, d)
    } else if is_kind(ts, p, TokenKind::Import) {
        import_stop(ts, p)
    } else if is_kind(ts, p, TokenKind::Export) {
        export_stop(ts, p)
    } else if is_kind(ts, p, TokenKind::Return) {
        ret_stop(ts, p, d)
    } else if is_kind(ts, p, TokenKind::Break) || is_kind(ts, p, TokenKind::Continue) {
        p
    } else if is_kind(ts, p, TokenKind::If) {
        if_stmt_stop(ts, p, d)
    } else if is_kind(ts, p, TokenKind::For) {
        for_stop(ts, p, d)
    } else if is_kind(ts, p, TokenKind::While) {
        while_stop(ts, p, d)
    } else if is_kind(ts, p, TokenKind::LBrace) {
        block_stop(ts, p, d)
    } else {
        expr_stop(ts, p, d)
    }
}

/// Where a function's parameters from `s` stop.
pub open spec fn fn_params_stop(ts: Seq<SpannedToken>, s: int) -> int
    decreases ts.len() - s,
{
    if s < 0 || s >= ts.len() || is_kind(ts, s, TokenKind::RParen) {
        s
    } else {
        match ident_at(ts, s) {
            Some(n) => if is_kind(ts, s + 1, TokenKind::Colon) {
                match type_parse(ts, s + 2) {
                    Some((e, t)) => if s < e <= ts.len() {
                        if is_kind(ts, e, TokenKind::Comma) {
                            fn_params_stop(ts, e + 1)
                        } else {
                            fn_params_stop(ts, e)
                        }
                    } else {
                        e
                    },
                    None => type_stop(ts, s + 2),
                }
            } else {
                s + 1
            },
            None => s,
        }
    }
}

/// Where `fn name<T>(params) [-> Type] { .. }` at `p` stops.
pub open spec fn fn_stop(ts: Seq<SpannedToken>, p: int, d: bool) -> int
    decreases ts.len() - p, 28int,
{
    let q = nx(ts, p);
    if p < 0 || p >= ts.len() {
        p
    } else if ident_at(ts, q) is None {
        q
    } else {
        match type_params_parse(ts, q + 1) {
            Some((e, tps)) => if is_kind(ts, e, TokenKind::LParen) {
                match fn_params_loop(ts, e + 1, Seq::empty()) {
                    Some((f, ps)) => if is_kind(ts, f + 1, TokenKind::Arrow) {
                        match type_parse(ts, f + 2) {
                            Some((g, t)) => if p < g <= ts.len() {
                                block_stop(ts, g, d)
                            } else {
                                g
                            },
                            None => type_stop(ts, f + 2),
                        }
                    } else if p < f + 1 <= ts.len() {
                        block_stop(ts, f + 1, d)
                    } else {
                        f + 1
                    },
                    None => fn_params_stop(ts, e + 1),
                }
            } else {
                e
            },
            None => type_params_stop(ts, q + 1),
        }
    }
}

/// Where `return [expr]` at `p` stops.
pub open spec fn ret_stop(ts: Seq<SpannedToken>, p: int, d: bool) -> int
    decreases ts.len() - p, 28int,
{
    if p < 0 || p >= ts.len() || d {
        p
    } else if expr_start_at(ts, p + 1) {
        expr_stop(ts, p + 1, d)
    } else {
        p
    }
}

/// Where an `if` statement at `p` stops.
pub open spec fn if_stmt_stop(ts: Seq<SpannedToken>, p: int, d: bool) -> int
    decreases ts.len() - p, 28int,
{
    if p < 0 || p >= ts.len() {
        p
    } else {
        match expr_p(ts, nx(ts, p), d) {
            Some((e, c)) => if p < e <= ts.len() {
                match block_p(ts, e, d) {
                    Some((f, th)) => if e < f <= ts.len() {
                        match elif_rest(ts, f, d, Seq::empty()) {
                            Some((g, elifs)) => if is_kind(ts, g, TokenKind::Else) && p < g {
                                block_stop(ts, g + 1, d)
                            } else {
                                g
                            },
                            None => elif_stop(ts, f, d),
                        }
                    } else {
                        f
                    },
                    None => block_stop(ts, e, d),
                }
            } else {
                e
            },
            None => expr_stop(ts, nx(ts, p), d),
        }
    }
}

/// Where `elif` branches from `s` stop.
pub open spec fn elif_stop(ts: Seq<SpannedToken>, s: int, d: bool) -> int
    decreases ts.len() - s, 28int,
{
    if s < 0 || s >= ts.len() {
        s
    } else if is_kind(ts, s, TokenKind::Elif) {
        match expr_p(ts, s + 1, d) {
            Some((e, c)) => if s < e <= ts.len() {
                match block_p(ts, e, d) {
                    Some((f, b)) => if e < f <= ts.len() {
                        elif_stop(ts, f, d)
                    } else {
                        f
                    },
                    None => block_stop(ts, e, d),
                }
            } else {
                e
            },
            None => expr_stop(ts, s + 1, d),
        }
    } else {
        s
    }
}

/// Where a `for` statement at `p` stops.
pub open spec fn for_stop(ts: Seq<SpannedToken>, p: int, d: bool) -> int
    decreases ts.len() - p, 28int,
{
    let q = nx(ts, p);
    if p < 0 || p >= ts.len() {
        p
    } else if ident_at(ts, q) is None {
        q
    } else if !is_kind(ts, q + 1, TokenKind::In) {
        q + 1
    } else {
        match expr_p(ts, q + 2, d) {
            Some((e, a)) => if is_kind(ts, e, TokenKind::DotDot) {
                if p < e {
                    match expr_p(ts, e + 1, d) {
                        Some((f, b)) => if p < f <= ts.len() {
                            block_stop(ts, f, d)
                        } else {
                            f
                        },
                        None => expr_stop(ts, e + 1, d),
                    }
                } else {
                    e
                }
            } else if p < e <= ts.len() {
                block_stop(ts, e, d)
            } else {
                e
            },
            None => expr_stop(ts, q + 2, d),
        }
    }
}

/// Where a `while` statement at `p` stops.
pub open spec fn while_stop(ts: Seq<SpannedToken>, p: int, d: bool) -> int
    decreases ts.len() - p, 28int,
{
    if p < 0 || p >= ts.len() {
        p
    } else {
        match expr_p(ts, nx(ts, p), d) {
            Some((e, c)) => if p < e <= ts.len() {
                block_stop(ts, e, d)
            } else {
                e
            },
            None => expr_stop(ts, nx(ts, p), d),
        }
    }
}

/// Where `struct Name<T> { .. }` at `p` stops.
pub open spec fn struct_stop(ts: Seq<SpannedToken>, p: int) -> int {
    let q = nx(ts, p);
    match ident_at(ts, q) {
        Some(n) => match type_params_parse(ts, q + 1) {
            Some((e, tps)) => if is_kind(ts, e, TokenKind::LBrace) {
                sfields_stop(ts, e + 1)
            } else {
                e
            },
            None => type_params_stop(ts, q + 1),
        },
        None => q,
    }
}

/// Where struct fields from `s` stop.
pub open spec fn sfields_stop(ts: Seq<SpannedToken>, s: int) -> int
    decreases ts.len() - s,
{
    if s < 0 || s >= ts.len() {
        s
    } else if is_kind(ts, s, TokenKind::RBrace) || at_end_at(ts, s) {
        s
    } else if ident_at(ts, s) is Some && is_kind(ts, s + 1, TokenKind::Colon) {
        match type_parse(ts, s + 2) {
            Some((e, t)) => if s < e <= ts.len() && is_kind(ts, e, TokenKind::Comma) {
                sfields_stop(ts, e + 1)
            } else {
                e
            },
            None => type_stop(ts, s + 2),
        }
    } else if ident_at(ts, s) is None {
        s
    } else {
        s + 1
    }
}

/// Where `enum Name { .. }` at `p` stops.
pub open spec fn enum_stop(ts: Seq<SpannedToken>, p: int) -> int {
    let q = nx(ts, p);
    if ident_at(ts, q) is None {
        q
    } else if !is_kind(ts, q + 1, TokenKind::LBrace) {
        q + 1
    } else {
        variants_stop(ts, q + 2)
    }
}

/// Where enum variants from `s` stop.
pub open spec fn variants_stop(ts: Seq<SpannedToken>, s: int) -> int
    decreases ts.len() - s,
{
    if s < 0 || s >= ts.len() {
        s
    } else if is_kind(ts, s, TokenKind::RBrace) || at_end_at(ts, s) {
        s
    } else if ident_at(ts, s) is Some {
        let v: Option<(int, Seq<super::grammar::TypeV>)> = if is_kind(ts, s + 1, TokenKind::LParen) {
            if is_kind(ts, s + 2, TokenKind::RParen) {
                Some((s + 3, Seq::empty()))
            } else {
                payloads_rest(ts, s + 2, Seq::empty())
            }
        } else {
            Some((s + 1, Seq::empty()))
        };
        match v {
            Some((e, pl)) => if s < e <= ts.len() && is_kind(ts, e, TokenKind::Comma) {
                variants_stop(ts, e + 1)
            } else {
                e
            },
            None => payloads_stop(ts, s + 2),
        }
    } else {
        s
    }
}

/// Where payload types from `s` stop.
pub open spec fn payloads_stop(ts: Seq<SpannedToken>, s: int) -> int
    decreases ts.len() - s,
{
    if s < 0 || s >= ts.len() {
        s
    } else {
        match type_parse(ts, s) {
            Some((e, t)) => if s < e <= ts.len() && is_kind(ts, e, TokenKind::Comma) {
                payloads_stop(ts, e + 1)
            } else {
                e
            },
            None => type_stop(ts, s),
        }
    }
}

// ---- traits, impls, defer ----

/// Where the parameters of a trait or impl method after `(` at `t` stop.
pub open spec fn method_params_stop(ts: Seq<SpannedToken>, t: int) -> int {
    if ident_at(ts, t) == Some("self"@) && is_kind(ts, t + 1, TokenKind::Colon) && type_parse(
        ts,
        t + 2,
    ) is None {
        type_stop(ts, t + 2)
    } else {
        match self_part(ts, t) {
            Some((t1, slf)) => params_stop(ts, t1),
            None => t,
        }
    }
}

/// Where the signature `fn name(params) [-> Type]` of a trait or impl
/// method at `s` stops.
pub open spec fn method_sig_stop(ts: Seq<SpannedToken>, s: int) -> int {
    if !is_kind(ts, s, TokenKind::Fn) {
        s
    } else if ident_at(ts, s + 1) is None {
        s + 1
    } else if !is_kind(ts, s + 2, TokenKind::LParen) {
        s + 2
    } else {
        match method_params(ts, s + 3) {
            None => method_params_stop(ts, s + 3),
            Some((u, slf, ps)) => if !is_kind(ts, u, TokenKind::RParen) {
                u
            } else {
                type_stop(ts, u + 2)
            },
        }
    }
}

/// Where the methods of a trait from `s` stop.
pub open spec fn trait_rest_stop(ts: Seq<SpannedToken>, s: int) -> int
    decreases ts.len() - s,
{
    if s < 0 || s >= ts.len() || is_kind(ts, s, TokenKind::RBrace) || at_end_at(ts, s) {
        s
    } else {
        match method_sig(ts, s) {
            Some((v, name, slf, ps, rt)) => {
                let w = if is_kind(ts, v, TokenKind::Semi) {
                    v + 1
                } else {
                    v
                };
                if s < w <= ts.len() {
                    trait_rest_stop(ts, w)
                } else {
                    w
                }
            },
            None => method_sig_stop(ts, s),
        }
    }
}

/// Where `trait Name { .. }` at `p` stops.
pub open spec fn trait_stop(ts: Seq<SpannedToken>, p: int) -> int {
    let q = nx(ts, p);
    if ident_at(ts, q) is None {
        q
    } else if !is_kind(ts, q + 1, TokenKind::LBrace) {
        q + 1
    } else {
        trait_rest_stop(ts, q + 2)
    }
}

/// Where the methods of an impl from `s` stop.
pub open spec fn impl_rest_stop(ts: Seq<SpannedToken>, s: int, d: bool) -> int
    decreases ts.len() - s,
{
    if s < 0 || s >= ts.len() || is_kind(ts, s, TokenKind::RBrace) || at_end_at(ts, s) {
        s
    } else {
        match method_sig(ts, s) {
            Some((v, name, slf, ps, rt)) => if s < v <= ts.len() {
                match block_p(ts, v, d) {
                    Some((w, body)) => if v < w <= ts.len() {
                        impl_rest_stop(ts, w, d)
                    } else {
                        w
                    },
                    None => block_stop(ts, v, d),
                }
            } else {
                v
            },
            None => method_sig_stop(ts, s),
        }
    }
}

/// Where `impl Trait for Type { .. }` at `p` stops.
pub open spec fn impl_stop(ts: Seq<SpannedToken>, p: int, d: bool) -> int {
    let q = nx(ts, p);
    if ident_at(ts, q) is None {
        q
    } else if !is_kind(ts, q + 1, TokenKind::For) {
        q + 1
    } else if ident_at(ts, q + 2) is None {
        q + 2
    } else if !is_kind(ts, q + 3, TokenKind::LBrace) {
        q + 3
    } else {
        impl_rest_stop(ts, q + 4, d)
    }
}

/// Where `defer statement` at `p` stops, where `f` is whether it stands
/// inside a function and `d` whether inside another `defer`: at once when
/// it is not allowed there, else where the deferred statement stops.
pub open spec fn defer_stop(ts: Seq<SpannedToken>, p: int, f: bool, d: bool) -> int {
    if f && !d {
        stmt_stop(ts, p + 1, true)
    } else {
        p
    }
}

} // verus!
