//! Expressions, by precedence from assignment down to primaries, and the
//! generic-call, struct-literal, `box`, `vec<T>()` and `match` forms.
use super::grammar::{
    bindings_loop, generic_head, generic_loop, is_kind, lemma_tvs_push, pat_view, pattern_parse,
    tvs, type_parse, PatView, vec_empty_parse,
};
use super::syntax::{
    args_p, arms_rest, bin_p, bin_rest, block_p, box_p, call_p, elems_p, expr_agrees, expr_p,
    exprs_agrees, fields_p, fields_rest, generic_p, if_expr_p, lemma_args_p, lemma_call_p,
    lemma_expr_p, lemma_post_rest, lemma_primary_p, match_p, paren_p, path_end, path_more,
    point_span, post_rest, primary_p, tuple_more, unary_p,
};
use super::tree::{
    armvs, bv, ev, evs, fldvs, lemma_armvs_push, lemma_evs_push, lemma_fldvs_push, ExprV, StmtV,
};
use super::token::{kind_str, Token, TokenKind};
use super::{err_at, message3, stops, Parser};
use crate::ast::{
    ArrayIndexExpr, AssignExpr, BinOp, BinaryExpr, CallExpr, EnumConstructExpr, Expr,
    FieldAccessExpr, IfExpr, Literal, MatchArm, MatchExpr, MethodCallExpr, Pattern,
    StructLiteralExpr, TryExpr, Type, UnOp, UnaryExpr,
};
use crate::render::HuziError;
use crate::text::{chars_of, eq_str, push_decimal, push_str, string_of};
use vstd::prelude::*;

verus! {

/// The decimal spelling of an integer.
pub open spec fn int_text(n: i64) -> Seq<char> {
    if n < 0 {
        "-"@ + crate::text::dec_digits((-n) as nat)
    } else {
        crate::text::dec_digits(n as nat)
    }
}

pub fn int_string(n: i64) -> (r: String)
    ensures
        r@ == int_text(n),
{
    let mut out: Vec<char> = Vec::new();
    if n < 0 {
        push_str(&mut out, "-");
        let m: u64 = if n == i64::MIN {
            9223372036854775808u64
        } else {
            (-n) as u64
        };
        push_decimal(&mut out, m);
    } else {
        push_decimal(&mut out, n as u64);
    }
    string_of(out.as_slice())
}

/// A copy of a string's text.
pub(crate) fn copy_string(s: &String) -> (r: String)
    ensures
        r@ == s@,
{
    s.clone()
}

impl Token {
    /// An equal copy of the token.
    pub fn duplicate(&self) -> (r: Token)
        ensures
            r == *self,
    {
        match self {
            Token::Int(n) => Token::Int(*n),
            Token::Float(s) => Token::Float(s.clone()),
            Token::String(s) => Token::String(s.clone()),
            Token::Char(c) => Token::Char(*c),
            Token::Ident(s) => Token::Ident(s.clone()),
            Token::Let => Token::Let,
            Token::Mut => Token::Mut,
            Token::Fn => Token::Fn,
            Token::Struct => Token::Struct,
            Token::Enum => Token::Enum,
            Token::Import => Token::Import,
            Token::Export => Token::Export,
            Token::Return => Token::Return,
            Token::Break => Token::Break,
            Token::Continue => Token::Continue,
            Token::If => Token::If,
            Token::Elif => Token::Elif,
            Token::Else => Token::Else,
            Token::For => Token::For,
            Token::In => Token::In,
            Token::While => Token::While,
            Token::Match => Token::Match,
            Token::True => Token::True,
            Token::False => Token::False,
            Token::Plus => Token::Plus,
            Token::Minus => Token::Minus,
            Token::Star => Token::Star,
            Token::Slash => Token::Slash,
            Token::Percent => Token::Percent,
            Token::Equal => Token::Equal,
            Token::EqualEqual => Token::EqualEqual,
            Token::BangEqual => Token::BangEqual,
            Token::Bang => Token::Bang,
            Token::Less => Token::Less,
            Token::LessEqual => Token::LessEqual,
            Token::Greater => Token::Greater,
            Token::GreaterEqual => Token::GreaterEqual,
            Token::AmpAmp => Token::AmpAmp,
            Token::BarBar => Token::BarBar,
            Token::LParen => Token::LParen,
            Token::RParen => Token::RParen,
            Token::LBrace => Token::LBrace,
            Token::RBrace => Token::RBrace,
            Token::LBracket => Token::LBracket,
            Token::RBracket => Token::RBracket,
            Token::Comma => Token::Comma,
            Token::Colon => Token::Colon,
            Token::Semi => Token::Semi,
            Token::Dot => Token::Dot,
            Token::DotDot => Token::DotDot,
            Token::PathSep => Token::PathSep,
            Token::Arrow => Token::Arrow,
            Token::FatArrow => Token::FatArrow,
            Token::Question => Token::Question,
            Token::Eof => Token::Eof,
        }
    }
}

pub(crate) fn binary(left: Expr, operator: BinOp, right: Expr) -> (r: Expr)
    ensures
        r == Expr::Binary(BinaryExpr { left: Box::new(left), operator, right: Box::new(right) }),
{
    Expr::Binary(BinaryExpr { left: Box::new(left), operator, right: Box::new(right) })
}

impl Parser {
    /// An expression; assignment (`x = ...`, `a[i] = ...`, `p.f = ...`)
    /// has the lowest precedence.
    pub(crate) fn parse_expression(&mut self) -> (r: Result<Expr, HuziError>)
        requires
            old(self).wf(),
        ensures
            r matches Err(e) ==> err_at(e, final(self).tokens@, final(self).pos as int),
            r is Err ==> final(self).pos == stops::expr_stop(old(self).tokens@, old(self).pos as int, old(self).in_defer),
            final(self).wf(),
            final(self).keeps(old(self)),
            r is Ok ==> final(self).pos > old(self).pos,
            expr_agrees(
                expr_p(old(self).tokens@, old(self).pos as int, old(self).in_defer),
                r,
                final(self).pos as int,
            ),
        decreases old(self).remaining(), 20nat,
    {
        proof {
            lemma_expr_p(old(self).tokens@, old(self).pos as int, old(self).in_defer);
        }
        let ghost ts = self.tokens@;
        let ghost p0 = self.pos as int;
        let ghost d = self.in_defer;
        let expr = self.parse_or_expression()?;
        if self.check(TokenKind::Equal) {
            let valid = match &expr {
                Expr::Ident(_) | Expr::ArrayIndex(_) | Expr::FieldAccess(_) => true,
                _ => false,
            };
            if !valid {
                return Err(self.error_here("Invalid assignment target"));
            }
            let target = expr;
            self.advance();
            let value = self.parse_expression()?;
            return Ok(Expr::Assign(AssignExpr { target: Box::new(target), value: Box::new(value) }));
        }
        Ok(expr)
    }

    pub(crate) fn parse_or_expression(&mut self) -> (r: Result<Expr, HuziError>)
        requires
            old(self).wf(),
        ensures
            r matches Err(e) ==> err_at(e, final(self).tokens@, final(self).pos as int),
            r is Err ==> final(self).pos == stops::bin_stop(old(self).tokens@, old(self).pos as int, old(self).in_defer, 19),
            final(self).wf(),
            final(self).keeps(old(self)),
            r is Ok ==> final(self).pos > old(self).pos,
            expr_agrees(
                bin_p(old(self).tokens@, old(self).pos as int, old(self).in_defer, 19),
                r,
                final(self).pos as int,
            ),
        decreases old(self).remaining(), 19nat,
    {
        let ghost ts = self.tokens@;
        let ghost p0 = self.pos as int;
        let ghost d = self.in_defer;
        let mut left = self.parse_and_expression()?;
        while self.check(TokenKind::BarBar)
            invariant
                self.wf(),
                self.keeps(old(self)),
                self.pos > old(self).pos,
                ts == self.tokens@,
                d == self.in_defer,
                p0 == old(self).pos,
                bin_p(ts, p0, d, 19) == bin_rest(ts, self.pos as int, d, 19, ev(left)),
                stops::bin_stop(ts, p0, d, 19) == stops::bin_rest_stop(ts, self.pos as int, d, 19),
            decreases self.remaining(),
        {
            self.advance();
            let right = self.parse_and_expression()?;
            left = binary(left, BinOp::Or, right);
        }
        Ok(left)
    }

    pub(crate) fn parse_and_expression(&mut self) -> (r: Result<Expr, HuziError>)
        requires
            old(self).wf(),
        ensures
            r matches Err(e) ==> err_at(e, final(self).tokens@, final(self).pos as int),
            r is Err ==> final(self).pos == stops::bin_stop(old(self).tokens@, old(self).pos as int, old(self).in_defer, 18),
            final(self).wf(),
            final(self).keeps(old(self)),
            r is Ok ==> final(self).pos > old(self).pos,
            expr_agrees(
                bin_p(old(self).tokens@, old(self).pos as int, old(self).in_defer, 18),
                r,
                final(self).pos as int,
            ),
        decreases old(self).remaining(), 18nat,
    {
        let ghost ts = self.tokens@;
        let ghost p0 = self.pos as int;
        let ghost d = self.in_defer;
        let mut left = self.parse_equality_expression()?;
        while self.check(TokenKind::AmpAmp)
            invariant
                self.wf(),
                self.keeps(old(self)),
                self.pos > old(self).pos,
                ts == self.tokens@,
                d == self.in_defer,
                p0 == old(self).pos,
                bin_p(ts, p0, d, 18) == bin_rest(ts, self.pos as int, d, 18, ev(left)),
                stops::bin_stop(ts, p0, d, 18) == stops::bin_rest_stop(ts, self.pos as int, d, 18),
            decreases self.remaining(),
        {
            self.advance();
            let right = self.parse_equality_expression()?;
            left = binary(left, BinOp::And, right);
        }
        Ok(left)
    }

    pub(crate) fn parse_equality_expression(&mut self) -> (r: Result<Expr, HuziError>)
        requires
            old(self).wf(),
        ensures
            r matches Err(e) ==> err_at(e, final(self).tokens@, final(self).pos as int),
            r is Err ==> final(self).pos == stops::bin_stop(old(self).tokens@, old(self).pos as int, old(self).in_defer, 17),
            final(self).wf(),
            final(self).keeps(old(self)),
            r is Ok ==> final(self).pos > old(self).pos,
            expr_agrees(
                bin_p(old(self).tokens@, old(self).pos as int, old(self).in_defer, 17),
                r,
                final(self).pos as int,
            ),
        decreases old(self).remaining(), 17nat,
    {
        let ghost ts = self.tokens@;
        let ghost p0 = self.pos as int;
        let ghost d = self.in_defer;
        let mut left = self.parse_comparison_expression()?;
        while self.check(TokenKind::EqualEqual) || self.check(TokenKind::BangEqual)
            invariant
                self.wf(),
                self.keeps(old(self)),
                self.pos > old(self).pos,
                ts == self.tokens@,
                d == self.in_defer,
                p0 == old(self).pos,
                bin_p(ts, p0, d, 17) == bin_rest(ts, self.pos as int, d, 17, ev(left)),
                stops::bin_stop(ts, p0, d, 17) == stops::bin_rest_stop(ts, self.pos as int, d, 17),
            decreases self.remaining(),
        {
            let op = if self.check(TokenKind::EqualEqual) {
                BinOp::Eq
            } else {
                BinOp::Neq
            };
            self.advance();
            let right = self.parse_comparison_expression()?;
            left = binary(left, op, right);
        }
        Ok(left)
    }

    pub(crate) fn parse_comparison_expression(&mut self) -> (r: Result<Expr, HuziError>)
        requires
            old(self).wf(),
        ensures
            r matches Err(e) ==> err_at(e, final(self).tokens@, final(self).pos as int),
            r is Err ==> final(self).pos == stops::bin_stop(old(self).tokens@, old(self).pos as int, old(self).in_defer, 16),
            final(self).wf(),
            final(self).keeps(old(self)),
            r is Ok ==> final(self).pos > old(self).pos,
            expr_agrees(
                bin_p(old(self).tokens@, old(self).pos as int, old(self).in_defer, 16),
                r,
                final(self).pos as int,
            ),
        decreases old(self).remaining(), 16nat,
    {
        let ghost ts = self.tokens@;
        let ghost p0 = self.pos as int;
        let ghost d = self.in_defer;
        let mut left = self.parse_additive_expression()?;
        while self.check(TokenKind::Less) || self.check(TokenKind::LessEqual) || self.check(
            TokenKind::Greater,
        ) || self.check(TokenKind::GreaterEqual)
            invariant
                self.wf(),
                self.keeps(old(self)),
                self.pos > old(self).pos,
                ts == self.tokens@,
                d == self.in_defer,
                p0 == old(self).pos,
                bin_p(ts, p0, d, 16) == bin_rest(ts, self.pos as int, d, 16, ev(left)),
                stops::bin_stop(ts, p0, d, 16) == stops::bin_rest_stop(ts, self.pos as int, d, 16),
            decreases self.remaining(),
        {
            let op = if self.check(TokenKind::Less) {
                BinOp::Lt
            } else if self.check(TokenKind::LessEqual) {
                BinOp::Le
            } else if self.check(TokenKind::Greater) {
                BinOp::Gt
            } else {
                BinOp::Ge
            };
            self.advance();
            let right = self.parse_additive_expression()?;
            left = binary(left, op, right);
        }
        Ok(left)
    }

    pub(crate) fn parse_additive_expression(&mut self) -> (r: Result<Expr, HuziError>)
        requires
            old(self).wf(),
        ensures
            r matches Err(e) ==> err_at(e, final(self).tokens@, final(self).pos as int),
            r is Err ==> final(self).pos == stops::bin_stop(old(self).tokens@, old(self).pos as int, old(self).in_defer, 15),
            final(self).wf(),
            final(self).keeps(old(self)),
            r is Ok ==> final(self).pos > old(self).pos,
            expr_agrees(
                bin_p(old(self).tokens@, old(self).pos as int, old(self).in_defer, 15),
                r,
                final(self).pos as int,
            ),
        decreases old(self).remaining(), 15nat,
    {
        let ghost ts = self.tokens@;
        let ghost p0 = self.pos as int;
        let ghost d = self.in_defer;
        let mut left = self.parse_multiplicative_expression()?;
        while self.check(TokenKind::Plus) || self.check(TokenKind::Minus)
            invariant
                self.wf(),
                self.keeps(old(self)),
                self.pos > old(self).pos,
                ts == self.tokens@,
                d == self.in_defer,
                p0 == old(self).pos,
                bin_p(ts, p0, d, 15) == bin_rest(ts, self.pos as int, d, 15, ev(left)),
                stops::bin_stop(ts, p0, d, 15) == stops::bin_rest_stop(ts, self.pos as int, d, 15),
            decreases self.remaining(),
        {
            let op = if self.check(TokenKind::Plus) {
                BinOp::Add
            } else {
                BinOp::Sub
            };
            self.advance();
            let right = self.parse_multiplicative_expression()?;
            left = binary(left, op, right);
        }
        Ok(left)
    }

    pub(crate) fn parse_multiplicative_expression(&mut self) -> (r: Result<Expr, HuziError>)
        requires
            old(self).wf(),
        ensures
            r matches Err(e) ==> err_at(e, final(self).tokens@, final(self).pos as int),
            r is Err ==> final(self).pos == stops::bin_stop(old(self).tokens@, old(self).pos as int, old(self).in_defer, 14),
            final(self).wf(),
            final(self).keeps(old(self)),
            r is Ok ==> final(self).pos > old(self).pos,
            expr_agrees(
                bin_p(old(self).tokens@, old(self).pos as int, old(self).in_defer, 14),
                r,
                final(self).pos as int,
            ),
        decreases old(self).remaining(), 14nat,
    {
        let ghost ts = self.tokens@;
        let ghost p0 = self.pos as int;
        let ghost d = self.in_defer;
        let mut left = self.parse_unary_expression()?;
        while self.check(TokenKind::Star) || self.check(TokenKind::Slash) || self.check(
            TokenKind::Percent,
        )
            invariant
                self.wf(),
                self.keeps(old(self)),
                self.pos > old(self).pos,
                ts == self.tokens@,
                d == self.in_defer,
                p0 == old(self).pos,
                bin_p(ts, p0, d, 14) == bin_rest(ts, self.pos as int, d, 14, ev(left)),
                stops::bin_stop(ts, p0, d, 14) == stops::bin_rest_stop(ts, self.pos as int, d, 14),
            decreases self.remaining(),
        {
            let op = if self.check(TokenKind::Star) {
                BinOp::Mul
            } else if self.check(TokenKind::Slash) {
                BinOp::Div
            } else {
                BinOp::Mod
            };
            self.advance();
            let right = self.parse_unary_expression()?;
            left = binary(left, op, right);
        }
        Ok(left)
    }

    pub(crate) fn parse_unary_expression(&mut self) -> (r: Result<Expr, HuziError>)
        requires
            old(self).wf(),
        ensures
            r matches Err(e) ==> err_at(e, final(self).tokens@, final(self).pos as int),
            r is Err ==> final(self).pos == stops::unary_stop(old(self).tokens@, old(self).pos as int, old(self).in_defer),
            final(self).wf(),
            final(self).keeps(old(self)),
            r is Ok ==> final(self).pos > old(self).pos,
            expr_agrees(
                unary_p(old(self).tokens@, old(self).pos as int, old(self).in_defer),
                r,
                final(self).pos as int,
            ),
        decreases old(self).remaining(), 13nat,
    {
        if self.check(TokenKind::Bang) {
            self.advance();
            let operand = self.parse_unary_expression()?;
            Ok(Expr::Unary(UnaryExpr { operator: UnOp::Not, operand: Box::new(operand) }))
        } else if self.check(TokenKind::Minus) {
            self.advance();
            let operand = self.parse_unary_expression()?;
            Ok(Expr::Unary(UnaryExpr { operator: UnOp::Neg, operand: Box::new(operand) }))
        } else {
            self.parse_call_expression()
        }
    }

    /// Comma-separated expressions up to a closing `)` (which is consumed).
    pub(crate) fn parse_arguments(&mut self, msg: &str) -> (r: Result<Vec<Expr>, HuziError>)
        requires
            old(self).wf(),
        ensures
            r matches Err(e) ==> err_at(e, final(self).tokens@, final(self).pos as int),
            r is Err ==> final(self).pos == stops::args_stop(old(self).tokens@, old(self).pos as int, old(self).in_defer),
            final(self).wf(),
            final(self).keeps(old(self)),
            r is Ok ==> final(self).pos > old(self).pos,
            exprs_agrees(
                args_p(old(self).tokens@, old(self).pos as int, old(self).in_defer, Seq::empty()),
                r,
                final(self).pos as int,
            ),
        decreases old(self).remaining(), 21nat,
    {
        let ghost ts = self.tokens@;
        let ghost p0 = self.pos as int;
        let ghost d = self.in_defer;
        let mut arguments: Vec<Expr> = Vec::new();
        while !self.check(TokenKind::RParen) && !self.is_at_end()
            invariant
                self.wf(),
                self.keeps(old(self)),
                ts == self.tokens@,
                d == self.in_defer,
                p0 == old(self).pos,
                args_p(ts, p0, d, Seq::empty()) == args_p(ts, self.pos as int, d, evs(arguments@)),
                stops::args_stop(ts, p0, d) == stops::args_stop(ts, self.pos as int, d),
            decreases self.remaining(),
        {
            proof {
                lemma_args_p(ts, self.pos as int, d, evs(arguments@));
            }
            let a = self.parse_expression()?;
            proof {
                lemma_evs_push(arguments@, a);
            }
            arguments.push(a);
            if self.check(TokenKind::Comma) {
                self.advance();
            }
        }
        proof {
            lemma_args_p(ts, self.pos as int, d, evs(arguments@));
        }
        self.expect(TokenKind::RParen, msg)?;
        Ok(arguments)
    }

    /// Postfix forms, chained in any order: `a[i]`, `a.f`, `a.0`, `a.m(..)`,
    /// `f(..)`, `e?`.
    pub(crate) fn parse_call_expression(&mut self) -> (r: Result<Expr, HuziError>)
        requires
            old(self).wf(),
        ensures
            r matches Err(e) ==> err_at(e, final(self).tokens@, final(self).pos as int),
            r is Err ==> final(self).pos == stops::call_stop(old(self).tokens@, old(self).pos as int, old(self).in_defer),
            final(self).wf(),
            final(self).keeps(old(self)),
            r is Ok ==> final(self).pos > old(self).pos,
            expr_agrees(
                call_p(old(self).tokens@, old(self).pos as int, old(self).in_defer),
                r,
                final(self).pos as int,
            ),
        decreases old(self).remaining(), 12nat,
    {
        proof {
            lemma_call_p(old(self).tokens@, old(self).pos as int, old(self).in_defer);
        }
        let ghost ts = self.tokens@;
        let ghost p0 = self.pos as int;
        let ghost d = self.in_defer;
        let mut expr = self.parse_primary_expression()?;
        loop
            invariant_except_break
                call_p(ts, p0, d) == post_rest(ts, self.pos as int, d, ev(expr)),
                stops::call_stop(ts, p0, d) == stops::post_stop(ts, self.pos as int, d),
            invariant
                self.wf(),
                self.keeps(old(self)),
                self.pos > old(self).pos,
                ts == self.tokens@,
                d == self.in_defer,
                p0 == old(self).pos,
            ensures
                call_p(ts, p0, d) == Some((self.pos as int, ev(expr))),
            decreases self.remaining(),
        {
            let ghost q = self.pos as int;
            let ghost a = ev(expr);
            proof {
                lemma_post_rest(ts, q, d, a);
            }
            if self.check(TokenKind::LBracket) {
                self.advance();
                let index = self.parse_expression()?;
                self.expect(TokenKind::RBracket, "Expected ']' after index")?;
                expr = Expr::ArrayIndex(ArrayIndexExpr { array: Box::new(expr), index: Box::new(index) });
            } else if self.check(TokenKind::Dot) {
                self.advance();
                let index: Option<String> = if self.is_at_end() {
                    None
                } else {
                    match self.peek().duplicate() {
                        Token::Int(n) => {
                            self.advance();
                            Some(int_string(n))
                        },
                        _ => None,
                    }
                };
                let is_tuple_idx = index.is_some();
                let field = match index {
                    Some(i) => i,
                    None => self.expect_ident("Expected field name after '.'")?,
                };
                if !is_tuple_idx && self.check(TokenKind::LParen) {
                    self.advance();
                    let arguments = self.parse_arguments("Expected ')' after arguments")?;
                    expr = Expr::MethodCall(MethodCallExpr { receiver: Box::new(expr), method: field, arguments });
                } else {
                    expr = Expr::FieldAccess(FieldAccessExpr { base: Box::new(expr), field });
                }
            } else if self.check(TokenKind::LParen) {
                self.advance();
                let arguments = self.parse_arguments("Expected ')' after arguments")?;
                expr = Expr::Call(CallExpr { callee: Box::new(expr), arguments, type_args: Vec::new() });
            } else if self.check(TokenKind::Question) {
                self.advance();
                expr = Expr::Try(TryExpr { inner: Box::new(expr) });
            } else {
                break;
            }
        }
        Ok(expr)
    }

    /// Literals, names and the forms that start with a name, parenthesised
    /// expressions and tuples, array literals, `if` and `match`.
    #[verifier::rlimit(100)]
    #[verifier::spinoff_prover]
    pub(crate) fn parse_primary_expression(&mut self) -> (r: Result<Expr, HuziError>)
        requires
            old(self).wf(),
        ensures
            r matches Err(e) ==> err_at(e, final(self).tokens@, final(self).pos as int),
            r is Err ==> final(self).pos == stops::primary_stop(old(self).tokens@, old(self).pos as int, old(self).in_defer),
            final(self).wf(),
            final(self).keeps(old(self)),
            r is Ok ==> final(self).pos > old(self).pos,
            expr_agrees(
                primary_p(old(self).tokens@, old(self).pos as int, old(self).in_defer),
                r,
                final(self).pos as int,
            ),
        decreases old(self).remaining(), 11nat,
    {
        proof {
            lemma_primary_p(old(self).tokens@, old(self).pos as int, old(self).in_defer);
        }
        let ghost ts = self.tokens@;
        let ghost p0 = self.pos as int;
        let ghost d = self.in_defer;
        let token = self.peek().duplicate();
        match token {
            Token::True => {
                self.advance();
                Ok(Expr::Literal(Literal::Bool(true)))
            },
            Token::False => {
                self.advance();
                Ok(Expr::Literal(Literal::Bool(false)))
            },
            Token::Int(n) => {
                self.advance();
                Ok(Expr::Literal(Literal::Int(n)))
            },
            Token::Float(n) => {
                self.advance();
                Ok(Expr::Literal(Literal::Float(n)))
            },
            Token::String(s) => {
                self.advance();
                Ok(Expr::Literal(Literal::String(s)))
            },
            Token::Char(c) => {
                self.advance();
                Ok(Expr::Literal(Literal::Char(c)))
            },
            Token::Ident(name) => {
                self.advance();
                let nm = chars_of(name.as_str());
                if eq_str(nm.as_slice(), "box") && self.check(TokenKind::LParen) {
                    return self.parse_box_alloc();
                }
                if eq_str(nm.as_slice(), "null") {
                    return Ok(Expr::Null);
                }
                if eq_str(nm.as_slice(), "vec") && self.check(TokenKind::Less) {
                    if let Some(e) = self.try_parse_vec_empty()? {
                        return Ok(e);
                    }
                }
                if self.check(TokenKind::Less) {
                    if let Some(e) = self.try_parse_generic(name.as_str())? {
                        return Ok(e);
                    }
                }
                if self.check(TokenKind::PathSep) {
                    self.advance();
                    let mut variant = self.expect_ident(
                        "Expected variant or symbol name after '::'",
                    )?;
                    while self.check(TokenKind::PathSep)
                        invariant
                            self.wf(),
                            self.keeps(old(self)),
                            self.pos > old(self).pos,
                            ts == self.tokens@,
                            d == self.in_defer,
                            p0 == old(self).pos,
                            path_end(ts, p0 + 2) == path_more(ts, self.pos as int, variant@),
                            stops::path_stop(ts, p0 + 2) == stops::path_more_stop(ts, self.pos as int),
                            path_end(ts, p0 + 2) is None ==> stops::primary_stop(ts, p0, d) == stops::path_stop(ts, p0 + 2),
                            path_end(ts, p0 + 2) is None ==> primary_p(ts, p0, d) is None,
                            old(self).cur() is Ident,
                        decreases self.remaining(),
                    {
                        self.advance();
                        let seg = self.expect_ident("Expected identifier after '::'")?;
                        let mut v = chars_of(variant.as_str());
                        push_str(&mut v, "::");
                        push_str(&mut v, seg.as_str());
                        variant = string_of(v.as_slice());
                    }
                    let ghost e = self.pos as int;
                    let args = if self.check(TokenKind::LParen) {
                        self.advance();
                        self.parse_arguments("Expected ')' after variant arguments")?
                    } else {
                        let v: Vec<Expr> = Vec::new();
                        assert(evs(v@) =~= Seq::<ExprV>::empty());
                        v
                    };
                    assert(path_end(ts, p0 + 2) == Some((e, variant@)));
                    return Ok(
                        Expr::EnumConstruct(EnumConstructExpr { enum_name: name, variant, args }),
                    );
                }
                if self.check(TokenKind::LBrace) && self.looks_like_struct_literal() {
                    return self.parse_struct_literal(name.as_str());
                }
                Ok(Expr::Ident(name))
            },
            Token::LParen => {
                self.advance();
                self.parse_paren_or_tuple()
            },
            Token::LBracket => {
                self.advance();
                let mut elements: Vec<Expr> = Vec::new();
                if !self.check(TokenKind::RBracket) {
                    loop
                        invariant_except_break
                            elems_p(ts, p0 + 1, d, Seq::empty()) == elems_p(
                                ts,
                                self.pos as int,
                                d,
                                evs(elements@),
                            ),
                            stops::elems_stop(ts, p0 + 1, d) == stops::elems_stop(ts, self.pos as int, d),
                        invariant
                            elems_p(ts, p0 + 1, d, Seq::empty()) is None ==> primary_p(ts, p0, d) is None,
                            elems_p(ts, p0 + 1, d, Seq::empty()) is None ==> stops::primary_stop(ts, p0, d)
                                == stops::elems_stop(ts, p0 + 1, d),
                            old(self).cur() is LBracket,
                            self.wf(),
                            self.keeps(old(self)),
                            self.pos > old(self).pos,
                            ts == self.tokens@,
                            d == self.in_defer,
                            p0 == old(self).pos,
                        ensures
                            stops::elems_stop(ts, p0 + 1, d) == self.pos,
                            elems_p(ts, p0 + 1, d, Seq::empty()) == (if is_kind(
                                ts,
                                self.pos as int,
                                TokenKind::RBracket,
                            ) {
                                Some((self.pos + 1, evs(elements@)))
                            } else {
                                None
                            }),
                        decreases self.remaining(),
                    {
                        let e = self.parse_expression()?;
                        proof {
                            lemma_evs_push(elements@, e);
                        }
                        elements.push(e);
                        if self.check(TokenKind::Comma) {
                            self.advance();
                        } else {
                            break;
                        }
                    }
                }
                self.expect(TokenKind::RBracket, "Expected ']' after array literal")?;
                Ok(Expr::ArrayLiteral(elements))
            },
            Token::If => self.parse_if_expression(),
            Token::Match => self.parse_match_expression(),
            _ => {
                let k = kind_str(token.kind_of());
                let msg = message3("Unexpected token: ", chars_of(k).as_slice(), "");
                Err(HuziError { message: msg, line: self.current_line(), column: self.current_col() })
            },
        }
    }

    /// After `(`: a tuple literal `(a, b)`, or a parenthesised expression.
    pub(crate) fn parse_paren_or_tuple(&mut self) -> (r: Result<Expr, HuziError>)
        requires
            old(self).wf(),
        ensures
            r matches Err(e) ==> err_at(e, final(self).tokens@, final(self).pos as int),
            r is Err ==> final(self).pos == stops::paren_stop(old(self).tokens@, old(self).pos as int, old(self).in_defer),
            final(self).wf(),
            final(self).keeps(old(self)),
            r is Ok ==> final(self).pos > old(self).pos,
            expr_agrees(
                paren_p(old(self).tokens@, old(self).pos as int, old(self).in_defer),
                r,
                final(self).pos as int,
            ),
        decreases old(self).remaining(), 21nat,
    {
        let ghost ts = self.tokens@;
        let ghost p0 = self.pos as int;
        let ghost d = self.in_defer;
        let first = self.parse_expression()?;
        if !self.check(TokenKind::Comma) {
            self.expect(TokenKind::RParen, "Expected ')' after expression")?;
            return Ok(first);
        }
        let mut elements: Vec<Expr> = Vec::new();
        proof {
            lemma_evs_push(elements@, first);
        }
        elements.push(first);
        while self.check(TokenKind::Comma)
            invariant
                self.wf(),
                self.keeps(old(self)),
                self.pos > old(self).pos,
                ts == self.tokens@,
                d == self.in_defer,
                p0 == old(self).pos,
                paren_p(ts, p0, d) == tuple_more(ts, self.pos as int, d, evs(elements@)),
                stops::paren_stop(ts, p0, d) == stops::tuple_more_stop(ts, self.pos as int, d),
            decreases self.remaining(),
        {
            self.advance();
            let e = self.parse_expression()?;
            proof {
                lemma_evs_push(elements@, e);
            }
            elements.push(e);
        }
        self.expect(TokenKind::RParen, "Expected ')' after tuple literal")?;
        Ok(Expr::TupleLiteral(elements))
    }

    /// `if cond { .. } else { .. }` as an expression; `else if` chains nest.
    pub(crate) fn parse_if_expression(&mut self) -> (r: Result<Expr, HuziError>)
        requires
            old(self).wf(),
            old(self).cur() is If,
        ensures
            r matches Err(e) ==> err_at(e, final(self).tokens@, final(self).pos as int),
            r is Err ==> final(self).pos == stops::if_expr_stop(old(self).tokens@, old(self).pos as int, old(self).in_defer),
            final(self).wf(),
            final(self).keeps(old(self)),
            r is Ok ==> final(self).pos > old(self).pos,
            expr_agrees(
                if_expr_p(old(self).tokens@, old(self).pos as int, old(self).in_defer),
                r,
                final(self).pos as int,
            ),
        decreases old(self).remaining(), 10nat,
    {
        self.advance();
        let condition = self.parse_expression()?;
        let then_branch = self.parse_block()?;
        self.expect(TokenKind::Else, "Expected 'else' in if expression")?;
        let else_branch = if self.check(TokenKind::If) {
            let (line, col) = (self.current_line(), self.current_col());
            let nested = self.parse_if_expression()?;
            self.expr_block(nested, line, col)
        } else {
            self.parse_block()?
        };
        Ok(Expr::If(IfExpr { condition: Box::new(condition), then_branch, else_branch }))
    }

    /// `match expr { pattern => body, ... }`; an arm body is a block or one
    /// expression.
    pub(crate) fn parse_match_expression(&mut self) -> (r: Result<Expr, HuziError>)
        requires
            old(self).wf(),
            old(self).cur() is Match,
        ensures
            r matches Err(e) ==> err_at(e, final(self).tokens@, final(self).pos as int),
            r is Err ==> final(self).pos == stops::match_stop(old(self).tokens@, old(self).pos as int, old(self).in_defer),
            final(self).wf(),
            final(self).keeps(old(self)),
            r is Ok ==> final(self).pos > old(self).pos,
            expr_agrees(
                match_p(old(self).tokens@, old(self).pos as int, old(self).in_defer),
                r,
                final(self).pos as int,
            ),
        decreases old(self).remaining(), 10nat,
    {
        let ghost ts = self.tokens@;
        let ghost p0 = self.pos as int;
        let ghost d = self.in_defer;

        self.advance();
        let scrutinee = self.parse_expression()?;
        self.expect(TokenKind::LBrace, "Expected '{' after match scrutinee")?;
        let mut arms: Vec<MatchArm> = Vec::new();
        while !self.check(TokenKind::RBrace) && !self.is_at_end()
            invariant
                self.wf(),
                self.keeps(old(self)),
                self.pos > old(self).pos,
                ts == self.tokens@,
                d == self.in_defer,
                p0 == old(self).pos,
                stops::match_stop(ts, p0, d) == stops::arms_stop(ts, self.pos as int, d),
                match_p(ts, p0, d) == (match arms_rest(ts, self.pos as int, d, armvs(arms@)) {
                    Some((f, a)) => Some((f, ExprV::Match(Box::new(ev(scrutinee)), a))),
                    None => None,
                }),
            decreases self.remaining(),
        {
            let pattern = self.parse_pattern()?;
            self.expect(TokenKind::FatArrow, "Expected '=>' after match pattern")?;
            let body = if self.check(TokenKind::LBrace) {
                self.parse_block()?
            } else {
                let (line, col) = (self.current_line(), self.current_col());
                let expr = self.parse_expression()?;
                self.expr_block(expr, line, col)
            };
            let arm = MatchArm { pattern, body };
            proof {
                lemma_armvs_push(arms@, arm);
            }
            arms.push(arm);
            if self.check(TokenKind::Comma) {
                self.advance();
            }
        }
        self.expect(TokenKind::RBrace, "Expected '}' after match arms")?;
        Ok(Expr::Match(MatchExpr { scrutinee: Box::new(scrutinee), arms }))
    }

    /// `Enum::Variant`, `Enum::Variant(a, b)`, or `_`.
    pub(crate) fn parse_pattern(&mut self) -> (r: Result<Pattern, HuziError>)
        requires
            old(self).wf(),
        ensures
            r matches Err(e) ==> err_at(e, final(self).tokens@, final(self).pos as int),
            r is Err ==> final(self).pos == stops::pattern_stop(old(self).tokens@, old(self).pos as int),
            final(self).wf(),
            final(self).keeps(old(self)),
            r is Ok ==> final(self).pos > old(self).pos,
            match pattern_parse(old(self).tokens@, old(self).pos as int) {
                Some((e, pv)) => final(self).pos == e && (r matches Ok(pt) && pat_view(pt) == pv),
                None => r is Err,
            },
    {
        reveal(pattern_parse);
        let ghost ts = self.tokens@;
        let ghost p0 = self.pos as int;
        let is_wild = match self.peek() {
            Token::Ident(name) => {
                let nm = chars_of(name.as_str());
                eq_str(nm.as_slice(), "_")
            },
            _ => false,
        };
        if is_wild {
            self.advance();
            return Ok(Pattern::Wildcard);
        }
        let enum_name = self.expect_ident("Expected pattern (variant or '_')")?;
        self.expect(TokenKind::PathSep, "Expected '::' after enum name in pattern")?;
        let variant = self.expect_ident("Expected variant name after '::'")?;
        let bindings = if self.check(TokenKind::LParen) {
            self.advance();
            let mut bindings: Vec<String> = Vec::new();
            if !self.check(TokenKind::RParen) {
                let ghost q0 = self.pos as int;
                assert(pattern_parse(ts, p0) == (match bindings_loop(ts, q0, Seq::empty()) {
                    Some((e, bs)) => Some((e, PatView::Variant(enum_name@, variant@, bs))),
                    None => None,
                }));
                assert(bindings@.map_values(|b: String| b@) =~= Seq::<Seq<char>>::empty());
                loop
                    invariant_except_break
                        bindings_loop(ts, q0, Seq::empty()) == bindings_loop(
                            ts,
                            self.pos as int,
                            bindings@.map_values(|b: String| b@),
                        ),
                        stops::pattern_stop(ts, p0) == stops::bindings_stop(ts, self.pos as int),
                    invariant
                        self.wf(),
                        self.keeps(old(self)),
                        self.pos > old(self).pos,
                        ts == self.tokens@,
                        p0 == old(self).pos,
                        pattern_parse(ts, p0) == (match bindings_loop(ts, q0, Seq::empty()) {
                            Some((e, bs)) => Some((e, PatView::Variant(enum_name@, variant@, bs))),
                            None => None,
                        }),
                    ensures
                        stops::pattern_stop(ts, p0) == self.pos,
                        bindings_loop(ts, q0, Seq::empty()) == (if is_kind(
                            ts,
                            self.pos as int,
                            TokenKind::RParen,
                        ) {
                            Some((self.pos + 1, bindings@.map_values(|b: String| b@)))
                        } else {
                            None
                        }),
                    decreases self.remaining(),
                {
                    let ghost before = bindings@;
                    let b = self.expect_ident("Expected binding name in pattern")?;
                    let ghost bv = b@;
                    bindings.push(b);
                    assert(bindings@.map_values(|b: String| b@) =~= before.map_values(
                        |b: String| b@,
                    ).push(bv));
                    if self.check(TokenKind::Comma) {
                        self.advance();
                    } else {
                        break;
                    }
                }
            }
            self.expect(TokenKind::RParen, "Expected ')' after pattern bindings")?;
            bindings
        } else {
            Vec::new()
        };
        let pt = Pattern::Variant { enum_name, variant, bindings };
        assert(pat_view(pt) == pattern_parse(ts, p0).unwrap().1) by {
            if !is_kind(ts, p0 + 3, TokenKind::LParen) || is_kind(ts, p0 + 4, TokenKind::RParen) {
                assert(bindings@.map_values(|b: String| b@) =~= Seq::<Seq<char>>::empty());
            }
        }
        Ok(pt)
    }

    /// Whether `{` starts a struct literal: `{ name :` follows.
    pub(crate) fn looks_like_struct_literal(&self) -> (r: bool)
        requires
            self.wf(),
        ensures
            r == (self.pos + 2 < self.tokens@.len() && self.tokens@[self.pos + 1].token is Ident
                && self.tokens@[self.pos + 2].token is Colon),
    {
        let a = match self.peek_at(1) {
            Some(Token::Ident(_)) => true,
            _ => false,
        };
        let b = match self.peek_at(2) {
            Some(Token::Colon) => true,
            _ => false,
        };
        a && b
    }

    /// `{ field: expr, ... }` after a struct name.
    pub(crate) fn parse_struct_literal(&mut self, name: &str) -> (r: Result<Expr, HuziError>)
        requires
            old(self).wf(),
        ensures
            r matches Err(e) ==> err_at(e, final(self).tokens@, final(self).pos as int),
            r is Err ==> final(self).pos == stops::fields_stop(old(self).tokens@, old(self).pos as int, old(self).in_defer),
            final(self).wf(),
            final(self).keeps(old(self)),
            r is Ok ==> final(self).pos > old(self).pos,
            match fields_p(old(self).tokens@, old(self).pos as int, old(self).in_defer) {
                Some((e, fs)) => r matches Ok(x) && final(self).pos == e && ev(x)
                    == ExprV::StructLiteral(name@, fs, Seq::empty()),
                None => r is Err,
            },
        decreases old(self).remaining(), 9nat,
    {
        let fields = self.parse_struct_fields()?;
        Ok(
            Expr::StructLiteral(
                StructLiteralExpr {
                    name: string_of(chars_of(name).as_slice()),
                    fields,
                    type_args: Vec::new(),
                },
            ),
        )
    }

    pub(crate) fn parse_struct_fields(&mut self) -> (r: Result<Vec<(String, Expr)>, HuziError>)
        requires
            old(self).wf(),
        ensures
            r matches Err(e) ==> err_at(e, final(self).tokens@, final(self).pos as int),
            r is Err ==> final(self).pos == stops::fields_stop(old(self).tokens@, old(self).pos as int, old(self).in_defer),
            final(self).wf(),
            final(self).keeps(old(self)),
            r is Ok ==> final(self).pos > old(self).pos,
            match fields_p(old(self).tokens@, old(self).pos as int, old(self).in_defer) {
                Some((e, fs)) => r matches Ok(v) && final(self).pos == e && fldvs(v@) == fs,
                None => r is Err,
            },
        decreases old(self).remaining(), 8nat,
    {
        let ghost ts = self.tokens@;
        let ghost p0 = self.pos as int;
        let ghost d = self.in_defer;
        self.expect(TokenKind::LBrace, "Expected '{' in struct literal")?;
        let mut fields: Vec<(String, Expr)> = Vec::new();
        while !self.check(TokenKind::RBrace) && !self.is_at_end()
            invariant_except_break
                fields_p(ts, p0, d) == fields_rest(ts, self.pos as int, d, fldvs(fields@)),
                stops::fields_stop(ts, p0, d) == stops::fields_rest_stop(ts, self.pos as int, d),
            invariant
                self.wf(),
                self.keeps(old(self)),
                self.pos > old(self).pos,
                ts == self.tokens@,
                d == self.in_defer,
                p0 == old(self).pos,
            ensures
                stops::fields_stop(ts, p0, d) == self.pos,
                fields_p(ts, p0, d) == (if is_kind(ts, self.pos as int, TokenKind::RBrace) {
                    Some((self.pos + 1, fldvs(fields@)))
                } else {
                    None
                }),
            decreases self.remaining(),
        {
            let field_name = self.expect_ident("Expected field name in struct literal")?;
            self.expect(TokenKind::Colon, "Expected ':' after field name in struct literal")?;
            let value = self.parse_expression()?;
            proof {
                lemma_fldvs_push(fields@, (field_name, value));
            }
            fields.push((field_name, value));
            if self.check(TokenKind::Comma) {
                self.advance();
            } else {
                break;
            }
        }
        self.expect(TokenKind::RBrace, "Expected '}' after struct literal fields")?;
        Ok(fields)
    }

    /// `name<T1, T2>(args)` or `name<T1, T2> { .. }`; anything else leaves
    /// the position unchanged and gives `None`.
    #[verifier::rlimit(100)]
    #[verifier::spinoff_prover]
    pub(crate) fn try_parse_generic(&mut self, name: &str) -> (r: Result<Option<Expr>, HuziError>)
        requires
            old(self).wf(),
        ensures
            r matches Err(e) ==> err_at(e, final(self).tokens@, final(self).pos as int),
            r is Err ==> final(self).pos == stops::generic_stop(old(self).tokens@, old(self).pos as int, old(self).in_defer),
            final(self).wf(),
            final(self).keeps(old(self)),
            r matches Ok(None) ==> final(self).pos == old(self).pos,
            match generic_p(old(self).tokens@, old(self).pos as int, old(self).in_defer, name@) {
                Some(Some((e, t))) => final(self).pos == e && (r matches Ok(Some(x)) && ev(x) == t),
                Some(None) => r matches Ok(None),
                None => r is Err,
            },
        decreases old(self).remaining(), 10nat,
    {
        reveal(generic_head);
        let ghost ts = self.tokens@;
        let ghost p0 = self.pos as int;
        let saved = self.pos;
        if !self.check(TokenKind::Less) {
            return Ok(None);
        }
        self.advance();
        let mut type_args: Vec<Type> = Vec::new();
        while !self.check(TokenKind::Greater) && !self.is_at_end()
            invariant_except_break
                generic_head(ts, p0) == generic_loop(ts, self.pos as int, tvs(type_args@)),
            invariant
                self.wf(),
                self.keeps(old(self)),
                saved == old(self).pos,
                self.pos > saved,
                ts == self.tokens@,
                p0 == saved,
            ensures
                generic_head(ts, p0) == (if type_args@.len() > 0 && is_kind(
                    ts,
                    self.pos as int,
                    TokenKind::Greater,
                ) {
                    Some((self.pos + 1, tvs(type_args@)))
                } else {
                    None
                }),
            decreases self.remaining(),
        {
            match self.parse_type() {
                Ok(ty) => {
                    proof {
                        lemma_tvs_push(type_args@, ty);
                    }
                    type_args.push(ty);
                },
                Err(_) => {
                    self.pos = saved;
                    return Ok(None);
                },
            }
            if self.check(TokenKind::Comma) {
                self.advance();
            } else {
                break;
            }
        }
        if type_args.len() == 0 || !self.check(TokenKind::Greater) {
            self.pos = saved;
            return Ok(None);
        }
        self.advance();
        if self.check(TokenKind::LParen) {
            self.advance();
            let arguments = self.parse_arguments("Expected ')' after arguments")?;
            let callee = Expr::Ident(string_of(chars_of(name).as_slice()));
            assert(ev(callee) == ExprV::Ident(name@));
            return Ok(
                Some(
                    Expr::Call(
                        CallExpr {
                            callee: Box::new(callee),
                            arguments,
                            type_args,
                        },
                    ),
                ),
            );
        }
        if self.check(TokenKind::LBrace) && self.looks_like_struct_literal() {
            let fields = self.parse_struct_fields()?;
            return Ok(
                Some(
                    Expr::StructLiteral(
                        StructLiteralExpr {
                            name: string_of(chars_of(name).as_slice()),
                            fields,
                            type_args,
                        },
                    ),
                ),
            );
        }
        self.pos = saved;
        Ok(None)
    }

    /// `(expr)` after `box`.
    pub(crate) fn parse_box_alloc(&mut self) -> (r: Result<Expr, HuziError>)
        requires
            old(self).wf(),
        ensures
            r matches Err(e) ==> err_at(e, final(self).tokens@, final(self).pos as int),
            r is Err ==> final(self).pos == stops::box_stop(old(self).tokens@, old(self).pos as int, old(self).in_defer),
            final(self).wf(),
            final(self).keeps(old(self)),
            r is Ok ==> final(self).pos > old(self).pos,
            expr_agrees(
                box_p(old(self).tokens@, old(self).pos as int, old(self).in_defer),
                r,
                final(self).pos as int,
            ),
        decreases old(self).remaining(), 10nat,
    {
        self.expect(TokenKind::LParen, "Expected '(' after 'box'")?;
        let inner = self.parse_expression()?;
        self.expect(TokenKind::RParen, "Expected ')' after box expression")?;
        Ok(Expr::BoxAlloc(Box::new(inner)))
    }

    /// `<T>()` after `vec`: an empty vector of `T`. Anything short of the
    /// full form leaves the position unchanged and gives `None`.
    pub(crate) fn try_parse_vec_empty(&mut self) -> (r: Result<Option<Expr>, HuziError>)
        requires
            old(self).wf(),
            old(self).cur() is Less,
        ensures
            r matches Err(e) ==> err_at(e, final(self).tokens@, final(self).pos as int),
            r is Err ==> final(self).pos == stops::vec_empty_stop(old(self).tokens@, old(self).pos as int),
            final(self).wf(),
            final(self).keeps(old(self)),
            r matches Ok(None) ==> final(self).pos == old(self).pos,
            match vec_empty_parse(old(self).tokens@, old(self).pos as int) {
                Some(Some((e, t))) => final(self).pos == e && (r matches Ok(Some(x)) && ev(x)
                    == ExprV::VecEmpty(t)),
                Some(None) => r matches Ok(None),
                None => r is Err,
            },
        decreases old(self).remaining(), 10nat,
    {
        reveal(vec_empty_parse);
        let saved = self.pos;
        self.advance();
        let elem_ty = match self.parse_type() {
            Ok(t) => t,
            Err(_) => {
                self.pos = saved;
                return Ok(None);
            },
        };
        if !self.check(TokenKind::Greater) {
            self.pos = saved;
            return Ok(None);
        }
        self.advance();
        if !self.check(TokenKind::LParen) {
            self.pos = saved;
            return Ok(None);
        }
        self.advance();
        if !self.check(TokenKind::RParen) {
            return Err(self.error_here("vec<T>() takes no arguments (empty vec has no elements)"));
        }
        self.advance();
        Ok(Some(Expr::VecEmpty(elem_ty)))
    }
}

} // verus!
