//! Recursive-descent parser from tokens to the syntax tree, with
//! statement-level error recovery.
use crate::ast::{span_ordered, Block, Expr, ExprStmt, Program, Span, Spanned, Stmt};
use crate::render::HuziError;
use crate::text::{push_str, string_of};
use vstd::prelude::*;

pub mod token;
pub mod grammar;
pub mod syntax;
pub mod tree;
pub mod stops;
mod expr;
mod stmt;

pub use token::{SpannedToken, Token, TokenKind};

verus! {

/// At most this many errors are collected by one `parse_recoverable`.
pub const MAX_RECOVERY_ERRORS: usize = 32;

/// The parser's state: the tokens (ending with `Eof`) and the position of
/// the next one.
pub struct Parser {
    pub tokens: Vec<SpannedToken>,
    pub pos: usize,
    pub in_function: bool,
    pub in_defer: bool,
}

/// A token sequence as the lexer delivers it: non-empty and ending in
/// `Eof`.
pub open spec fn tokens_ok(ts: Seq<SpannedToken>) -> bool {
    ts.len() > 0 && ts.last().token is Eof
}

/// Error `e` is reported at the token at `p`: its line and column.
pub open spec fn err_at(e: HuziError, ts: Seq<SpannedToken>, p: int) -> bool {
    0 <= p < ts.len() && e.line == ts[p].line && e.column == ts[p].column
}

/// Where recovery scanning from `p` stops, on the line `line` it started:
/// just past a `;`, at a `}`, at the end of input or at a token on
/// another line.
pub open spec fn sync_scan(ts: Seq<SpannedToken>, p: int, line: usize) -> int
    decreases ts.len() - p,
{
    if p < 0 || grammar::at_end_at(ts, p) {
        p
    } else if grammar::is_kind(ts, p, TokenKind::Semi) {
        p + 1
    } else if grammar::is_kind(ts, p, TokenKind::RBrace) || ts[p].line != line {
        p
    } else {
        sync_scan(ts, p + 1, line)
    }
}

/// Where parsing resumes after a statement failed with the parser at `q`:
/// the recovery scan from `q`, moved on by one token when it did not move
/// and input remains.
pub open spec fn sync_to(ts: Seq<SpannedToken>, q: int) -> int {
    let e = sync_scan(ts, q, ts[q].line);
    if e == q && !grammar::at_end_at(ts, q) {
        q + 1
    } else {
        e
    }
}

/// Recovery from `p` with room for `budget` more errors yields the
/// statements `ss` and the errors `es`: at the end of input nothing; a
/// statement the grammar reads is kept and parsing goes on after it; a
/// statement the grammar cannot read gives one error, reported at the token
/// where the grammar stops on it (`stops::stmt_stop`), and parsing resumes
/// where the synchronisation from there leads, unless that error was the
/// last one allowed.
pub open spec fn recovery(
    ts: Seq<SpannedToken>,
    p: int,
    d: bool,
    ss: Seq<Spanned<Stmt>>,
    es: Seq<HuziError>,
    budget: nat,
) -> bool
    decreases ss.len() + es.len(),
{
    if p < 0 || grammar::at_end_at(ts, p) {
        ss.len() == 0 && es.len() == 0
    } else {
        match syntax::stmt_p(ts, p, d) {
            Some((e, t)) => ss.len() > 0 && read_at(ts, p, d, ss[0]) && recovery(
                ts,
                e,
                d,
                ss.drop_first(),
                es,
                budget,
            ),
            None => {
                let q = stops::stmt_stop(ts, p, d);
                es.len() > 0 && err_at(es[0], ts, q) && if budget <= 1 {
                    ss.len() == 0 && es.len() == 1
                } else {
                    recovery(ts, sync_to(ts, q), d, ss, es.drop_first(), (budget - 1) as nat)
                }
            },
        }
    }
}

/// Recovery is fixed by the tokens: two recoveries from the same position
/// with the same budget yield as many statements, with the same trees and
/// ranges, and as many errors, at the same lines and columns. So `parse`
/// fails exactly when `parse_recoverable` reports an error, and at the
/// position of its first one.
pub proof fn law_recovery_determined(
    ts: Seq<SpannedToken>,
    p: int,
    d: bool,
    ss1: Seq<Spanned<Stmt>>,
    es1: Seq<HuziError>,
    ss2: Seq<Spanned<Stmt>>,
    es2: Seq<HuziError>,
    budget: nat,
)
    requires
        recovery(ts, p, d, ss1, es1, budget),
        recovery(ts, p, d, ss2, es2, budget),
    ensures
        ss1.len() == ss2.len(),
        es1.len() == es2.len(),
        forall|i: int| 0 <= i < ss1.len() ==> ss1[i].span == ss2[i].span && tree::sv(ss1[i].node) == tree::sv(ss2[i].node),
        forall|i: int| 0 <= i < es1.len() ==> es1[i].line == es2[i].line && es1[i].column == es2[i].column,
    decreases ss1.len() + es1.len(),
{
    if p < 0 || grammar::at_end_at(ts, p) {
    } else {
        match syntax::stmt_p(ts, p, d) {
            Some((e, t)) => {
                law_recovery_determined(ts, e, d, ss1.drop_first(), es1, ss2.drop_first(), es2, budget);
                assert forall|i: int| 0 <= i < ss1.len() implies ss1[i].span == ss2[i].span && tree::sv(ss1[i].node) == tree::sv(ss2[i].node) by {
                    if i > 0 {
                        assert(ss1[i] == ss1.drop_first()[i - 1]);
                        assert(ss2[i] == ss2.drop_first()[i - 1]);
                    }
                }
            },
            None => {
                let q = stops::stmt_stop(ts, p, d);
                if budget > 1 {
                    law_recovery_determined(ts, sync_to(ts, q), d, ss1, es1.drop_first(), ss2, es2.drop_first(), (budget - 1) as nat);
                    assert forall|i: int| 0 <= i < es1.len() implies es1[i].line == es2[i].line && es1[i].column == es2[i].column by {
                        if i > 0 {
                            assert(es1[i] == es1.drop_first()[i - 1]);
                            assert(es2[i] == es2.drop_first()[i - 1]);
                        }
                    }
                }
            },
        }
    }
}

/// At the end of input recovery yields nothing more.
proof fn lemma_recovery_at_end(
    ts: Seq<SpannedToken>,
    p: int,
    d: bool,
    ss: Seq<Spanned<Stmt>>,
    es: Seq<HuziError>,
    budget: nat,
)
    requires
        grammar::at_end_at(ts, p),
    ensures
        recovery(ts, p, d, Seq::empty(), Seq::empty(), budget),
        ss + Seq::<Spanned<Stmt>>::empty() == ss,
        es + Seq::<HuziError>::empty() == es,
{
    assert(ss + Seq::<Spanned<Stmt>>::empty() =~= ss);
    assert(es + Seq::<HuziError>::empty() =~= es);
}

/// The statement `s` is what the grammar reads at `p`: the same tree and the
/// range from the token at `p` to the end of what it consumed.
pub open spec fn read_at(ts: Seq<SpannedToken>, p: int, d: bool, s: Spanned<Stmt>) -> bool {
    match syntax::stmt_p(ts, p, d) {
        Some((e, t)) => t == tree::sv(s.node) && s.span == syntax::stmt_span(ts, p, e),
        None => false,
    }
}

impl Parser {
    pub open spec fn wf(&self) -> bool {
        tokens_ok(self.tokens@) && self.pos < self.tokens@.len()
    }

    /// What a parsing step keeps: the tokens and whether it stands inside
    /// a `defer`; the position never moves back.
    pub open spec fn keeps(&self, other: &Parser) -> bool {
        &&& self.tokens@ == other.tokens@
        &&& self.in_defer == other.in_defer
        &&& self.pos >= other.pos
    }

    /// Tokens not yet consumed.
    pub open spec fn remaining(&self) -> nat {
        (self.tokens@.len() - self.pos) as nat
    }

    pub open spec fn at_end(&self) -> bool {
        self.pos >= self.tokens@.len() || self.tokens@[self.pos as int].token is Eof
    }

    pub open spec fn cur(&self) -> Token {
        self.tokens@[self.pos as int].token
    }

    pub fn new(tokens: Vec<SpannedToken>) -> (r: Parser)
        requires
            tokens_ok(tokens@),
        ensures
            r.wf(),
            r.tokens@ == tokens@,
            r.pos == 0,
            !r.in_function,
            !r.in_defer,
    {
        Parser { tokens, pos: 0, in_function: false, in_defer: false }
    }

    /// Statement-level recovery: a failing statement is recorded as an
    /// error, the parser skips to the next synchronisation point, and all
    /// good statements and all errors come back together (at most
    /// `MAX_RECOVERY_ERRORS` errors; after the last one parsing stops).
    #[verifier::spinoff_prover]
    pub fn parse_recoverable(&mut self) -> (r: (Program, Vec<HuziError>))
        requires
            old(self).wf(),
        ensures
            final(self).wf(),
            final(self).keeps(old(self)),
            recovery(
                old(self).tokens@,
                old(self).pos as int,
                old(self).in_defer,
                r.0.statements@,
                r.1@,
                MAX_RECOVERY_ERRORS as nat,
            ),
            r.1.len() <= MAX_RECOVERY_ERRORS,
            r.1.len() < MAX_RECOVERY_ERRORS ==> final(self).at_end(),
            crate::symbols::stmts_ok(r.0.statements@),
            r.1.len() == 0 <==> syntax::program_tree(
                old(self).tokens@,
                old(self).pos as int,
                old(self).in_defer,
            ) is Some,
            r.1.len() == 0 ==> Some(tree::ssvs(r.0.statements@)) == syntax::program_tree(
                old(self).tokens@,
                old(self).pos as int,
                old(self).in_defer,
            ),
    {
        let mut statements: Vec<Spanned<Stmt>> = Vec::new();
        let mut errors: Vec<HuziError> = Vec::new();
        let ghost ts = self.tokens@;
        let ghost d = self.in_defer;
        proof {
            assert forall|ss2: Seq<Spanned<Stmt>>, es2: Seq<HuziError>|
                #[trigger] recovery(ts, self.pos as int, d, ss2, es2, MAX_RECOVERY_ERRORS as nat)
                implies recovery(ts, old(self).pos as int, d, statements@ + ss2, errors@ + es2, MAX_RECOVERY_ERRORS as nat) by {
                assert(statements@ + ss2 =~= ss2);
                assert(errors@ + es2 =~= es2);
            }
            if self.at_end() {
                lemma_recovery_at_end(ts, self.pos as int, d, statements@, errors@, MAX_RECOVERY_ERRORS as nat);
            }
        }
        while !self.is_at_end()
            invariant_except_break
                ts == self.tokens@,
                d == self.in_defer,
                forall|ss2: Seq<Spanned<Stmt>>, es2: Seq<HuziError>|
                    #[trigger] recovery(ts, self.pos as int, d, ss2, es2, (MAX_RECOVERY_ERRORS - errors@.len()) as nat)
                    ==> recovery(ts, old(self).pos as int, d, statements@ + ss2, errors@ + es2, MAX_RECOVERY_ERRORS as nat),
                self.at_end() ==> recovery(ts, old(self).pos as int, d, statements@, errors@, MAX_RECOVERY_ERRORS as nat),
                self.wf(),
                self.keeps(old(self)),
                errors.len() < MAX_RECOVERY_ERRORS,
                crate::symbols::stmts_ok(statements@),
                errors.len() == 0 ==> (syntax::program_tree(
                    old(self).tokens@,
                    old(self).pos as int,
                    old(self).in_defer,
                ) == syntax::program_rest(
                    self.tokens@,
                    self.pos as int,
                    self.in_defer,
                    tree::ssvs(statements@),
                )),
                errors.len() > 0 ==> syntax::program_tree(
                    old(self).tokens@,
                    old(self).pos as int,
                    old(self).in_defer,
                ) is None,
            ensures
                recovery(ts, old(self).pos as int, d, statements@, errors@, MAX_RECOVERY_ERRORS as nat),
                self.wf(),
                self.keeps(old(self)),
                errors.len() <= MAX_RECOVERY_ERRORS,
                errors.len() < MAX_RECOVERY_ERRORS ==> self.at_end(),
                crate::symbols::stmts_ok(statements@),
                errors.len() == 0 ==> (syntax::program_tree(
                    old(self).tokens@,
                    old(self).pos as int,
                    old(self).in_defer,
                ) == syntax::program_rest(
                    self.tokens@,
                    self.pos as int,
                    self.in_defer,
                    tree::ssvs(statements@),
                )),
                errors.len() > 0 ==> syntax::program_tree(
                    old(self).tokens@,
                    old(self).pos as int,
                    old(self).in_defer,
                ) is None,
            decreases self.remaining(),
        {
            let ghost before = self.pos;
            match self.parse_statement() {
                Ok(stmt) => {
                    proof {
                        assert(statements@.push(stmt).drop_last() =~= statements@);
                        tree::lemma_ssvs_push(statements@, stmt);
                        assert(read_at(self.tokens@, before as int, self.in_defer, stmt));
                        let b = (MAX_RECOVERY_ERRORS - errors@.len()) as nat;
                        let e = self.pos as int;
                        assert forall|ss2: Seq<Spanned<Stmt>>, es2: Seq<HuziError>|
                            #[trigger] recovery(ts, e, d, ss2, es2, b)
                            implies recovery(ts, old(self).pos as int, d, statements@.push(stmt) + ss2, errors@ + es2, MAX_RECOVERY_ERRORS as nat) by {
                            let ss3 = seq![stmt] + ss2;
                            assert(ss3.drop_first() =~= ss2);
                            assert(ss3[0] == stmt);
                            assert(recovery(ts, before as int, d, ss3, es2, b));
                            assert(statements@ + ss3 =~= statements@.push(stmt) + ss2);
                        }
                    }
                    statements.push(stmt);
                },
                Err(err) => {
                    let ghost q = self.pos as int;
                    let ghost b = (MAX_RECOVERY_ERRORS - errors@.len()) as nat;
                    let ghost prev_errors = errors@;
                    proof {
                        assert(syntax::stmt_p(ts, before as int, d) is None);
                        assert(err_at(err, ts, q));
                    }
                    errors.push(err);
                    if errors.len() >= MAX_RECOVERY_ERRORS {
                        proof {
                            let es2 = seq![err];
                            assert(es2.len() == 1 && es2[0] == err);
                            assert(recovery(ts, before as int, d, Seq::empty(), es2, b));
                            assert(statements@ + Seq::<Spanned<Stmt>>::empty() =~= statements@);
                            assert(prev_errors + es2 =~= errors@);
                        }
                        break;
                    }
                    self.synchronize();
                    proof {
                        let nb = (MAX_RECOVERY_ERRORS - errors@.len()) as nat;
                        let np = self.pos as int;
                        assert(np == sync_to(ts, q));
                        assert forall|ss2: Seq<Spanned<Stmt>>, es2: Seq<HuziError>|
                            #[trigger] recovery(ts, np, d, ss2, es2, nb)
                            implies recovery(ts, old(self).pos as int, d, statements@ + ss2, errors@ + es2, MAX_RECOVERY_ERRORS as nat) by {
                            let es3 = seq![err] + es2;
                            assert(es3.drop_first() =~= es2);
                            assert(es3[0] == err);
                            assert(recovery(ts, before as int, d, ss2, es3, b));
                            assert(prev_errors + es3 =~= errors@ + es2);
                        }
                    }
                },
            }
            proof {
                if self.at_end() {
                    lemma_recovery_at_end(ts, self.pos as int, d, statements@, errors@, (MAX_RECOVERY_ERRORS - errors@.len()) as nat);
                }
            }
        }
        let r = (Program { statements }, errors);
        proof {
            assert(recovery(ts, old(self).pos as int, d, r.0.statements@, r.1@, MAX_RECOVERY_ERRORS as nat));
        }
        r
    }

    /// Fails fast: the first error of `parse_recoverable`, else the program.
    pub fn parse(&mut self) -> (r: Result<Program, HuziError>)
        requires
            old(self).wf(),
        ensures
            exists|ss: Seq<Spanned<Stmt>>, es: Seq<HuziError>|
                recovery(
                    old(self).tokens@,
                    old(self).pos as int,
                    old(self).in_defer,
                    ss,
                    es,
                    MAX_RECOVERY_ERRORS as nat,
                ) && if es.len() == 0 {
                    r matches Ok(p) && p.statements@ == ss
                } else {
                    r == Err::<Program, HuziError>(es[0])
                },
            final(self).wf(),
            final(self).keeps(old(self)),
            r matches Ok(p) ==> crate::symbols::stmts_ok(p.statements@),
            match syntax::program_tree(old(self).tokens@, old(self).pos as int, old(self).in_defer) {
                Some(t) => r matches Ok(p) && tree::ssvs(p.statements@) == t,
                None => r is Err,
            },
    {
        let (program, errors) = self.parse_recoverable();
        let ghost es = errors@;
        let ghost ss = program.statements@;
        if errors.len() > 0 {
            let mut errors = errors;
            let first = errors.remove(0);
            assert(first == es[0]);
            return Err(first);
        }
        Ok(program)
    }

    /// Skips to the next `;` (consumed), `}`, end of input or the start of a
    /// later line; always moves at least one token unless at the end.
    fn synchronize(&mut self)
        requires
            old(self).wf(),
        ensures
            final(self).wf(),
            final(self).keeps(old(self)),
            !old(self).at_end() ==> final(self).pos > old(self).pos,
            final(self).pos == sync_to(old(self).tokens@, old(self).pos as int),
    {
        let start = self.pos;
        let fail_line = self.tokens[start].line;
        let ghost ts = self.tokens@;
        while !self.is_at_end()
            invariant_except_break
                self.wf(),
                self.keeps(old(self)),
                start == old(self).pos,
                ts == self.tokens@,
                fail_line == ts[start as int].line,
                sync_scan(ts, self.pos as int, fail_line) == sync_scan(ts, start as int, fail_line),
            ensures
                self.wf(),
                self.keeps(old(self)),
                start == old(self).pos,
                self.pos == sync_scan(ts, start as int, fail_line),
            decreases self.remaining(),
        {
            if self.check(TokenKind::Semi) {
                self.advance();
                break;
            }
            if self.check(TokenKind::RBrace) {
                break;
            }
            let line = self.tokens[self.pos].line;
            if line != fail_line {
                break;
            }
            self.advance();
        }
        if self.pos == start && !self.is_at_end() {
            self.advance();
        }
    }

    /// Parses one statement and records its range: from the first token to
    /// one past the column of the last consumed token.
    fn parse_statement(&mut self) -> (r: Result<Spanned<Stmt>, HuziError>)
        requires
            old(self).wf(),
        ensures
            r matches Err(e) ==> err_at(e, final(self).tokens@, final(self).pos as int),
            r is Err ==> final(self).pos == stops::stmt_stop(old(self).tokens@, old(self).pos as int, old(self).in_defer),
            final(self).wf(),
            final(self).keeps(old(self)),
            r matches Ok(s) ==> crate::symbols::stmt_ok(s),
            r is Ok ==> final(self).pos > old(self).pos,
            match syntax::stmt_p(old(self).tokens@, old(self).pos as int, old(self).in_defer) {
                Some((e, st)) => r matches Ok(s) && final(self).pos == e && tree::sv(s.node) == st
                    && s.span == syntax::stmt_span(old(self).tokens@, old(self).pos as int, e),
                None => r is Err,
            },
        decreases old(self).remaining(), 30nat,
    {
        let line = self.current_line();
        let column = self.current_col();
        let node = self.parse_statement_kind()?;
        let (end_line, end_column) = self.stmt_end(line, column);
        Ok(Spanned::with_range(node, line, column, end_line, end_column))
    }

    /// Where the last consumed token ends (its line, column + 1); the start
    /// plus one column when nothing before comes at or after the start.
    fn stmt_end(&self, start_line: usize, start_column: usize) -> (r: (usize, usize))
        ensures
            1 <= self.pos <= self.tokens@.len() ==> r == syntax::span_end(
                self.tokens@,
                self.pos as int,
                start_line,
                start_column,
            ),
            span_ordered(
                Span { line: start_line, column: start_column, end_line: r.0, end_column: r.1 },
            ),
    {
        let fallback = (start_line, sat_add1(start_column));
        if self.pos == 0 || self.pos - 1 >= self.tokens.len() {
            return fallback;
        }
        let prev = &self.tokens[self.pos - 1];
        if prev.line == usize::MAX {
            return fallback;
        }
        let end = (prev.line, sat_add1(prev.column));
        if end.0 < start_line || (end.0 == start_line && end.1 < start_column) {
            fallback
        } else {
            end
        }
    }

    /// A block holding one expression statement positioned at `line`/`column`.
    fn expr_block(&self, expr: Expr, line: usize, column: usize) -> (r: Block)
        ensures
            crate::symbols::block_ok(r),
            r.statements@.len() == 1,
            r.statements@[0].node == Stmt::Expr(ExprStmt { expr }),
            r.statements@[0].span == (Span { line, column, end_line: line, end_column: column }),
            tree::bv(r) == seq![
                (Span { line, column, end_line: line, end_column: column }, tree::StmtV::Expr(tree::ev(expr))),
            ],
    {
        let s = Spanned::new(Stmt::Expr(ExprStmt { expr }), line, column);
        let mut statements: Vec<Spanned<Stmt>> = Vec::new();
        statements.push(s);
        proof {
            assert(statements@.drop_last() =~= Seq::<Spanned<Stmt>>::empty());
        }
        Block { statements }
    }

    /// Whether the next token has the given kind (never at the end).
    pub fn check(&self, kind: TokenKind) -> (r: bool)
        requires
            self.wf(),
        ensures
            r == (!self.at_end() && self.cur().kind() == kind),
    {
        if self.is_at_end() {
            return false;
        }
        self.tokens[self.pos].token.kind_of() == kind
    }

    pub fn advance(&mut self)
        requires
            old(self).wf(),
        ensures
            final(self).wf(),
            final(self).keeps(old(self)),
            !old(self).at_end() ==> final(self).pos == old(self).pos + 1,
            old(self).at_end() ==> final(self).pos == old(self).pos,
    {
        if !self.is_at_end() {
            let n = self.tokens.len();
            proof {
                if self.pos + 1 >= n {
                    assert(self.tokens@[self.pos as int] == self.tokens@.last());
                }
            }
            self.pos = self.pos + 1;
        }
    }

    pub fn peek(&self) -> (r: &Token)
        requires
            self.wf(),
        ensures
            *r == self.cur(),
    {
        &self.tokens[self.pos].token
    }

    fn peek_at(&self, offset: usize) -> (r: Option<&Token>)
        ensures
            match r {
                Some(t) => self.pos + offset < self.tokens@.len() && *t == self.tokens@[self.pos
                    + offset].token,
                None => self.pos + offset >= self.tokens@.len(),
            },
    {
        if offset < self.tokens.len() && self.pos < self.tokens.len() - offset {
            Some(&self.tokens[self.pos + offset].token)
        } else {
            None
        }
    }

    pub fn current_line(&self) -> (r: usize)
        ensures
            r == if self.pos < self.tokens@.len() {
                self.tokens@[self.pos as int].line
            } else {
                usize::MAX
            },
    {
        if self.pos < self.tokens.len() {
            self.tokens[self.pos].line
        } else {
            usize::MAX
        }
    }

    pub fn current_col(&self) -> (r: usize)
        ensures
            r == if self.pos < self.tokens@.len() {
                self.tokens@[self.pos as int].column
            } else {
                usize::MAX
            },
    {
        if self.pos < self.tokens.len() {
            self.tokens[self.pos].column
        } else {
            usize::MAX
        }
    }

    /// An error with `msg` at the current token.
    fn error_here(&self, msg: &str) -> (r: HuziError)
        ensures
            r.message@ == msg@,
            self.pos < self.tokens@.len() ==> err_at(r, self.tokens@, self.pos as int),
    {
        HuziError::new(msg, self.current_line(), self.current_col())
    }

    /// Consumes a token of the given kind, else fails with `msg` here.
    fn expect(&mut self, kind: TokenKind, msg: &str) -> (r: Result<(), HuziError>)
        requires
            old(self).wf(),
        ensures
            r matches Err(e) ==> err_at(e, final(self).tokens@, final(self).pos as int),
            final(self).wf(),
            final(self).keeps(old(self)),
            r is Ok <==> (!old(self).at_end() && old(self).cur().kind() == kind),
            r is Ok ==> final(self).pos == old(self).pos + 1,
            r is Err ==> final(self).pos == old(self).pos,
    {
        if self.check(kind) {
            self.advance();
            Ok(())
        } else {
            Err(self.error_here(msg))
        }
    }

    /// Consumes an identifier and returns its name.
    fn expect_ident(&mut self, msg: &str) -> (r: Result<String, HuziError>)
        requires
            old(self).wf(),
        ensures
            r matches Err(e) ==> err_at(e, final(self).tokens@, final(self).pos as int),
            final(self).wf(),
            final(self).keeps(old(self)),
            r is Ok <==> old(self).cur() is Ident,
            r matches Ok(n) ==> old(self).cur() == Token::Ident(n) && final(self).pos == old(
                self,
            ).pos + 1,
            r is Err ==> final(self).pos == old(self).pos,
    {
        match &self.tokens[self.pos].token {
            Token::Ident(name) => {
                let n = name.clone();
                self.advance();
                Ok(n)
            },
            _ => Err(self.error_here(msg)),
        }
    }

    /// Consumes an integer literal and returns its value.
    fn expect_integer(&mut self, msg: &str) -> (r: Result<i64, HuziError>)
        requires
            old(self).wf(),
        ensures
            r matches Err(e) ==> err_at(e, final(self).tokens@, final(self).pos as int),
            final(self).wf(),
            final(self).keeps(old(self)),
            r is Ok <==> old(self).cur() is Int,
            r matches Ok(n) ==> old(self).cur() == Token::Int(n) && final(self).pos == old(
                self,
            ).pos + 1,
            r is Err ==> final(self).pos == old(self).pos,
    {
        match &self.tokens[self.pos].token {
            Token::Int(n) => {
                let v = *n;
                self.advance();
                Ok(v)
            },
            _ => Err(self.error_here(msg)),
        }
    }

    pub fn is_at_end(&self) -> (r: bool)
        requires
            self.wf(),
        ensures
            r == self.at_end(),
    {
        match &self.tokens[self.pos].token {
            Token::Eof => true,
            _ => false,
        }
    }

    /// Whether the next token can start an expression.
    fn is_expr_start(&self) -> (r: bool)
        requires
            self.wf(),
        ensures
            r == match self.cur() {
                Token::True | Token::False | Token::Int(_) | Token::Float(_) | Token::String(_)
                | Token::Char(_) | Token::Ident(_) | Token::LParen | Token::LBracket | Token::If
                | Token::Match | Token::Bang | Token::Minus => true,
                _ => false,
            },
    {
        match &self.tokens[self.pos].token {
            Token::True | Token::False | Token::Int(_) | Token::Float(_) | Token::String(_)
            | Token::Char(_) | Token::Ident(_) | Token::LParen | Token::LBracket | Token::If
            | Token::Match | Token::Bang | Token::Minus => true,
            _ => false,
        }
    }
}

/// `n + 1`, saturating at the top.
fn sat_add1(n: usize) -> (r: usize)
    ensures
        r == if n == usize::MAX {
            n
        } else {
            (n + 1) as usize
        },
{
    if n == usize::MAX {
        n
    } else {
        n + 1
    }
}

/// An error message `prefix` + `mid` + `suffix`.
fn message3(prefix: &str, mid: &[char], suffix: &str) -> (r: String)
    ensures
        r@ == prefix@ + mid@ + suffix@,
{
    let mut m: Vec<char> = Vec::new();
    push_str(&mut m, prefix);
    crate::text::push_all(&mut m, mid);
    push_str(&mut m, suffix);
    string_of(m.as_slice())
}

} // verus!
