//! Statements, blocks and types.
use super::grammar::{
    box_end, export_parse, export_rest, ident_at, import_parse, import_rest, is_kind, is_kind_gt,
    lemma_tvs_push, params_loop, tuple_rest, tv, tvs, type_params_loop, type_params_parse,
    type_parse, TypeV,
};
use super::syntax::{
    block_agrees, block_p, block_rest, defer_p, elif_rest, enum_def_p, expr_p, fn_p,
    fn_params_loop, for_p, if_stmt_p, impl_p, impl_rest, lemma_block_p, lemma_stmt_p, let_init,
    let_p, let_type_end, method_params, method_sig, nx, payloads_rest, ret_p, self_part,
    self_params, sfields_rest, stmt_agrees, stmt_p, stmt_span, struct_p, trait_p, trait_rest,
    variants_rest, while_p,
};
use super::tree::{
    bv, elifvs, ev, fieldvs, fnv, fnvs, lemma_elifvs_push, lemma_fieldvs_push, lemma_fnvs_push,
    lemma_paramvs_push, lemma_sigvs_push, lemma_ssvs_push, lemma_variantvs_push, opt_tv, paramvs,
    sigvs, ssvs, sv, variantvs, ExprV, FnV, SigV, StmtV,
};
use super::token::{Token, TokenKind};
use super::{err_at, message3, stops, Parser};
use crate::ast::{
    Block, EnumDef, EnumVariant, ExportStmt, Expr, ExprStmt, FnParam, FnStmt, ForSource, ForStmt, IfStmt,
    ImplBlock, ImportStmt, LetStmt, ReturnStmt, Spanned, Stmt, StructDef, StructField, TraitDef,
    TraitMethodDef, Type, WhileStmt,
};
use crate::render::HuziError;
use crate::symbols::{block_ok, elifs_ok, methods_ok, node_ok, stmts_ok};
use crate::text::{chars_of, eq_str, push_str, string_of};
use vstd::prelude::*;

verus! {

/// Whether `v` holds a string equal to `s`.
pub(crate) fn contains_name(v: &Vec<String>, s: &String) -> (r: bool)
    ensures
        r == exists|i: int| 0 <= i < v@.len() && v@[i]@ == s@,
{
    let mut i: usize = 0;
    while i < v.len()
        invariant
            0 <= i <= v.len(),
            forall|j: int| 0 <= j < i ==> v@[j]@ != s@,
        decreases v.len() - i,
    {
        let a = chars_of(v[i].as_str());
        let b = chars_of(s.as_str());
        if crate::text::chars_eq(a.as_slice(), b.as_slice()) {
            return true;
        }
        i += 1;
    }
    false
}

impl Parser {
    /// Dispatches on the first token of a statement.
    pub(crate) fn parse_statement_kind(&mut self) -> (r: Result<Stmt, HuziError>)
        requires
            old(self).wf(),
        ensures
            r matches Err(e) ==> err_at(e, final(self).tokens@, final(self).pos as int),
            r is Err ==> final(self).pos == stops::stmt_stop(old(self).tokens@, old(self).pos as int, old(self).in_defer),
            final(self).wf(),
            final(self).keeps(old(self)),
            r is Ok ==> final(self).pos > old(self).pos,
            r matches Ok(n) ==> node_ok(n),
            stmt_agrees(
                stmt_p(old(self).tokens@, old(self).pos as int, old(self).in_defer),
                r,
                final(self).pos as int,
            ),
        decreases old(self).remaining(), 29nat,
    {
        proof {
            lemma_stmt_p(old(self).tokens@, old(self).pos as int, old(self).in_defer);
        }
        let ghost ts = self.tokens@;
        let ghost p0 = self.pos as int;
        let ghost d = self.in_defer;
        if self.check(TokenKind::Let) {
            self.parse_let_statement()
        } else if self.check(TokenKind::Struct) {
            self.parse_struct_statement()
        } else if self.check(TokenKind::Enum) {
            self.parse_enum_statement()
        } else if self.check(TokenKind::Fn) {
            self.parse_fn_statement()
        } else if self.check(TokenKind::Import) {
            self.parse_import_statement()
        } else if self.check(TokenKind::Export) {
            self.parse_export_statement()
        } else if self.check(TokenKind::Return) {
            self.parse_return_statement()
        } else if self.check(TokenKind::Break) {
            self.advance();
            Ok(Stmt::Break)
        } else if self.check(TokenKind::Continue) {
            self.advance();
            Ok(Stmt::Continue)
        } else if self.check(TokenKind::If) {
            self.parse_if_statement()
        } else if self.check(TokenKind::For) {
            self.parse_for_statement()
        } else if self.check(TokenKind::While) {
            self.parse_while_statement()
        } else if self.check(TokenKind::LBrace) {
            let b = self.parse_block()?;
            Ok(Stmt::Block(b))
        } else {
            let expr = self.parse_expression()?;
            Ok(Stmt::Expr(ExprStmt { expr }))
        }
    }

    /// A type: `[T; N]`, `()`, `(A, B)`, `Box<T>` or a name.
    pub(crate) fn parse_type(&mut self) -> (r: Result<Type, HuziError>)
        requires
            old(self).wf(),
        ensures
            r matches Err(e) ==> err_at(e, final(self).tokens@, final(self).pos as int),
            r is Err ==> final(self).pos == stops::type_stop(old(self).tokens@, old(self).pos as int),
            final(self).wf(),
            final(self).keeps(old(self)),
            r is Ok ==> final(self).pos > old(self).pos,
            match type_parse(old(self).tokens@, old(self).pos as int) {
                Some((e, tree)) => r matches Ok(t) && final(self).pos == e && tv(t) == tree,
                None => r is Err,
            },
        decreases old(self).remaining(), 25nat,
    {
        let ghost ts = self.tokens@;
        let ghost p0 = self.pos as int;
        if self.check(TokenKind::LBracket) {
            self.advance();
            let elem_type = self.parse_type()?;
            self.expect(TokenKind::Semi, "Expected ';' in array type")?;
            let size = self.expect_integer("Expected array size")?;
            self.expect(TokenKind::RBracket, "Expected ']' in array type")?;
            return Ok(Type::Array(Box::new(elem_type), size as usize));
        }
        if self.check(TokenKind::LParen) {
            self.advance();
            if self.check(TokenKind::RParen) {
                self.advance();
                return Ok(Type::Unit);
            }
            let first = self.parse_type()?;
            let mut elems: Vec<Type> = Vec::new();
            proof {
                lemma_tvs_push(elems@, first);
            }
            elems.push(first);
            while self.check(TokenKind::Comma)
                invariant
                    self.wf(),
                    self.keeps(old(self)),
                    self.pos > old(self).pos,
                    ts == self.tokens@,
                    p0 == old(self).pos,
                    stops::type_stop(ts, p0) == stops::tuple_stop(ts, self.pos as int),
                    type_parse(ts, p0) == (match tuple_rest(ts, self.pos as int, tvs(elems@)) {
                        Some((f, es)) => Some((f, TypeV::Tuple(es))),
                        None => None,
                    }),
                decreases self.remaining(),
            {
                self.advance();
                let t = self.parse_type()?;
                proof {
                    lemma_tvs_push(elems@, t);
                }
                elems.push(t);
            }
            self.expect(TokenKind::RParen, "Expected ')' in tuple type")?;
            return Ok(Type::Tuple(elems));
        }
        match self.peek().duplicate() {
            Token::Ident(name) => {
                self.advance();
                if self.check(TokenKind::Less) {
                    let nm = chars_of(name.as_str());
                    if !eq_str(nm.as_slice(), "Box") {
                        let msg = message3(
                            "Only Box<T> supports generic parameters (found '",
                            nm.as_slice(),
                            "<')",
                        );
                        return Err(
                            HuziError {
                                message: msg,
                                line: self.current_line(),
                                column: self.current_col(),
                            },
                        );
                    }
                    return self.parse_box_type();
                }
                Ok(Type::Named(name))
            },
            _ => Err(self.error_here("Expected type")),
        }
    }

    /// `<T>` after `Box`, where `T` is a named struct type.
    pub(crate) fn parse_box_type(&mut self) -> (r: Result<Type, HuziError>)
        requires
            old(self).wf(),
            old(self).cur() is Less,
        ensures
            r matches Err(e) ==> err_at(e, final(self).tokens@, final(self).pos as int),
            r is Err ==> final(self).pos == stops::box_type_stop(old(self).tokens@, old(self).pos as int),
            final(self).wf(),
            final(self).keeps(old(self)),
            r is Ok ==> final(self).pos > old(self).pos,
            match box_end(old(self).tokens@, old(self).pos as int) {
                Some((e, tree)) => r matches Ok(t) && final(self).pos == e && tv(t) == tree,
                None => r is Err,
            },
        decreases old(self).remaining(), 24nat,
    {
        self.advance();
        let inner = self.parse_type()?;
        match &inner {
            Type::Named(_) => {},
            Type::Box(_) => {
                return Err(
                    self.error_here(
                        "Nested Box<Box<..>> is not supported yet; use a struct field instead",
                    ),
                );
            },
            _ => {
                let text = crate::ast::type_string(&inner);
                let msg = message3(
                    "Box<T> requires a named struct type (found '",
                    chars_of(text.as_str()).as_slice(),
                    "')",
                );
                return Err(
                    HuziError { message: msg, line: self.current_line(), column: self.current_col() },
                );
            },
        }
        self.expect(TokenKind::Greater, "Expected '>' in Box<T>")?;
        Ok(Type::Box(Box::new(inner)))
    }

    /// `{ statement* }`.
    pub(crate) fn parse_block(&mut self) -> (r: Result<Block, HuziError>)
        requires
            old(self).wf(),
        ensures
            r matches Err(e) ==> err_at(e, final(self).tokens@, final(self).pos as int),
            r is Err ==> final(self).pos == stops::block_stop(old(self).tokens@, old(self).pos as int, old(self).in_defer),
            final(self).wf(),
            final(self).keeps(old(self)),
            r is Ok ==> final(self).pos > old(self).pos,
            r matches Ok(b) ==> block_ok(b),
            block_agrees(
                block_p(old(self).tokens@, old(self).pos as int, old(self).in_defer),
                r,
                final(self).pos as int,
            ),
        decreases old(self).remaining(), 27nat,
    {
        proof {
            lemma_block_p(old(self).tokens@, old(self).pos as int, old(self).in_defer);
        }
        let ghost ts = self.tokens@;
        let ghost p0 = self.pos as int;
        let ghost d = self.in_defer;
        self.expect(TokenKind::LBrace, "Expected '{'")?;
        let mut statements: Vec<Spanned<Stmt>> = Vec::new();
        while !self.check(TokenKind::RBrace) && !self.is_at_end()
            invariant
                self.wf(),
                self.keeps(old(self)),
                self.pos > old(self).pos,
                stmts_ok(statements@),
                ts == self.tokens@,
                d == self.in_defer,
                p0 == old(self).pos,
                block_p(ts, p0, d) == block_rest(ts, self.pos as int, d, ssvs(statements@)),
                stops::block_stop(ts, p0, d) == stops::block_rest_stop(ts, self.pos as int, d),
            decreases self.remaining(),
        {
            let s = self.parse_statement()?;
            proof {
                assert(statements@.push(s).drop_last() =~= statements@);
                lemma_ssvs_push(statements@, s);
            }
            statements.push(s);
        }
        self.expect(TokenKind::RBrace, "Expected '}'")?;
        Ok(Block { statements })
    }

    /// `import name` or `import a.b` (segments joined by `.`; `::` is
    /// accepted between segments too).
    pub(crate) fn parse_import_statement(&mut self) -> (r: Result<Stmt, HuziError>)
        requires
            old(self).wf(),
        ensures
            r matches Err(e) ==> err_at(e, final(self).tokens@, final(self).pos as int),
            r is Err ==> final(self).pos == stops::import_stop(old(self).tokens@, old(self).pos as int),
            final(self).wf(),
            final(self).keeps(old(self)),
            r is Ok ==> final(self).pos > old(self).pos,
            r matches Ok(n) ==> node_ok(n),
            match import_parse(old(self).tokens@, old(self).pos as int) {
                Some((e, name)) => final(self).pos == e && (r matches Ok(Stmt::Import(i))
                    && i.name@ == name),
                None => r is Err,
            },
    {
        let ghost ts = self.tokens@;
        self.advance();
        let mut name = self.expect_ident("Expected module name after 'import'")?;
        while self.check(TokenKind::Dot) || self.check(TokenKind::PathSep)
            invariant
                self.wf(),
                self.keeps(old(self)),
                self.pos > old(self).pos,
                ts == self.tokens@,
                import_parse(ts, old(self).pos as int) == import_rest(ts, self.pos as int, name@),
                stops::import_stop(ts, old(self).pos as int) == stops::import_rest_stop(ts, self.pos as int),
            decreases self.remaining(),
        {
            self.advance();
            let seg = self.expect_ident("Expected identifier after '.' or '::' in import")?;
            let mut v = chars_of(name.as_str());
            push_str(&mut v, ".");
            push_str(&mut v, seg.as_str());
            name = string_of(v.as_slice());
        }
        Ok(Stmt::Import(ImportStmt { name }))
    }

    /// `export a::b` or `export a::*` (the path's segments joined by `::`).
    pub(crate) fn parse_export_statement(&mut self) -> (r: Result<Stmt, HuziError>)
        requires
            old(self).wf(),
        ensures
            r matches Err(e) ==> err_at(e, final(self).tokens@, final(self).pos as int),
            r is Err ==> final(self).pos == stops::export_stop(old(self).tokens@, old(self).pos as int),
            final(self).wf(),
            final(self).keeps(old(self)),
            r is Ok ==> final(self).pos > old(self).pos,
            r matches Ok(n) ==> node_ok(n),
            match export_parse(old(self).tokens@, old(self).pos as int) {
                Some((e, path, w)) => final(self).pos == e && (r matches Ok(Stmt::Export(x))
                    && x.path@ == path && x.is_wildcard == w),
                None => r is Err,
            },
    {
        let ghost ts = self.tokens@;
        let ghost p0 = self.pos as int;
        self.advance();
        let mut path = self.expect_ident("Expected module path after 'export'")?;
        let mut is_wildcard = false;
        while self.check(TokenKind::PathSep)
            invariant_except_break
                export_parse(ts, p0) == export_rest(ts, self.pos as int, path@),
                stops::export_stop(ts, p0) == stops::export_rest_stop(ts, self.pos as int),
                !is_wildcard,
            invariant
                self.wf(),
                self.keeps(old(self)),
                self.pos > old(self).pos,
                ts == self.tokens@,
                p0 == old(self).pos,
            ensures
                export_parse(ts, p0) == Some((self.pos as int, path@, is_wildcard)),
            decreases self.remaining(),
        {
            self.advance();
            if self.check(TokenKind::Star) {
                self.advance();
                is_wildcard = true;
                break;
            }
            let seg = self.expect_ident("Expected identifier or '*' after '::' in export")?;
            let mut v = chars_of(path.as_str());
            push_str(&mut v, "::");
            push_str(&mut v, seg.as_str());
            path = string_of(v.as_slice());
        }
        Ok(Stmt::Export(ExportStmt { path, is_wildcard }))
    }

    /// `let [mut] name [: type] [= expr]`.
    pub(crate) fn parse_let_statement(&mut self) -> (r: Result<Stmt, HuziError>)
        requires
            old(self).wf(),
        ensures
            r matches Err(e) ==> err_at(e, final(self).tokens@, final(self).pos as int),
            r is Err ==> final(self).pos == stops::let_stop(old(self).tokens@, old(self).pos as int, old(self).in_defer),
            final(self).wf(),
            final(self).keeps(old(self)),
            r is Ok ==> final(self).pos > old(self).pos,
            r matches Ok(n) ==> node_ok(n),
            stmt_agrees(
                let_p(old(self).tokens@, old(self).pos as int, old(self).in_defer),
                r,
                final(self).pos as int,
            ),
        decreases old(self).remaining(), 28nat,
    {
        let ghost ts = self.tokens@;
        let ghost p0 = self.pos as int;
        let ghost d = self.in_defer;
        self.advance();
        let mutable = self.check(TokenKind::Mut);
        if mutable {
            self.advance();
        }
        let ghost q2 = self.pos as int;
        let name = self.expect_ident("Expected variable name")?;
        let type_annotation = self.parse_type_annotation()?;
        let ghost r2 = self.pos as int;
        let value = if self.check(TokenKind::Equal) {
            self.advance();
            Some(self.parse_expression()?)
        } else {
            None
        };
        assert(let_init(ts, p0, r2, d) == match value {
            Some(x) => Some((self.pos as int, Some(ev(x)))),
            None => Some((r2, None::<ExprV>)),
        });
        Ok(Stmt::Let(LetStmt { name, mutable, type_annotation, value }))
    }

    /// An optional `: Type`.
    fn parse_type_annotation(&mut self) -> (r: Result<Option<Type>, HuziError>)
        requires
            old(self).wf(),
        ensures
            r matches Err(e) ==> err_at(e, final(self).tokens@, final(self).pos as int),
            r is Err ==> final(self).pos == stops::let_type_stop(old(self).tokens@, old(self).pos as int),
            final(self).wf(),
            final(self).keeps(old(self)),
            match let_type_end(old(self).tokens@, old(self).pos as int) {
                Some((e, t)) => r matches Ok(o) && final(self).pos == e && opt_tv(o) == t,
                None => r is Err,
            },
    {
        reveal(let_type_end);
        if self.check(TokenKind::Colon) {
            self.advance();
            Ok(Some(self.parse_type()?))
        } else {
            Ok(None)
        }
    }

    /// `<A, B>` after a definition's name, or nothing; names are distinct.
    pub(crate) fn parse_optional_type_params(&mut self) -> (r: Result<Vec<String>, HuziError>)
        requires
            old(self).wf(),
        ensures
            r matches Err(e) ==> err_at(e, final(self).tokens@, final(self).pos as int),
            r is Err ==> final(self).pos == stops::type_params_stop(old(self).tokens@, old(self).pos as int),
            final(self).wf(),
            final(self).keeps(old(self)),
            match type_params_parse(old(self).tokens@, old(self).pos as int) {
                Some((e, names)) => final(self).pos == e && (r matches Ok(v)
                    && crate::modules::views_of(v@) == names),
                None => r is Err,
            },
    {
        let ghost ts = self.tokens@;
        let ghost p0 = self.pos as int;
        if !self.check(TokenKind::Less) {
            let v: Vec<String> = Vec::new();
            assert(crate::modules::views_of(v@) =~= Seq::<Seq<char>>::empty());
            return Ok(v);
        }
        self.advance();
        let mut params: Vec<String> = Vec::new();
        if self.check(TokenKind::Greater) {
            return Err(self.error_here("Expected type parameter name between '<' and '>'"));
        }
        assert(crate::modules::views_of(params@) =~= Seq::<Seq<char>>::empty());
        while !self.check(TokenKind::Greater) && !self.is_at_end()
            invariant_except_break
                type_params_parse(ts, p0) == type_params_loop(
                    ts,
                    self.pos as int,
                    crate::modules::views_of(params@),
                ),
                stops::type_params_stop(ts, p0) == stops::type_params_loop_stop(
                    ts,
                    self.pos as int,
                    crate::modules::views_of(params@),
                ),
            invariant
                self.wf(),
                self.keeps(old(self)),
                ts == self.tokens@,
                p0 == old(self).pos,
            ensures
                stops::type_params_stop(ts, p0) == self.pos,
                type_params_parse(ts, p0) == (if is_kind_gt(ts, self.pos as int) {
                    Some((self.pos + 1, crate::modules::views_of(params@)))
                } else {
                    None
                }),
            decreases self.remaining(),
        {
            let ghost q = self.pos as int;
            let ghost before = crate::modules::views_of(params@);
            let p = self.expect_ident("Expected type parameter name")?;
            if contains_name(&params, &p) {
                assert(before.contains(p@)) by {
                    let i = choose|i: int| 0 <= i < params@.len() && params@[i]@ == p@;
                    assert(before[i] == p@);
                }
                let msg = message3(
                    "Duplicate type parameter '",
                    chars_of(p.as_str()).as_slice(),
                    "'",
                );
                return Err(
                    HuziError { message: msg, line: self.current_line(), column: self.current_col() },
                );
            }
            assert(!before.contains(p@)) by {
                if before.contains(p@) {
                    let i = choose|i: int| 0 <= i < before.len() && before[i] == p@;
                    assert(params@[i]@ == p@);
                }
            }
            params.push(p);
            assert(crate::modules::views_of(params@) =~= before.push(p@));
            if self.check(TokenKind::Comma) {
                self.advance();
            } else {
                break;
            }
        }
        self.expect(TokenKind::Greater, "Expected '>' after type parameters")?;
        Ok(params)
    }

    /// `struct Name<T> { field: Type, ... }`.
    pub(crate) fn parse_struct_statement(&mut self) -> (r: Result<Stmt, HuziError>)
        requires
            old(self).wf(),
        ensures
            r matches Err(e) ==> err_at(e, final(self).tokens@, final(self).pos as int),
            r is Err ==> final(self).pos == stops::struct_stop(old(self).tokens@, old(self).pos as int),
            final(self).wf(),
            final(self).keeps(old(self)),
            r is Ok ==> final(self).pos > old(self).pos,
            r matches Ok(n) ==> node_ok(n),
            stmt_agrees(struct_p(old(self).tokens@, old(self).pos as int), r, final(self).pos as int),
        decreases old(self).remaining(), 28nat,
    {
        let ghost ts = self.tokens@;
        let ghost p0 = self.pos as int;
        let ghost d = self.in_defer;
        self.advance();
        let name = self.expect_ident("Expected struct name")?;
        let type_params = self.parse_optional_type_params()?;
        self.expect(TokenKind::LBrace, "Expected '{' after struct name")?;
        let mut fields: Vec<StructField> = Vec::new();
        while !self.check(TokenKind::RBrace) && !self.is_at_end()
            invariant_except_break
                stops::struct_stop(ts, p0) == stops::sfields_stop(ts, self.pos as int),
                struct_p(ts, p0) == match sfields_rest(ts, self.pos as int, fieldvs(fields@)) {
                    Some((f, fs)) => Some(
                        (f, StmtV::Struct(name@, crate::modules::views_of(type_params@), fs)),
                    ),
                    None => None,
                },
            invariant
                self.wf(),
                self.keeps(old(self)),
                self.pos > old(self).pos,
                ts == self.tokens@,
                p0 == old(self).pos,
            ensures
                stops::struct_stop(ts, p0) == self.pos,
                struct_p(ts, p0) == (if is_kind(ts, self.pos as int, TokenKind::RBrace) {
                    Some(
                        (
                            self.pos + 1,
                            StmtV::Struct(
                                name@,
                                crate::modules::views_of(type_params@),
                                fieldvs(fields@),
                            ),
                        ),
                    )
                } else {
                    None
                }),
            decreases self.remaining(),
        {
            let field_name = self.expect_ident("Expected field name")?;
            self.expect(TokenKind::Colon, "Expected ':' after field name")?;
            let field_type = self.parse_type()?;
            let fld = StructField { name: field_name, field_type };
            proof {
                lemma_fieldvs_push(fields@, fld);
            }
            fields.push(fld);
            if self.check(TokenKind::Comma) {
                self.advance();
            } else {
                break;
            }
        }
        self.expect(TokenKind::RBrace, "Expected '}' after struct fields")?;
        Ok(Stmt::Struct(StructDef { name, type_params, fields }))
    }

    /// `enum Name { A, B(T, U), ... }`.
    pub(crate) fn parse_enum_statement(&mut self) -> (r: Result<Stmt, HuziError>)
        requires
            old(self).wf(),
        ensures
            r matches Err(e) ==> err_at(e, final(self).tokens@, final(self).pos as int),
            r is Err ==> final(self).pos == stops::enum_stop(old(self).tokens@, old(self).pos as int),
            final(self).wf(),
            final(self).keeps(old(self)),
            r is Ok ==> final(self).pos > old(self).pos,
            r matches Ok(n) ==> node_ok(n),
            stmt_agrees(enum_def_p(old(self).tokens@, old(self).pos as int), r, final(self).pos as int),
        decreases old(self).remaining(), 28nat,
    {
        let ghost ts = self.tokens@;
        let ghost p0 = self.pos as int;
        let ghost d = self.in_defer;
        self.advance();
        let name = self.expect_ident("Expected enum name")?;
        self.expect(TokenKind::LBrace, "Expected '{' after enum name")?;
        let mut variants: Vec<EnumVariant> = Vec::new();
        while !self.check(TokenKind::RBrace) && !self.is_at_end()
            invariant_except_break
                stops::enum_stop(ts, p0) == stops::variants_stop(ts, self.pos as int),
                enum_def_p(ts, p0) == match variants_rest(ts, self.pos as int, variantvs(variants@)) {
                    Some((e, vs)) => Some((e, StmtV::Enum(name@, vs))),
                    None => None,
                },
            invariant
                self.wf(),
                self.keeps(old(self)),
                self.pos > old(self).pos,
                ts == self.tokens@,
                p0 == old(self).pos,
            ensures
                stops::enum_stop(ts, p0) == self.pos,
                enum_def_p(ts, p0) == (if is_kind(ts, self.pos as int, TokenKind::RBrace) {
                    Some((self.pos + 1, StmtV::Enum(name@, variantvs(variants@))))
                } else {
                    None
                }),
            decreases self.remaining(),
        {
            let ghost s0 = self.pos as int;
            let variant_name = self.expect_ident("Expected variant name")?;
            let ghost mark = self.pos;
            let payloads = if self.check(TokenKind::LParen) {
                self.advance();
                let mut payloads: Vec<Type> = Vec::new();
                if !self.check(TokenKind::RParen) {
                    loop
                        invariant_except_break
                            payloads_rest(ts, s0 + 2, Seq::empty()) == payloads_rest(
                                ts,
                                self.pos as int,
                                tvs(payloads@),
                            ),
                            stops::payloads_stop(ts, s0 + 2) == stops::payloads_stop(ts, self.pos as int),
                        invariant
                            self.wf(),
                            self.keeps(old(self)),
                            self.pos > old(self).pos,
                            self.pos >= mark,
                            ts == self.tokens@,
                            p0 == old(self).pos,
                            payloads_rest(ts, s0 + 2, Seq::empty()) is None ==> enum_def_p(ts, p0)
                                is None,
                            payloads_rest(ts, s0 + 2, Seq::empty()) is None ==> stops::enum_stop(ts, p0)
                                == stops::payloads_stop(ts, s0 + 2),
                        ensures
                            stops::payloads_stop(ts, s0 + 2) == self.pos,
                            payloads_rest(ts, s0 + 2, Seq::empty()) == (if is_kind(
                                ts,
                                self.pos as int,
                                TokenKind::RParen,
                            ) {
                                Some((self.pos + 1, tvs(payloads@)))
                            } else {
                                None
                            }),
                        decreases self.remaining(),
                    {
                        let t = self.parse_type()?;
                        proof {
                            lemma_tvs_push(payloads@, t);
                        }
                        payloads.push(t);
                        if self.check(TokenKind::Comma) {
                            self.advance();
                        } else {
                            break;
                        }
                    }
                }
                self.expect(TokenKind::RParen, "Expected ')' after variant payload types")?;
                payloads
            } else {
                Vec::new()
            };
            let var = EnumVariant { name: variant_name, payloads };
            proof {
                lemma_variantvs_push(variants@, var);
            }
            variants.push(var);
            if self.check(TokenKind::Comma) {
                self.advance();
            } else {
                break;
            }
        }
        self.expect(TokenKind::RBrace, "Expected '}' after enum variants")?;
        Ok(Stmt::Enum(EnumDef { name, variants }))
    }

    /// `name: Type` pairs separated by commas, up to `)` (not consumed).
    pub(crate) fn parse_params(&mut self, params: &mut Vec<FnParam>) -> (r: Result<(), HuziError>)
        requires
            old(self).wf(),
        ensures
            r matches Err(e) ==> err_at(e, final(self).tokens@, final(self).pos as int),
            r is Err ==> final(self).pos == stops::params_stop(old(self).tokens@, old(self).pos as int),
            final(self).wf(),
            final(self).keeps(old(self)),
            final(params)@.len() >= old(params)@.len(),
            match params_loop(old(self).tokens@, old(self).pos as int, Seq::empty()) {
                Some((e, ps)) => r is Ok && final(self).pos == e && final(params)@.take(
                    old(params)@.len() as int,
                ) == old(params)@ && paramvs(final(params)@.skip(old(params)@.len() as int))
                    == ps,
                None => r is Err,
            },
        decreases old(self).remaining(), 26nat,
    {
        let ghost ts = self.tokens@;
        let ghost p0 = self.pos as int;
        let ghost n0 = params@.len() as int;
        assert(params@.take(n0) =~= old(params)@);
        assert(params@.skip(n0) =~= Seq::<FnParam>::empty());
        while !self.check(TokenKind::RParen) && !self.is_at_end()
            invariant_except_break
                params_loop(ts, p0, Seq::empty()) == params_loop(
                    ts,
                    self.pos as int,
                    paramvs(params@.skip(n0)),
                ),
                stops::params_stop(ts, p0) == stops::params_stop(ts, self.pos as int),
            invariant
                self.wf(),
                self.keeps(old(self)),
                ts == self.tokens@,
                p0 == old(self).pos,
                n0 == old(params)@.len(),
                params@.len() >= n0,
                params@.take(n0) == old(params)@,
            ensures
                params_loop(ts, p0, Seq::empty()) == Some(
                    (self.pos as int, paramvs(params@.skip(n0))),
                ),
            decreases self.remaining(),
        {
            let ghost before = params@;
            let pname = self.expect_ident("Expected parameter name")?;
            self.expect(TokenKind::Colon, "Expected ':' after parameter name")?;
            let ptype = self.parse_type()?;
            let prm = FnParam { name: pname, param_type: ptype };
            proof {
                lemma_paramvs_push(before.skip(n0), prm);
            }
            params.push(prm);
            assert(params@.take(n0) =~= before.take(n0));
            assert(params@.skip(n0) =~= before.skip(n0).push(prm));
            if self.check(TokenKind::Comma) {
                self.advance();
            } else {
                break;
            }
        }
        Ok(())
    }

    /// Whether the next token is the name `self`.
    pub(crate) fn at_self(&self) -> (r: bool)
        requires
            self.wf(),
        ensures
            r == (self.cur() matches Token::Ident(n) && n@ == "self"@),
    {
        match self.peek() {
            Token::Ident(pname) => {
                let nm = chars_of(pname.as_str());
                eq_str(nm.as_slice(), "self")
            },
            _ => false,
        }
    }

    /// `trait Name { fn m(self, x: T) -> R; ... }`.
    #[verifier::rlimit(100)]
    #[verifier::spinoff_prover]
    pub fn parse_trait_statement(&mut self) -> (r: Result<Stmt, HuziError>)
        requires
            old(self).wf(),
        ensures
            r matches Err(e) ==> err_at(e, final(self).tokens@, final(self).pos as int),
            final(self).wf(),
            final(self).keeps(old(self)),
            r is Ok ==> final(self).pos > old(self).pos,
            r matches Ok(n) ==> node_ok(n),
            stmt_agrees(trait_p(old(self).tokens@, old(self).pos as int), r, final(self).pos as int),
            r is Err ==> final(self).pos == stops::trait_stop(old(self).tokens@, old(self).pos as int),
        decreases old(self).remaining(), 28nat,
    {
        let ghost ts = self.tokens@;
        let ghost p0 = self.pos as int;
        let ghost d = self.in_defer;
        self.advance();
        let name = self.expect_ident("Expected trait name after 'trait'")?;
        self.expect(TokenKind::LBrace, "Expected '{' after trait name")?;
        let mut methods: Vec<TraitMethodDef> = Vec::new();
        while !self.check(TokenKind::RBrace) && !self.is_at_end()
            invariant
                self.wf(),
                self.keeps(old(self)),
                self.pos > old(self).pos,
                ts == self.tokens@,
                p0 == old(self).pos,
                trait_p(ts, p0) == match trait_rest(ts, self.pos as int, sigvs(methods@)) {
                    Some((e, ms)) => Some((e, StmtV::Trait(name@, ms))),
                    None => None,
                },
                stops::trait_stop(ts, p0) == stops::trait_rest_stop(ts, self.pos as int),
            decreases self.remaining(),
        {
            let ghost s0 = self.pos as int;
            self.expect(TokenKind::Fn, "Expected 'fn' in trait definition")?;
            let method_name = self.expect_ident("Expected method name in trait definition")?;
            self.expect(TokenKind::LParen, "Expected '(' after method name")?;
            let ghost t = self.pos as int;
            let mut has_self = false;
            let mut params: Vec<FnParam> = Vec::new();
            if !self.check(TokenKind::RParen) {
                if self.at_self() {
                    self.advance();
                    has_self = true;
                    if self.check(TokenKind::Colon) {
                        self.advance();
                        self.parse_type()?;
                    }
                    if self.check(TokenKind::Comma) {
                        self.advance();
                    }
                }
                self.parse_params(&mut params)?;
                assert(params@.skip(0) =~= params@);
            }
            assert(method_params(ts, t) matches Some((u, slf, ps)) && u == self.pos && (slf is Some)
                == has_self && ps == paramvs(params@));
            self.expect(TokenKind::RParen, "Expected ')' after trait method parameters")?;
            let return_type = if self.check(TokenKind::Arrow) {
                self.advance();
                Some(self.parse_type()?)
            } else {
                None
            };
            if self.check(TokenKind::Semi) {
                self.advance();
            }
            let m = TraitMethodDef { name: method_name, has_self, params, return_type };
            proof {
                lemma_sigvs_push(methods@, m);
            }
            methods.push(m);
        }
        self.expect(TokenKind::RBrace, "Expected '}' after trait methods")?;
        Ok(Stmt::Trait(TraitDef { name, methods }))
    }

    /// `impl Trait for Type { fn m(self, ...) -> R { ... } ... }`; a `self`
    /// without a type has the target type.
    #[verifier::rlimit(100)]
    #[verifier::spinoff_prover]
    pub fn parse_impl_statement(&mut self) -> (r: Result<Stmt, HuziError>)
        requires
            old(self).wf(),
        ensures
            r matches Err(e) ==> err_at(e, final(self).tokens@, final(self).pos as int),
            final(self).wf(),
            final(self).keeps(old(self)),
            r is Ok ==> final(self).pos > old(self).pos,
            r matches Ok(n) ==> node_ok(n),
            stmt_agrees(
                impl_p(old(self).tokens@, old(self).pos as int, old(self).in_defer),
                r,
                final(self).pos as int,
            ),
            r is Err ==> final(self).pos == stops::impl_stop(
                old(self).tokens@,
                old(self).pos as int,
                old(self).in_defer,
            ),
        decreases old(self).remaining(), 28nat,
    {
        let ghost ts = self.tokens@;
        let ghost p0 = self.pos as int;
        let ghost d = self.in_defer;
        self.advance();
        let trait_name = self.expect_ident("Expected trait name after 'impl'")?;
        self.expect(TokenKind::For, "Expected 'for' after trait name in impl")?;
        let target_type = self.expect_ident("Expected target type after 'for'")?;
        self.expect(TokenKind::LBrace, "Expected '{' after target type in impl")?;
        let mut methods: Vec<FnStmt> = Vec::new();
        while !self.check(TokenKind::RBrace) && !self.is_at_end()
            invariant
                self.wf(),
                self.keeps(old(self)),
                self.pos > old(self).pos,
                methods_ok(methods@),
                ts == self.tokens@,
                d == self.in_defer,
                p0 == old(self).pos,
                impl_p(ts, p0, d) == match impl_rest(
                    ts,
                    self.pos as int,
                    d,
                    target_type@,
                    fnvs(methods@),
                ) {
                    Some((e, fns)) => Some((e, StmtV::Impl(trait_name@, target_type@, fns))),
                    None => None,
                },
                stops::impl_stop(ts, p0, d) == stops::impl_rest_stop(ts, self.pos as int, d),
            decreases self.remaining(),
        {
            let ghost s0 = self.pos as int;
            self.expect(TokenKind::Fn, "Expected 'fn' in impl block")?;
            let method_name = self.expect_ident("Expected method name in impl block")?;
            self.expect(TokenKind::LParen, "Expected '(' after method name")?;
            let ghost t = self.pos as int;
            let ghost mut slf: Option<Option<TypeV>> = None;
            let mut params: Vec<FnParam> = Vec::new();
            if !self.check(TokenKind::RParen) {
                if self.at_self() {
                    self.advance();
                    let self_type = if self.check(TokenKind::Colon) {
                        self.advance();
                        let ty = self.parse_type()?;
                        proof {
                            slf = Some(Some(tv(ty)));
                        }
                        ty
                    } else {
                        proof {
                            slf = Some(None);
                        }
                        Type::Named(target_type.clone())
                    };
                    let sp = FnParam { name: string_of(chars_of("self").as_slice()), param_type: self_type };
                    proof {
                        lemma_paramvs_push(params@, sp);
                        assert(params@ =~= Seq::<FnParam>::empty());
                    }
                    params.push(sp);
                    if self.check(TokenKind::Comma) {
                        self.advance();
                    }
                }
                let ghost before = params@;
                let ghost n0 = before.len() as int;
                assert(paramvs(before) =~= self_params(slf, target_type@));
                let ghost pp = self.pos as int;
                self.parse_params(&mut params)?;
                proof {
                    assert(params_loop(ts, pp, Seq::empty()) is Some);
                    assert(params@.take(n0) == before);
                    assert(params@ =~= params@.take(n0) + params@.skip(n0));
                    crate::parser::tree::lemma_paramvs_concat(before, params@.skip(n0));
                }
            } else {
                assert(paramvs(params@) =~= Seq::<(Seq<char>, TypeV)>::empty());
            }
            let ghost mp = method_params(ts, t);
            assert(mp is Some && mp.unwrap().0 == self.pos && mp.unwrap().1 == slf);
            assert(self_params(slf, target_type@) + mp.unwrap().2 =~= paramvs(params@));
            self.expect(TokenKind::RParen, "Expected ')' after parameters")?;
            let return_type = if self.check(TokenKind::Arrow) {
                self.advance();
                Some(self.parse_type()?)
            } else {
                None
            };
            let prev_in_fn = self.in_function;
            self.in_function = true;
            let body = self.parse_block()?;
            self.in_function = prev_in_fn;
            let m = FnStmt { name: method_name, type_params: Vec::new(), params, return_type, body };
            proof {
                assert(methods@.push(m).drop_last() =~= methods@);
                assert(crate::modules::views_of(m.type_params@) =~= Seq::<Seq<char>>::empty());
                lemma_fnvs_push(methods@, m);
            }
            methods.push(m);
        }
        self.expect(TokenKind::RBrace, "Expected '}' after impl block")?;
        Ok(Stmt::Impl(ImplBlock { trait_name, target_type, methods }))
    }

    /// `fn name<T>(a: A, ...) -> R { ... }`.
    pub(crate) fn parse_fn_statement(&mut self) -> (r: Result<Stmt, HuziError>)
        requires
            old(self).wf(),
        ensures
            r matches Err(e) ==> err_at(e, final(self).tokens@, final(self).pos as int),
            r is Err ==> final(self).pos == stops::fn_stop(old(self).tokens@, old(self).pos as int, old(self).in_defer),
            final(self).wf(),
            final(self).keeps(old(self)),
            r is Ok ==> final(self).pos > old(self).pos,
            r matches Ok(n) ==> node_ok(n),
            stmt_agrees(fn_p(old(self).tokens@, old(self).pos as int, old(self).in_defer), r, final(self).pos as int),
        decreases old(self).remaining(), 28nat,
    {
        let ghost ts = self.tokens@;
        let ghost p0 = self.pos as int;
        let ghost d = self.in_defer;
        self.advance();
        let name = self.expect_ident("Expected function name")?;
        let type_params = self.parse_optional_type_params()?;
        self.expect(TokenKind::LParen, "Expected '(' after function name")?;
        let mut params: Vec<FnParam> = Vec::new();
        let ghost e0 = self.pos as int;
        while !self.check(TokenKind::RParen)
            invariant
                self.wf(),
                self.keeps(old(self)),
                self.pos > old(self).pos,
                ts == self.tokens@,
                d == self.in_defer,
                p0 == old(self).pos,
                fn_params_loop(ts, e0, Seq::empty()) == fn_params_loop(
                    ts,
                    self.pos as int,
                    paramvs(params@),
                ),
                fn_params_loop(ts, e0, Seq::empty()) is None ==> fn_p(ts, p0, d) is None,
                fn_params_loop(ts, e0, Seq::empty()) is None ==> stops::fn_stop(ts, p0, d)
                    == stops::fn_params_stop(ts, e0),
                stops::fn_params_stop(ts, e0) == stops::fn_params_stop(ts, self.pos as int),
            decreases self.remaining(),
        {
            let param_name = self.expect_ident("Expected parameter name")?;
            self.expect(TokenKind::Colon, "Expected ':' after parameter name")?;
            let param_type = self.parse_type()?;
            let prm = FnParam { name: param_name, param_type };
            proof {
                lemma_paramvs_push(params@, prm);
            }
            params.push(prm);
            if self.check(TokenKind::Comma) {
                self.advance();
            }
        }
        let ghost f = self.pos as int;
        assert(fn_params_loop(ts, e0, Seq::empty()) == Some((f, paramvs(params@))));
        self.expect(TokenKind::RParen, "Expected ')' after parameters")?;
        let return_type = if self.check(TokenKind::Arrow) {
            self.advance();
            Some(self.parse_type()?)
        } else {
            None
        };
        let ghost g = self.pos as int;
        assert(fn_p(ts, p0, d) == match block_p(ts, g, d) {
            Some((h, b)) => Some(
                (
                    h,
                    StmtV::Fn(
                        FnV {
                            name: name@,
                            type_params: crate::modules::views_of(type_params@),
                            params: paramvs(params@),
                            ret: opt_tv(return_type),
                            body: b,
                        },
                    ),
                ),
            ),
            None => None,
        });
        let prev_in_fn = self.in_function;
        self.in_function = true;
        let body_res = self.parse_block();
        self.in_function = prev_in_fn;
        let body = body_res?;
        let f = FnStmt { name, type_params, params, return_type, body };
        proof {
            crate::parser::tree::lemma_fnv(f);
        }
        Ok(Stmt::Fn(f))
    }

    /// `return [expr]`; not allowed inside `defer`.
    pub(crate) fn parse_return_statement(&mut self) -> (r: Result<Stmt, HuziError>)
        requires
            old(self).wf(),
            old(self).cur() is Return,
        ensures
            r matches Err(e) ==> err_at(e, final(self).tokens@, final(self).pos as int),
            r is Err ==> final(self).pos == stops::ret_stop(old(self).tokens@, old(self).pos as int, old(self).in_defer),
            final(self).wf(),
            final(self).keeps(old(self)),
            r is Ok ==> final(self).pos > old(self).pos,
            r matches Ok(n) ==> node_ok(n),
            stmt_agrees(ret_p(old(self).tokens@, old(self).pos as int, old(self).in_defer), r, final(self).pos as int),
        decreases old(self).remaining(), 28nat,
    {
        let ghost ts = self.tokens@;
        let ghost p0 = self.pos as int;
        let ghost d = self.in_defer;
        let line = self.current_line();
        let col = self.current_col();
        if self.in_defer {
            return Err(crate::render::HuziError::new("return is not allowed inside defer", line, col));
        }
        self.advance();
        let value = if self.is_expr_start() {
            Some(self.parse_expression()?)
        } else {
            None
        };
        Ok(Stmt::Return(ReturnStmt { value }))
    }

    /// `defer statement`, only inside a function and not nested.
    pub fn parse_defer_statement(&mut self) -> (r: Result<Stmt, HuziError>)
        requires
            old(self).wf(),
            !old(self).at_end(),
        ensures
            r matches Err(e) ==> err_at(e, final(self).tokens@, final(self).pos as int),
            final(self).wf(),
            final(self).keeps(old(self)),
            r is Ok ==> final(self).pos > old(self).pos,
            r matches Ok(n) ==> node_ok(n),
            stmt_agrees(
                defer_p(
                    old(self).tokens@,
                    old(self).pos as int,
                    old(self).in_function,
                    old(self).in_defer,
                ),
                r,
                final(self).pos as int,
            ),
            r is Err ==> final(self).pos == stops::defer_stop(
                old(self).tokens@,
                old(self).pos as int,
                old(self).in_function,
                old(self).in_defer,
            ),
        decreases old(self).remaining(), 28nat,
    {
        let ghost ts = self.tokens@;
        let ghost p0 = self.pos as int;
        let ghost d = self.in_defer;
        let line = self.current_line();
        let col = self.current_col();
        if !self.in_function {
            return Err(
                crate::render::HuziError::new("defer is only allowed inside a function", line, col),
            );
        }
        if self.in_defer {
            return Err(crate::render::HuziError::new("nested defer is not allowed", line, col));
        }
        self.advance();
        self.in_defer = true;
        let inner = self.parse_statement();
        self.in_defer = false;
        let inner = inner?;
        Ok(Stmt::Defer(Box::new(inner)))
    }

    /// `if cond { ... } [elif cond { ... }]* [else { ... }]`.
    pub(crate) fn parse_if_statement(&mut self) -> (r: Result<Stmt, HuziError>)
        requires
            old(self).wf(),
        ensures
            r matches Err(e) ==> err_at(e, final(self).tokens@, final(self).pos as int),
            r is Err ==> final(self).pos == stops::if_stmt_stop(old(self).tokens@, old(self).pos as int, old(self).in_defer),
            final(self).wf(),
            final(self).keeps(old(self)),
            r is Ok ==> final(self).pos > old(self).pos,
            r matches Ok(n) ==> node_ok(n),
            stmt_agrees(if_stmt_p(old(self).tokens@, old(self).pos as int, old(self).in_defer), r, final(self).pos as int),
        decreases old(self).remaining(), 28nat,
    {
        let ghost ts = self.tokens@;
        let ghost p0 = self.pos as int;
        let ghost d = self.in_defer;
        self.advance();
        let condition = self.parse_expression()?;
        let then_branch = self.parse_block()?;
        let mut elif_branches: Vec<(Expr, Block)> = Vec::new();
        let ghost f0 = self.pos as int;
        while self.check(TokenKind::Elif)
            invariant
                self.wf(),
                self.keeps(old(self)),
                self.pos > old(self).pos,
                elifs_ok(elif_branches@),
                ts == self.tokens@,
                d == self.in_defer,
                p0 == old(self).pos,
                elif_rest(ts, f0, d, Seq::empty()) == elif_rest(
                    ts,
                    self.pos as int,
                    d,
                    elifvs(elif_branches@),
                ),
                elif_rest(ts, f0, d, Seq::empty()) is None ==> if_stmt_p(ts, p0, d) is None,
                elif_rest(ts, f0, d, Seq::empty()) is None ==> stops::if_stmt_stop(ts, p0, d)
                    == stops::elif_stop(ts, f0, d),
                stops::elif_stop(ts, f0, d) == stops::elif_stop(ts, self.pos as int, d),
            decreases self.remaining(),
        {
            self.advance();
            let elif_cond = self.parse_expression()?;
            let elif_block = self.parse_block()?;
            proof {
                assert(elif_branches@.push((elif_cond, elif_block)).drop_last() =~= elif_branches@);
                lemma_elifvs_push(elif_branches@, (elif_cond, elif_block));
            }
            elif_branches.push((elif_cond, elif_block));
        }
        let else_branch = if self.check(TokenKind::Else) {
            self.advance();
            Some(self.parse_block()?)
        } else {
            None
        };
        Ok(Stmt::If(IfStmt { condition, then_branch, elif_branches, else_branch }))
    }

    /// `for x in start..end { ... }` or `for x in array { ... }`.
    pub(crate) fn parse_for_statement(&mut self) -> (r: Result<Stmt, HuziError>)
        requires
            old(self).wf(),
        ensures
            r matches Err(e) ==> err_at(e, final(self).tokens@, final(self).pos as int),
            r is Err ==> final(self).pos == stops::for_stop(old(self).tokens@, old(self).pos as int, old(self).in_defer),
            final(self).wf(),
            final(self).keeps(old(self)),
            r is Ok ==> final(self).pos > old(self).pos,
            r matches Ok(n) ==> node_ok(n),
            stmt_agrees(for_p(old(self).tokens@, old(self).pos as int, old(self).in_defer), r, final(self).pos as int),
        decreases old(self).remaining(), 28nat,
    {
        let ghost ts = self.tokens@;
        let ghost p0 = self.pos as int;
        let ghost d = self.in_defer;
        self.advance();
        let var_name = self.expect_ident("Expected loop variable name")?;
        self.expect(TokenKind::In, "Expected 'in' after loop variable")?;
        let first = self.parse_expression()?;
        let source = if self.check(TokenKind::DotDot) {
            self.advance();
            let end = self.parse_expression()?;
            ForSource::Range { start: first, end }
        } else {
            ForSource::Array(first)
        };
        let body = self.parse_block()?;
        Ok(Stmt::For(ForStmt { var_name, source, body }))
    }

    /// `while cond { ... }`.
    pub(crate) fn parse_while_statement(&mut self) -> (r: Result<Stmt, HuziError>)
        requires
            old(self).wf(),
        ensures
            r matches Err(e) ==> err_at(e, final(self).tokens@, final(self).pos as int),
            r is Err ==> final(self).pos == stops::while_stop(old(self).tokens@, old(self).pos as int, old(self).in_defer),
            final(self).wf(),
            final(self).keeps(old(self)),
            r is Ok ==> final(self).pos > old(self).pos,
            r matches Ok(n) ==> node_ok(n),
            stmt_agrees(while_p(old(self).tokens@, old(self).pos as int, old(self).in_defer), r, final(self).pos as int),
        decreases old(self).remaining(), 28nat,
    {
        let ghost ts = self.tokens@;
        let ghost p0 = self.pos as int;
        let ghost d = self.in_defer;
        self.advance();
        let condition = self.parse_expression()?;
        let body = self.parse_block()?;
        Ok(Stmt::While(WhileStmt { condition, body }))
    }
}

} // verus!
