use huzi::ast::{BinOp, Expr, ForSource, Literal, Program, Stmt};
use huzi::parser::{Parser, SpannedToken, Token};
use huzi::render::HuziError;

/// Tokenizes Huzi source the way the compiler's lexer does: keywords,
/// names, integer/float/string/char literals and operators, each with its
/// 1-based line and column (in characters), then `Eof`.
fn lex(src: &str) -> Vec<SpannedToken> {
    let chars: Vec<char> = src.chars().collect();
    let mut out = Vec::new();
    let (mut i, mut line, mut col) = (0usize, 1usize, 1usize);
    while i < chars.len() {
        let c = chars[i];
        if c == '\n' {
            i += 1;
            line += 1;
            col = 1;
            continue;
        }
        if c.is_whitespace() {
            i += 1;
            col += 1;
            continue;
        }
        if c == '/' && i + 1 < chars.len() && chars[i + 1] == '/' {
            while i < chars.len() && chars[i] != '\n' {
                i += 1;
            }
            continue;
        }
        let (start_line, start_col) = (line, col);
        let token;
        if c.is_alphabetic() || c == '_' {
            let mut s = String::new();
            while i < chars.len() && (chars[i].is_alphanumeric() || chars[i] == '_') {
                s.push(chars[i]);
                i += 1;
                col += 1;
            }
            token = match s.as_str() {
                "let" => Token::Let,
                "mut" => Token::Mut,
                "fn" => Token::Fn,
                "struct" => Token::Struct,
                "enum" => Token::Enum,
                "import" => Token::Import,
                "export" => Token::Export,
                "return" => Token::Return,
                "break" => Token::Break,
                "continue" => Token::Continue,
                "if" => Token::If,
                "elif" => Token::Elif,
                "else" => Token::Else,
                "for" => Token::For,
                "in" => Token::In,
                "while" => Token::While,
                "match" => Token::Match,
                "true" => Token::True,
                "false" => Token::False,
                _ => Token::Ident(s),
            };
        } else if c.is_ascii_digit() {
            let mut s = String::new();
            while i < chars.len() && chars[i].is_ascii_digit() {
                s.push(chars[i]);
                i += 1;
                col += 1;
            }
            if i + 1 < chars.len() && chars[i] == '.' && chars[i + 1].is_ascii_digit() {
                s.push('.');
                i += 1;
                col += 1;
                while i < chars.len() && chars[i].is_ascii_digit() {
                    s.push(chars[i]);
                    i += 1;
                    col += 1;
                }
                token = Token::Float(s);
            } else {
                token = Token::Int(s.parse().unwrap());
            }
        } else if c == '"' {
            let mut s = String::new();
            i += 1;
            col += 1;
            while i < chars.len() && chars[i] != '"' {
                s.push(chars[i]);
                i += 1;
                col += 1;
            }
            i += 1;
            col += 1;
            token = Token::String(s);
        } else if c == '\'' {
            let ch = chars[i + 1];
            i += 3;
            col += 3;
            token = Token::Char(ch);
        } else {
            let next = if i + 1 < chars.len() { chars[i + 1] } else { '\0' };
            let two = match (c, next) {
                ('=', '=') => Some(Token::EqualEqual),
                ('!', '=') => Some(Token::BangEqual),
                ('<', '=') => Some(Token::LessEqual),
                ('>', '=') => Some(Token::GreaterEqual),
                ('&', '&') => Some(Token::AmpAmp),
                ('|', '|') => Some(Token::BarBar),
                ('-', '>') => Some(Token::Arrow),
                ('=', '>') => Some(Token::FatArrow),
                (':', ':') => Some(Token::PathSep),
                ('.', '.') => Some(Token::DotDot),
                _ => None,
            };
            if let Some(t) = two {
                i += 2;
                col += 2;
                token = t;
            } else {
                token = match c {
                    '+' => Token::Plus,
                    '-' => Token::Minus,
                    '*' => Token::Star,
                    '/' => Token::Slash,
                    '%' => Token::Percent,
                    '=' => Token::Equal,
                    '!' => Token::Bang,
                    '<' => Token::Less,
                    '>' => Token::Greater,
                    '(' => Token::LParen,
                    ')' => Token::RParen,
                    '{' => Token::LBrace,
                    '}' => Token::RBrace,
                    '[' => Token::LBracket,
                    ']' => Token::RBracket,
                    ',' => Token::Comma,
                    ':' => Token::Colon,
                    ';' => Token::Semi,
                    '.' => Token::Dot,
                    '?' => Token::Question,
                    other => panic!("unexpected character {other:?}"),
                };
                i += 1;
                col += 1;
            }
        }
        out.push(SpannedToken { token, line: start_line, column: start_col });
    }
    out.push(SpannedToken { token: Token::Eof, line, column: col });
    out
}

fn parse(src: &str) -> Program {
    Parser::new(lex(src)).parse().unwrap_or_else(|e| panic!("unexpected parse error: {:?}", e))
}

fn parse_recoverable(src: &str) -> (Program, Vec<HuziError>) {
    Parser::new(lex(src)).parse_recoverable()
}

#[test]
fn multiplication_binds_tighter_than_addition() {
    let program = parse("let r = 1 + 2 * 3");
    let Stmt::Let(let_stmt) = &program.statements[0].node else {
        panic!("expected a let statement");
    };
    let Some(Expr::Binary(add)) = &let_stmt.value else {
        panic!("expected a binary expression");
    };
    assert!(matches!(add.operator, BinOp::Add));
    let Expr::Literal(Literal::Int(1)) = &*add.left else {
        panic!("expected literal 1 as the left operand");
    };
    let Expr::Binary(mul) = &*add.right else {
        panic!("expected `2 * 3` as the right operand");
    };
    assert!(matches!(mul.operator, BinOp::Mul));
}

#[test]
fn let_mut_is_parsed_as_mutable() {
    let program = parse("let mut x = 1
let y = 2");
    let Stmt::Let(mutable) = &program.statements[0].node else {
        panic!("expected a let statement");
    };
    assert!(mutable.mutable);
    let Stmt::Let(immutable) = &program.statements[1].node else {
        panic!("expected a let statement");
    };
    assert!(!immutable.mutable);
}

#[test]
fn if_elif_else_structure() {
    let program = parse("if x > 0 { let a = 1 } elif x < 0 { let b = 2 } else { let c = 3 }");
    let Stmt::If(if_stmt) = &program.statements[0].node else {
        panic!("expected an if statement");
    };
    assert_eq!(if_stmt.then_branch.statements.len(), 1);
    assert_eq!(if_stmt.elif_branches.len(), 1);
    assert!(if_stmt.else_branch.is_some());
}

#[test]
fn import_parses_dotted_name() {
    let program = parse("import mods.helpers");
    let Stmt::Import(imp) = &program.statements[0].node else {
        panic!("expected an import statement");
    };
    assert_eq!(imp.name, "mods.helpers");
}

#[test]
fn parse_error_reports_real_position() {
    let err = Parser::new(lex("let x = ;"))
        .parse()
        .expect_err("`;` is not a valid expression");
    assert_eq!((err.line(), err.column()), (1, 9));
}

#[test]
fn statements_carry_source_span() {
    let program = parse("let x = 1\nlet y = 2");
    assert_eq!(program.statements[0].span.line, 1);
    assert_eq!(program.statements[0].span.column, 1);
    assert_eq!(program.statements[1].span.line, 2);
    assert_eq!(program.statements[1].span.column, 1);
}

#[test]
fn parses_for_in_array() {
    let program = parse(
        "fn main() -> i32 {\n    for x in nums {\n        print(x)\n    }\n    return 0\n}",
    );
    let Stmt::Fn(fn_stmt) = &program.statements[0].node else {
        panic!("expected fn main");
    };
    let mut found_array = false;
    for s in &fn_stmt.body.statements {
        if let Stmt::For(for_stmt) = &s.node {
            assert!(
                matches!(&for_stmt.source, ForSource::Array(_)),
                "for x in nums should parse as array iteration"
            );
            found_array = true;
        }
    }
    assert!(found_array, "for statement should be present");
}

#[test]
fn recoverable_reports_both_errors_with_positions() {
    let (program, errors) = parse_recoverable("let x = ; let y = ;");
    assert_eq!(errors.len(), 2);
    assert_eq!((errors[0].line(), errors[0].column()), (1, 9));
    assert_eq!((errors[1].line(), errors[1].column()), (1, 19));
    assert!(program.statements.is_empty());
}

#[test]
fn recoverable_keeps_good_statement_after_error() {
    let (program, errors) = parse_recoverable("let x = ;\nlet y = 2");
    assert_eq!(errors.len(), 1);
    assert_eq!(program.statements.len(), 1);
    let Stmt::Let(let_stmt) = &program.statements[0].node else {
        panic!("expected the good let statement to survive");
    };
    assert_eq!(let_stmt.name, "y");
    assert_eq!(program.statements[0].span.line, 2);
    assert_eq!(program.statements[0].span.column, 1);
}

#[test]
fn recoverable_caps_errors_at_32() {
    let src = "let x = ;\n".repeat(40);
    let (program, errors) = parse_recoverable(&src);
    assert_eq!(errors.len(), 32);
    assert!(program.statements.is_empty());
}

#[test]
fn parse_still_returns_first_error() {
    let err = Parser::new(lex("let x = ; let y = ;"))
        .parse()
        .expect_err("double fault must still fail fast");
    assert_eq!((err.line(), err.column()), (1, 9));
}

#[test]
fn parse_fails_where_recovery_reports_first() {
    let src = "let a = 1\nlet b = ;\nlet c = 3";
    let (program, errors) = parse_recoverable(src);
    assert_eq!(errors.len(), 1);
    assert_eq!((errors[0].line(), errors[0].column()), (2, 9));
    assert_eq!(program.statements.len(), 2);
    let err = Parser::new(lex(src)).parse().expect_err("the first fault fails fast");
    assert_eq!((err.line(), err.column()), (errors[0].line(), errors[0].column()));
    assert_eq!(err.line(), 2);
    assert_eq!(err.message, errors[0].message);
}

#[test]
fn statement_spans_end_after_their_last_token() {
    let program = parse("let answer = 42\nx = answer");
    let s0 = program.statements[0].span;
    assert_eq!((s0.line, s0.column, s0.end_line, s0.end_column), (1, 1, 1, 15));
    let Stmt::Expr(e) = &program.statements[1].node else {
        panic!("expected an assignment expression");
    };
    assert!(matches!(e.expr, Expr::Assign(_)));
}

#[test]
fn generic_call_and_struct_literal() {
    let program = parse("let p = Pair<i32, str> { a: 1, b: \"x\" }\nlet q = id<i32>(5)");
    let Stmt::Let(l0) = &program.statements[0].node else { panic!("let") };
    let Some(Expr::StructLiteral(s)) = &l0.value else { panic!("struct literal") };
    assert_eq!(s.name, "Pair");
    assert_eq!(s.type_args.len(), 2);
    assert_eq!(s.fields.len(), 2);
    let Stmt::Let(l1) = &program.statements[1].node else { panic!("let") };
    let Some(Expr::Call(c)) = &l1.value else { panic!("call") };
    assert_eq!(c.type_args.len(), 1);
}

#[test]
fn comparison_with_less_is_not_a_generic_call() {
    let program = parse("let b = a < c");
    let Stmt::Let(l) = &program.statements[0].node else { panic!("let") };
    let Some(Expr::Binary(b)) = &l.value else { panic!("binary") };
    assert!(matches!(b.operator, BinOp::Lt));
}

#[test]
fn enum_and_match_parse() {
    let program = parse(
        "enum Shape { Dot, Rect(i32, i32) }\nlet k = match s { Shape::Rect(w, h) => w * h, _ => 0 }",
    );
    let Stmt::Enum(e) = &program.statements[0].node else { panic!("enum") };
    assert_eq!(e.variants.len(), 2);
    assert_eq!(e.variants[1].payloads.len(), 2);
    let Stmt::Let(l) = &program.statements[1].node else { panic!("let") };
    let Some(Expr::Match(m)) = &l.value else { panic!("match") };
    assert_eq!(m.arms.len(), 2);
}

#[test]
fn box_type_requires_a_named_struct() {
    let err = Parser::new(lex("let b: Box<[i32; 2]> = 1")).parse().expect_err("an array is refused");
    assert_eq!(err.message(), "Box<T> requires a named struct type (found '[i32; 2]')");
    let nested = Parser::new(lex("let b: Box<Box<P>> = 1")).parse().expect_err("nesting is refused");
    assert!(nested.message().starts_with("Nested Box<Box<..>> is not supported yet"));
    let ok = parse("let b: Box<P> = 1");
    assert_eq!(ok.statements.len(), 1);
    let err2 = Parser::new(lex("let v: Vec<i32> = 1")).parse().expect_err("only Box is generic");
    assert!(err2.message().contains("Only Box<T> supports generic parameters (found 'Vec<')"));
}

#[test]
fn duplicate_type_parameter_is_an_error() {
    let err = Parser::new(lex("fn f<T, T>() { }")).parse().expect_err("duplicate");
    assert!(err.message().contains("Duplicate type parameter 'T'"));
}

#[test]
fn invalid_assignment_target_is_reported() {
    let err = Parser::new(lex("1 = 2")).parse().expect_err("literal target");
    assert_eq!(err.message(), "Invalid assignment target");
}

#[test]
fn export_parses_module_wildcard_and_item() {
    let p1 = parse("export calc");
    let Stmt::Export(exp1) = &p1.statements[0].node else { panic!("expected export"); };
    assert_eq!(exp1.path, "calc");
    assert!(!exp1.is_wildcard);

    let p2 = parse("export calc::*");
    let Stmt::Export(exp2) = &p2.statements[0].node else { panic!("expected export"); };
    assert_eq!(exp2.path, "calc");
    assert!(exp2.is_wildcard);

    let p3 = parse("export calc::add");
    let Stmt::Export(exp3) = &p3.statements[0].node else { panic!("expected export"); };
    assert_eq!(exp3.path, "calc::add");
    assert!(!exp3.is_wildcard);
}
