use huzi::loader::{memory_parse_result, LoadStep, MemLoader};
use huzi::modules::LoadedModule;
use huzi::parser::{Parser, SpannedToken, Token};
use huzi::render::HuziError;

/// Tokenizes Huzi source the way the compiler's lexer does (`#` and `//`
/// start comments): keywords,
/// names, integer/float/string/char literals and operators, each with its
/// 1-based line and column (in characters), then `Eof`.
fn lex(src: &str) -> Result<Vec<SpannedToken>, HuziError> {
    let chars: Vec<char> = src.chars().collect();
    let mut out = Vec::new();
    let (mut i, mut line, mut col) = (0usize, 1usize, 1usize);
    while i < chars.len() {
        let c = chars[i];
        if c == '\n' {
            i += 1;
            line += 1;
            col = 1;
            continue;
        }
        if c.is_whitespace() {
            i += 1;
            col += 1;
            continue;
        }
        if c == '#' || (c == '/' && i + 1 < chars.len() && chars[i + 1] == '/') {
            while i < chars.len() && chars[i] != '\n' {
                i += 1;
            }
            continue;
        }
        let (start_line, start_col) = (line, col);
        let token;
        if c.is_alphabetic() || c == '_' {
            let mut s = String::new();
            while i < chars.len() && (chars[i].is_alphanumeric() || chars[i] == '_') {
                s.push(chars[i]);
                i += 1;
                col += 1;
            }
            token = match s.as_str() {
                "let" => Token::Let,
                "mut" => Token::Mut,
                "fn" => Token::Fn,
                "struct" => Token::Struct,
                "enum" => Token::Enum,
                "import" => Token::Import,
                "export" => Token::Export,
                "return" => Token::Return,
                "break" => Token::Break,
                "continue" => Token::Continue,
                "if" => Token::If,
                "elif" => Token::Elif,
                "else" => Token::Else,
                "for" => Token::For,
                "in" => Token::In,
                "while" => Token::While,
                "match" => Token::Match,
                "true" => Token::True,
                "false" => Token::False,
                _ => Token::Ident(s),
            };
        } else if c.is_ascii_digit() {
            let mut s = String::new();
            while i < chars.len() && chars[i].is_ascii_digit() {
                s.push(chars[i]);
                i += 1;
                col += 1;
            }
            if i + 1 < chars.len() && chars[i] == '.' && chars[i + 1].is_ascii_digit() {
                s.push('.');
                i += 1;
                col += 1;
                while i < chars.len() && chars[i].is_ascii_digit() {
                    s.push(chars[i]);
                    i += 1;
                    col += 1;
                }
                token = Token::Float(s);
            } else {
                token = Token::Int(s.parse().unwrap());
            }
        } else if c == '"' {
            let mut s = String::new();
            i += 1;
            col += 1;
            while i < chars.len() && chars[i] != '"' {
                if chars[i] == '\n' {
                    return Err(HuziError::new("Unterminated string", start_line, start_col));
                }
                s.push(chars[i]);
                i += 1;
                col += 1;
            }
            if i >= chars.len() {
                return Err(HuziError::new("Unterminated string", start_line, start_col));
            }
            i += 1;
            col += 1;
            token = Token::String(s);
        } else if c == '\'' {
            let ch = chars[i + 1];
            i += 3;
            col += 3;
            token = Token::Char(ch);
        } else {
            let next = if i + 1 < chars.len() { chars[i + 1] } else { '\0' };
            let two = match (c, next) {
                ('=', '=') => Some(Token::EqualEqual),
                ('!', '=') => Some(Token::BangEqual),
                ('<', '=') => Some(Token::LessEqual),
                ('>', '=') => Some(Token::GreaterEqual),
                ('&', '&') => Some(Token::AmpAmp),
                ('|', '|') => Some(Token::BarBar),
                ('-', '>') => Some(Token::Arrow),
                ('=', '>') => Some(Token::FatArrow),
                (':', ':') => Some(Token::PathSep),
                ('.', '.') => Some(Token::DotDot),
                _ => None,
            };
            if let Some(t) = two {
                i += 2;
                col += 2;
                token = t;
            } else {
                token = match c {
                    '+' => Token::Plus,
                    '-' => Token::Minus,
                    '*' => Token::Star,
                    '/' => Token::Slash,
                    '%' => Token::Percent,
                    '=' => Token::Equal,
                    '!' => Token::Bang,
                    '<' => Token::Less,
                    '>' => Token::Greater,
                    '(' => Token::LParen,
                    ')' => Token::RParen,
                    '{' => Token::LBrace,
                    '}' => Token::RBrace,
                    '[' => Token::LBracket,
                    ']' => Token::RBracket,
                    ',' => Token::Comma,
                    ':' => Token::Colon,
                    ';' => Token::Semi,
                    '.' => Token::Dot,
                    '?' => Token::Question,
                    other => panic!("unexpected character {other:?}"),
                };
                i += 1;
                col += 1;
            }
        }
        out.push(SpannedToken { token, line: start_line, column: start_col });
    }
    out.push(SpannedToken { token: Token::Eof, line, column: col });
    Ok(out)
}

/// Loads the in-memory sources the way the language server does: each
/// source the loader names is lexed and parsed, and the outcome handed
/// back.
fn load_from_memory(files: Vec<(String, String)>) -> Result<Vec<LoadedModule>, String> {
    let mut loader = MemLoader::new(files);
    loop {
        match loader.next() {
            LoadStep::Parse { name, source } => {
                let outcome = lex(&source).map(|tokens| Parser::new(tokens).parse_recoverable());
                loader.parsed(memory_parse_result(&name, &source, outcome, false));
            }
            LoadStep::Finished => break,
        }
    }
    loader.finish()
}

fn files(pairs: &[(&str, &str)]) -> Vec<(String, String)> {
    pairs.iter().map(|(k, v)| (k.to_string(), v.to_string())).collect()
}

#[test]
fn memory_loader_collects_two_errors() {
    let fs = files(&[("bad_lex", "\"unterminated\n"), ("bad_top", "let x = 1\n")]);
    let err = load_from_memory(fs).expect_err("two bad modules must be Err");
    assert!(err.contains("bad_lex"), "missing lex error: {err}");
    assert!(err.contains("bad_top"), "missing validate error: {err}");
}

#[test]
fn memory_loader_ok_with_url_key_and_builtin_skip() {
    let fs = files(&[
        ("file:///proj/mods/greeter.hz", "fn greet() -> i32 {\n return 1\n}\n"),
        ("math", "garbage ((( "),
        ("app", "import mods.greeter\nfn run() -> i32 {\n return 1\n}\n"),
    ]);
    let modules = load_from_memory(fs).expect("memory load must succeed");
    assert!(modules.iter().any(|m| m.name == "app" && m.program.is_some()));
    assert!(modules.iter().any(|m| m.name == "greeter" && m.program.is_some() && m.path.is_none()));
    assert!(modules.iter().any(|m| m.name == "math" && m.program.is_none() && m.path.is_none()));
}

#[test]
fn memory_loader_errors_are_exact_and_ordered() {
    let fs = files(&[("b", "let x = 1\n"), ("a", "import nowhere\nfn f() -> i32 {\n return 1\n}\n")]);
    let err = load_from_memory(fs).expect_err("must fail");
    assert_eq!(
        err,
        "Cannot find module 'nowhere' in memory\nModule 'b' may only contain fn/struct/enum/trait/impl definitions, imports, and exports"
    );
}

#[test]
fn memory_loader_truncates_cycles_and_orders_dependencies_first() {
    let fs = files(&[
        ("ca", "import cb\nfn fa() -> i32 {\n return 1\n}\n"),
        ("cb", "import ca\nfn fb() -> i32 {\n return 2\n}\n"),
    ]);
    let modules = load_from_memory(fs).expect("cycle must truncate");
    let names: Vec<&str> = modules.iter().map(|m| m.name.as_str()).collect();
    assert_eq!(names, vec!["cb", "ca"]);
}

#[test]
fn parse_errors_render_under_the_module_label() {
    let outcome = Err(HuziError::new("boom", 1, 1));
    let r = memory_parse_result("m", "x\n", outcome, false).unwrap_err();
    assert_eq!(r, "Module 'm' error at line 1, column 1: boom\n  |\n1 | x\n  | ^");
    let two = Ok((huzi::ast::Program { statements: vec![] }, vec![HuziError::new("a", 1, 1), HuziError::new_global("b")]));
    let r = memory_parse_result("m", "x\n", two, false).unwrap_err();
    assert_eq!(r, "Module 'm' error at line 1, column 1: a\n  |\n1 | x\n  | ^\nModule 'm' error: b");
}
