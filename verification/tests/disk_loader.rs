use huzi::ast::Program;
use huzi::disk_loader::{disk_parse_result, DiskLoader, DiskStep};
use huzi::modules::LoadedModule;
use huzi::parser::{Parser, SpannedToken, Token};
use huzi::render::HuziError;
use huzi::resolve::{import_file, missing_module_message};
use std::collections::HashMap;

/// Tokenizes Huzi source the way the compiler's lexer does (`#` and `//`
/// start comments): keywords,
/// names, integer/float/string/char literals and operators, each with its
/// 1-based line and column (in characters), then `Eof`.
fn lex(src: &str) -> Result<Vec<SpannedToken>, HuziError> {
    let chars: Vec<char> = src.chars().collect();
    let mut out = Vec::new();
    let (mut i, mut line, mut col) = (0usize, 1usize, 1usize);
    while i < chars.len() {
        let c = chars[i];
        if c == '\n' {
            i += 1;
            line += 1;
            col = 1;
            continue;
        }
        if c.is_whitespace() {
            i += 1;
            col += 1;
            continue;
        }
        if c == '#' || (c == '/' && i + 1 < chars.len() && chars[i + 1] == '/') {
            while i < chars.len() && chars[i] != '\n' {
                i += 1;
            }
            continue;
        }
        let (start_line, start_col) = (line, col);
        let token;
        if c.is_alphabetic() || c == '_' {
            let mut s = String::new();
            while i < chars.len() && (chars[i].is_alphanumeric() || chars[i] == '_') {
                s.push(chars[i]);
                i += 1;
                col += 1;
            }
            token = match s.as_str() {
                "let" => Token::Let,
                "mut" => Token::Mut,
                "fn" => Token::Fn,
                "struct" => Token::Struct,
                "enum" => Token::Enum,
                "import" => Token::Import,
                "export" => Token::Export,
                "return" => Token::Return,
                "break" => Token::Break,
                "continue" => Token::Continue,
                "if" => Token::If,
                "elif" => Token::Elif,
                "else" => Token::Else,
                "for" => Token::For,
                "in" => Token::In,
                "while" => Token::While,
                "match" => Token::Match,
                "true" => Token::True,
                "false" => Token::False,
                _ => Token::Ident(s),
            };
        } else if c.is_ascii_digit() {
            let mut s = String::new();
            while i < chars.len() && chars[i].is_ascii_digit() {
                s.push(chars[i]);
                i += 1;
                col += 1;
            }
            if i + 1 < chars.len() && chars[i] == '.' && chars[i + 1].is_ascii_digit() {
                s.push('.');
                i += 1;
                col += 1;
                while i < chars.len() && chars[i].is_ascii_digit() {
                    s.push(chars[i]);
                    i += 1;
                    col += 1;
                }
                token = Token::Float(s);
            } else {
                token = Token::Int(s.parse().unwrap());
            }
        } else if c == '"' {
            let mut s = String::new();
            i += 1;
            col += 1;
            while i < chars.len() && chars[i] != '"' {
                if chars[i] == '\n' {
                    return Err(HuziError::new("Unterminated string", start_line, start_col));
                }
                s.push(chars[i]);
                i += 1;
                col += 1;
            }
            if i >= chars.len() {
                return Err(HuziError::new("Unterminated string", start_line, start_col));
            }
            i += 1;
            col += 1;
            token = Token::String(s);
        } else if c == '\'' {
            let ch = chars[i + 1];
            i += 3;
            col += 3;
            token = Token::Char(ch);
        } else {
            let next = if i + 1 < chars.len() { chars[i + 1] } else { '\0' };
            let two = match (c, next) {
                ('=', '=') => Some(Token::EqualEqual),
                ('!', '=') => Some(Token::BangEqual),
                ('<', '=') => Some(Token::LessEqual),
                ('>', '=') => Some(Token::GreaterEqual),
                ('&', '&') => Some(Token::AmpAmp),
                ('|', '|') => Some(Token::BarBar),
                ('-', '>') => Some(Token::Arrow),
                ('=', '>') => Some(Token::FatArrow),
                (':', ':') => Some(Token::PathSep),
                ('.', '.') => Some(Token::DotDot),
                _ => None,
            };
            if let Some(t) = two {
                i += 2;
                col += 2;
                token = t;
            } else {
                token = match c {
                    '+' => Token::Plus,
                    '-' => Token::Minus,
                    '*' => Token::Star,
                    '/' => Token::Slash,
                    '%' => Token::Percent,
                    '=' => Token::Equal,
                    '!' => Token::Bang,
                    '<' => Token::Less,
                    '>' => Token::Greater,
                    '(' => Token::LParen,
                    ')' => Token::RParen,
                    '{' => Token::LBrace,
                    '}' => Token::RBrace,
                    '[' => Token::LBracket,
                    ']' => Token::RBracket,
                    ',' => Token::Comma,
                    ':' => Token::Colon,
                    ';' => Token::Semi,
                    '.' => Token::Dot,
                    '?' => Token::Question,
                    other => panic!("unexpected character {other:?}"),
                };
                i += 1;
                col += 1;
            }
        }
        out.push(SpannedToken { token, line: start_line, column: start_col });
    }
    out.push(SpannedToken { token: Token::Eof, line, column: col });
    Ok(out)
}

fn parse(src: &str) -> Program {
    Parser::new(lex(src).unwrap()).parse().unwrap()
}

/// Loads the imports of `main` against a map of files, resolving an
/// import `a.b` to the file `a/b.hz` under the directory it is imported
/// from.
fn load(main: &str, files: &[(&str, &str)]) -> (Result<Vec<LoadedModule>, String>, Vec<String>) {
    let fs: HashMap<String, String> = files.iter().map(|(k, v)| (k.to_string(), v.to_string())).collect();
    let mut program = parse(main);
    let mut loader = DiskLoader::new(&mut program, "");
    let mut resolved = Vec::new();
    loop {
        match loader.next() {
            DiskStep::Resolve { import, dir } => {
                let file = import_file(&import);
                let path = if dir.is_empty() { file.clone() } else { format!("{dir}/{file}") };
                if fs.contains_key(&path) {
                    resolved.push(path.clone());
                    loader.resolved(Ok(path));
                } else {
                    loader.resolved(Err(missing_module_message(&import, &dir)));
                }
            }
            DiskStep::Read { name, path } => {
                let source = fs[&path].clone();
                let outcome = lex(&source).and_then(|tokens| Parser::new(tokens).parse());
                loader.read(disk_parse_result(&name, &source, outcome, false));
            }
            DiskStep::Finished => break,
        }
    }
    (loader.finish(), resolved)
}

fn names(ms: &[LoadedModule]) -> Vec<&str> {
    ms.iter().map(|m| m.name.as_str()).collect()
}

const MAIN_FN: &str = "fn main() -> i32 {\n return 0\n}\n";

#[test]
fn builtin_modules_are_not_resolved() {
    let (r, resolved) = load(&format!("import math\n{MAIN_FN}"), &[]);
    let ms = r.unwrap();
    assert_eq!(names(&ms), vec!["math"]);
    assert!(ms[0].program.is_none() && ms[0].path.is_none());
    assert!(resolved.is_empty());
}

#[test]
fn dependencies_come_before_their_importers() {
    let files = [
        ("a.hz", "import b\nfn fa() -> i32 {\n return 1\n}\n"),
        ("b.hz", "fn fb() -> i32 {\n return 2\n}\n"),
    ];
    let (r, _) = load(&format!("import a\n{MAIN_FN}"), &files);
    let ms = r.unwrap();
    assert_eq!(names(&ms), vec!["b", "a"]);
    assert_eq!(ms[1].path.as_deref(), Some("a.hz"));
}

#[test]
fn circular_imports_load_each_module_once() {
    let files = [
        ("ca.hz", "import cb\nfn fa() -> i32 {\n return 1\n}\n"),
        ("cb.hz", "import ca\nfn fb() -> i32 {\n return 2\n}\n"),
    ];
    let (r, _) = load(&format!("import ca\n{MAIN_FN}"), &files);
    let ms = r.expect("cycle must truncate");
    let mut got = names(&ms);
    got.sort_unstable();
    assert_eq!(got, vec!["ca", "cb"]);
}

#[test]
fn one_name_two_files_while_loading_is_an_error() {
    let files = [
        ("x/m.hz", "import y.m\nfn f() -> i32 {\n return 1\n}\n"),
        ("x/y/m.hz", "fn g() -> i32 {\n return 2\n}\n"),
    ];
    let (r, _) = load(&format!("import x.m\n{MAIN_FN}"), &files);
    assert_eq!(r.unwrap_err(), "Module 'm' resolves to different files: x/m.hz and x/y/m.hz");
}

#[test]
fn a_name_already_loaded_is_not_loaded_again() {
    let files = [
        ("x/m.hz", "fn f() -> i32 {\n return 1\n}\n"),
        ("y/m.hz", "fn g() -> i32 {\n return 2\n}\n"),
    ];
    let (r, resolved) = load(&format!("import x.m\nimport y.m\n{MAIN_FN}"), &files);
    let ms = r.unwrap();
    assert_eq!(names(&ms), vec!["m"]);
    assert_eq!(ms[0].path.as_deref(), Some("x/m.hz"));
    assert_eq!(resolved, vec!["x/m.hz".to_string()]);
}

#[test]
fn bad_module_name_returns_err_without_exiting() {
    let (r, _) = load(&format!("import no_such_module_xyz\n{MAIN_FN}"), &[]);
    let err = r.expect_err("missing module must be Err, not exit");
    assert!(err.contains("Cannot find module 'no_such_module_xyz'"), "unexpected: {err}");
}

#[test]
fn module_with_top_level_statements_is_rejected() {
    let (r, _) = load(&format!("import bad\n{MAIN_FN}"), &[("bad.hz", "let x = 1\n")]);
    assert_eq!(
        r.unwrap_err(),
        "Module 'bad' may only contain fn/struct/enum/trait/impl definitions, imports, and exports"
    );
}

#[test]
fn module_parse_errors_are_rendered() {
    let (r, _) = load(&format!("import broken\n{MAIN_FN}"), &[("broken.hz", "let x = ;\n")]);
    let err = r.unwrap_err();
    assert!(err.starts_with("Module 'broken' error at line 1"), "unexpected: {err}");
}

#[test]
fn nested_imports_resolve_from_the_module_directory() {
    let files = [
        ("lib/a.hz", "import b\nfn fa() -> i32 {\n return 1\n}\n"),
        ("lib/b.hz", "fn fb() -> i32 {\n return 2\n}\n"),
    ];
    let (r, resolved) = load(&format!("import lib.a\n{MAIN_FN}"), &files);
    assert_eq!(names(&r.unwrap()), vec!["b", "a"]);
    assert_eq!(resolved, vec!["lib/a.hz".to_string(), "lib/b.hz".to_string()]);
}
