use huzi::ast::Program;
use huzi::lsp_complete::{completion_for_text, CompletionEntry, CompletionKind};
use huzi::lsp_map::{
    huzi_pos_to_lsp, huzi_range_to_lsp, lsp_pos_to_char_col, lsp_pos_to_huzi, word_at_position,
    LspPosition,
};
use huzi::lsp_query::{
    definition_range_for_text, find_symbol, hover_for_text, symbols_for_text, to_lsp_diagnostics,
    OutlineKind, RawDiagnostic,
};
use huzi::lsp_refs::references_for_text;
use huzi::parser::{Parser, SpannedToken, Token};
use huzi::symbols::{collect_symbols, Symbol};
use ropey::Rope;

/// Tokenizes Huzi source the way the compiler's lexer does (`#` and `//`
/// start comments): keywords,
/// names, integer/float/string/char literals and operators, each with its
/// 1-based line and column (in characters), then `Eof`.
fn lex(src: &str) -> Vec<SpannedToken> {
    let chars: Vec<char> = src.chars().collect();
    let mut out = Vec::new();
    let (mut i, mut line, mut col) = (0usize, 1usize, 1usize);
    while i < chars.len() {
        let c = chars[i];
        if c == '\n' {
            i += 1;
            line += 1;
            col = 1;
            continue;
        }
        if c.is_whitespace() {
            i += 1;
            col += 1;
            continue;
        }
        if c == '#' || (c == '/' && i + 1 < chars.len() && chars[i + 1] == '/') {
            while i < chars.len() && chars[i] != '\n' {
                i += 1;
            }
            continue;
        }
        let (start_line, start_col) = (line, col);
        let token;
        if c.is_alphabetic() || c == '_' {
            let mut s = String::new();
            while i < chars.len() && (chars[i].is_alphanumeric() || chars[i] == '_') {
                s.push(chars[i]);
                i += 1;
                col += 1;
            }
            token = match s.as_str() {
                "let" => Token::Let,
                "mut" => Token::Mut,
                "fn" => Token::Fn,
                "struct" => Token::Struct,
                "enum" => Token::Enum,
                "import" => Token::Import,
                "export" => Token::Export,
                "return" => Token::Return,
                "break" => Token::Break,
                "continue" => Token::Continue,
                "if" => Token::If,
                "elif" => Token::Elif,
                "else" => Token::Else,
                "for" => Token::For,
                "in" => Token::In,
                "while" => Token::While,
                "match" => Token::Match,
                "true" => Token::True,
                "false" => Token::False,
                _ => Token::Ident(s),
            };
        } else if c.is_ascii_digit() {
            let mut s = String::new();
            while i < chars.len() && chars[i].is_ascii_digit() {
                s.push(chars[i]);
                i += 1;
                col += 1;
            }
            if i + 1 < chars.len() && chars[i] == '.' && chars[i + 1].is_ascii_digit() {
                s.push('.');
                i += 1;
                col += 1;
                while i < chars.len() && chars[i].is_ascii_digit() {
                    s.push(chars[i]);
                    i += 1;
                    col += 1;
                }
                token = Token::Float(s);
            } else {
                token = Token::Int(s.parse().unwrap());
            }
        } else if c == '"' {
            let mut s = String::new();
            i += 1;
            col += 1;
            while i < chars.len() && chars[i] != '"' {
                s.push(chars[i]);
                i += 1;
                col += 1;
            }
            i += 1;
            col += 1;
            token = Token::String(s);
        } else if c == '\'' {
            let ch = chars[i + 1];
            i += 3;
            col += 3;
            token = Token::Char(ch);
        } else {
            let next = if i + 1 < chars.len() { chars[i + 1] } else { '\0' };
            let two = match (c, next) {
                ('=', '=') => Some(Token::EqualEqual),
                ('!', '=') => Some(Token::BangEqual),
                ('<', '=') => Some(Token::LessEqual),
                ('>', '=') => Some(Token::GreaterEqual),
                ('&', '&') => Some(Token::AmpAmp),
                ('|', '|') => Some(Token::BarBar),
                ('-', '>') => Some(Token::Arrow),
                ('=', '>') => Some(Token::FatArrow),
                (':', ':') => Some(Token::PathSep),
                ('.', '.') => Some(Token::DotDot),
                _ => None,
            };
            if let Some(t) = two {
                i += 2;
                col += 2;
                token = t;
            } else {
                token = match c {
                    '+' => Token::Plus,
                    '-' => Token::Minus,
                    '*' => Token::Star,
                    '/' => Token::Slash,
                    '%' => Token::Percent,
                    '=' => Token::Equal,
                    '!' => Token::Bang,
                    '<' => Token::Less,
                    '>' => Token::Greater,
                    '(' => Token::LParen,
                    ')' => Token::RParen,
                    '{' => Token::LBrace,
                    '}' => Token::RBrace,
                    '[' => Token::LBracket,
                    ']' => Token::RBracket,
                    ',' => Token::Comma,
                    ':' => Token::Colon,
                    ';' => Token::Semi,
                    '.' => Token::Dot,
                    '?' => Token::Question,
                    other => panic!("unexpected character {other:?}"),
                };
                i += 1;
                col += 1;
            }
        }
        out.push(SpannedToken { token, line: start_line, column: start_col });
    }
    out.push(SpannedToken { token: Token::Eof, line, column: col });
    out
}

/// The document's syntax tree and symbols, as the language server gets
/// them: statements that parse are kept, the others dropped.
fn parse_and_collect(text: &str) -> (Program, Vec<Symbol>) {
    let (program, _errors) = Parser::new(lex(text)).parse_recoverable();
    let symbols = collect_symbols(&program);
    (program, symbols)
}

fn complete(text: &str, line: u32, character: u32) -> Vec<CompletionEntry> {
    let (program, symbols) = parse_and_collect(text);
    completion_for_text(text, LspPosition { line, character }, &program, &symbols)
}

fn labels(items: &[CompletionEntry]) -> Vec<&str> {
    items.iter().map(|i| i.label.as_str()).collect()
}

fn pos(line: u32, character: u32) -> LspPosition {
    LspPosition { line, character }
}

// mapping

#[test]
fn chinese_line_maps_by_char_index() {
    let rope = Rope::from_str("变量名 = 1\n第二行\n");
    let p = huzi_pos_to_lsp(&rope, 1, 4);
    assert_eq!(p, LspPosition { line: 0, character: 3 });
    let p2 = huzi_pos_to_lsp(&rope, 2, 1);
    assert_eq!(p2, LspPosition { line: 1, character: 0 });
}

#[test]
fn emoji_counts_as_two_utf16_units() {
    let rope = Rope::from_str("a\u{1F600}b\n");
    let p = huzi_pos_to_lsp(&rope, 1, 3);
    assert_eq!(p, LspPosition { line: 0, character: 3 });
}

#[test]
fn global_and_out_of_range_positions_are_clamped() {
    let rope = Rope::from_str("let x = 1\n");
    let global = huzi_pos_to_lsp(&rope, 0, 0);
    let huge = huzi_pos_to_lsp(&rope, 99, 99);
    assert_eq!(global, LspPosition { line: 0, character: 0 });
    assert_eq!(huge.line, 1);
}

#[test]
fn inverted_range_collapses_to_start() {
    let rope = Rope::from_str("let x = 1\n");
    let range = huzi_range_to_lsp(&rope, 1, 5, 1, 2);
    assert_eq!(range.start, range.end);
}

#[test]
fn word_range_folds_emoji_utf16() {
    let rope = Rope::from_str("a\u{1F600}b foo\n");
    let (word, range) = word_at_position(&rope, pos(0, 5)).expect("word foo");
    assert_eq!(word, "foo");
    assert_eq!(range.start.character, 5);
    assert_eq!(range.end.character, 8);
}

#[test]
fn word_miss_on_blank_and_out_of_range() {
    let rope = Rope::from_str("let x = 1\n");
    assert!(word_at_position(&rope, pos(0, 3)).is_none());
    assert!(word_at_position(&rope, pos(9, 0)).is_none());
    assert!(lsp_pos_to_huzi(&rope, pos(9, 0)).is_none());
}

#[test]
fn column_past_line_end_keeps_the_break_in_range() {
    // The clamp reaches the line's break: `let x = 1\n` has 10 characters.
    let rope = Rope::from_str("let x = 1\nab");
    assert_eq!(huzi_pos_to_lsp(&rope, 1, 99), LspPosition { line: 0, character: 10 });
    assert_eq!(huzi_pos_to_lsp(&rope, 2, 99), LspPosition { line: 1, character: 2 });
}

#[test]
fn crlf_and_unicode_breaks_start_lines() {
    let rope = Rope::from_str("a\r\nbb\u{2028}ccc");
    assert_eq!(huzi_pos_to_lsp(&rope, 3, 2), LspPosition { line: 2, character: 1 });
    assert_eq!(lsp_pos_to_huzi(&rope, pos(1, 2)), Some((2, 3)));
}

#[test]
fn surrogate_middle_and_line_end_columns() {
    let rope = Rope::from_str("a\u{1F600}b\n");
    // Column 2 falls inside the emoji's surrogate pair.
    assert_eq!(lsp_pos_to_char_col(&rope, pos(0, 2)), None);
    assert_eq!(lsp_pos_to_char_col(&rope, pos(0, 3)), Some(2));
    // The end of the line is a column; past it is none.
    assert_eq!(lsp_pos_to_char_col(&rope, pos(0, 4)), Some(3));
    assert_eq!(lsp_pos_to_char_col(&rope, pos(0, 5)), None);
}

// references

#[test]
fn same_word_lists_all_occurrences() {
    let text = "fn factorial(n: i32) -> i32 {\n    n\n}\nfn main() -> i32 {\n    factorial(1)\n}\n";
    let uri = "file:///proj/main.hz";
    let hits = references_for_text(text, uri, pos(4, 5));
    assert!(!hits.is_empty());
    let lines: Vec<u32> = hits.iter().map(|h| h.range.start.line).collect();
    assert!(lines.contains(&0), "{lines:?}");
    assert!(lines.contains(&4), "{lines:?}");
    for h in &hits {
        assert_eq!(h.uri, uri);
    }
}

#[test]
fn prefix_word_does_not_match_longer_ident() {
    let text = "fn add() -> i32 {\n return 1\n}\nfn adder() -> i32 {\n return 2\n}\n";
    let hits = references_for_text(text, "file:///proj/main.hz", pos(0, 3));
    assert_eq!(hits.len(), 1);
    assert_eq!(hits[0].range.start.line, 0);
}

#[test]
fn chinese_ident_hits_stay_aligned() {
    let text = "let 变量 = 1\n变量\n";
    let hits = references_for_text(text, "file:///proj/main.hz", pos(1, 1));
    assert_eq!(hits.len(), 2);
    assert_eq!(hits[0].range.start.line, 0);
    assert_eq!(hits[0].range.start.character, 4);
    assert_eq!(hits[1].range.start.line, 1);
}

#[test]
fn blank_position_returns_empty() {
    let text = "let x = 1\n";
    assert!(references_for_text(text, "file:///proj/main.hz", pos(0, 3)).is_empty());
    assert!(references_for_text(text, "file:///proj/main.hz", pos(9, 0)).is_empty());
}

#[test]
fn references_ranges_fold_emoji() {
    let text = "\u{1F600} x x\nxx x\n";
    let hits = references_for_text(text, "u", pos(0, 3));
    let got: Vec<(u32, u32, u32)> =
        hits.iter().map(|h| (h.range.start.line, h.range.start.character, h.range.end.character)).collect();
    assert_eq!(got, vec![(0, 3, 4), (0, 5, 6), (1, 3, 4)]);
}

// completion

#[test]
fn empty_prefix_offers_keywords() {
    let items = complete("", 0, 0);
    let got = labels(&items);
    assert!(got.contains(&"fn"), "{got:?}");
    assert!(got.contains(&"let"), "{got:?}");
}

#[test]
fn symbol_prefix_filters() {
    let text = "fn factorial(n: i32) -> i32 {\n    n\n}\nfac";
    let items = complete(text, 3, 3);
    let got = labels(&items);
    assert!(got.contains(&"factorial"), "{got:?}");
    assert!(!got.contains(&"let"), "{got:?}");
}

#[test]
fn dot_after_struct_returns_fields() {
    let text = "struct Point { x: i32, y: i32 }\nPoint.";
    let items = complete(text, 1, 6);
    let got = labels(&items);
    assert!(got.contains(&"x"), "{got:?}");
    assert!(got.contains(&"y"), "{got:?}");
}

#[test]
fn dot_unknown_base_returns_generic_members() {
    let text = "let v = 1\nv.";
    let items = complete(text, 1, 2);
    assert!(!items.is_empty());
}

#[test]
fn bad_file_still_offers_keywords() {
    let text = "let = \n";
    let items = complete(text, 0, 0);
    let got = labels(&items);
    assert!(got.contains(&"fn"), "{got:?}");
    assert!(got.contains(&"let"), "{got:?}");
}

#[test]
fn math_module_returns_trig_fns() {
    let items = complete("math::", 0, 6);
    let got = labels(&items);
    assert!(got.contains(&"sin"), "{got:?}");
    assert!(got.contains(&"cos"), "{got:?}");
    assert!(got.contains(&"sqrt"), "{got:?}");
}

#[test]
fn completion_details_and_kinds() {
    let text = "struct Point { x: i32, yy: str }\nPoint.y";
    let items = complete(text, 1, 7);
    assert_eq!(items.len(), 1);
    assert_eq!(items[0].label, "yy");
    assert_eq!(items[0].kind, CompletionKind::Field);
    assert_eq!(items[0].detail, "Point::yy: str");
    let items = complete("math::s", 0, 7);
    let got: Vec<(&str, &str)> = items.iter().map(|i| (i.label.as_str(), i.detail.as_str())).collect();
    assert_eq!(got, vec![("sqrt", "math::sqrt"), ("sin", "math::sin")]);
    let items = complete("e", 0, 1);
    let got = labels(&items);
    assert_eq!(got, vec!["elif", "else", "enum"]);
    assert!(items.iter().all(|i| i.kind == CompletionKind::Keyword && i.detail == "keyword"));
}

#[test]
fn enum_variants_after_colon_and_unknown_module_is_empty() {
    let text = "enum Color { Red, Green, Rose }\nColor::R";
    let items = complete(text, 1, 8);
    let got: Vec<(&str, &str)> = items.iter().map(|i| (i.label.as_str(), i.detail.as_str())).collect();
    assert_eq!(got, vec![("Red", "Color::Red"), ("Rose", "Color::Rose")]);
    assert!(items.iter().all(|i| i.kind == CompletionKind::EnumMember));
    assert!(complete("nothing::", 0, 9).is_empty());
}

#[test]
fn duplicate_labels_are_offered_once() {
    // `let` is both a keyword and, here, never a symbol; `item` is defined
    // twice and offered once.
    let text = "fn item() -> i32 {\n return 1\n}\nlet item = 2\nit";
    let items = complete(text, 4, 2);
    assert_eq!(labels(&items), vec!["item"]);
    assert_eq!(items[0].kind, CompletionKind::Function);
}

#[test]
fn generic_members_filter_by_prefix() {
    let items = complete("let v = 1\nv.p", 1, 3);
    assert_eq!(labels(&items), vec!["push", "pop"]);
    assert!(items.iter().all(|i| i.detail == "member"));
}

// hover, definition, outline

const FACT: &str =
    "fn factorial(n: i32) -> i32 {\n    n\n}\nfn main() -> i32 {\n    factorial(1)\n}\n";

fn hover_at(text: &str, line: u32, character: u32) -> Option<String> {
    let (_program, symbols) = parse_and_collect(text);
    hover_for_text(text, pos(line, character), &symbols).map(|(h, _)| h)
}

#[test]
fn hover_on_fn_name_shows_signature() {
    let hover = hover_at(FACT, 0, 3).expect("hover hits fn name");
    assert!(hover.contains("fn factorial"), "{hover:?}");
    assert!(hover.contains("Function"), "{hover:?}");
}

#[test]
fn hover_miss_returns_none() {
    assert!(hover_at(FACT, 1, 0).is_none());
    assert!(hover_at(FACT, 3, 0).is_none());
    assert!(hover_at("", 0, 0).is_none());
    assert!(hover_at("let = \n", 0, 0).is_none());
}

#[test]
fn definition_range_is_never_inverted() {
    let (_program, symbols) = parse_and_collect(FACT);
    let range = definition_range_for_text(FACT, pos(4, 5), &symbols).expect("definition found");
    assert!(
        (range.end.line, range.end.character) >= (range.start.line, range.start.character),
        "{range:?}"
    );
    assert_eq!(range.start.line, 0);
}

#[test]
fn document_symbol_lists_outline() {
    let text = "fn factorial(n: i32) -> i32 {\n    n\n}\nlet x = 1\n";
    let (_program, symbols) = parse_and_collect(text);
    let syms = symbols_for_text(text, &symbols);
    assert!(!syms.is_empty());
    let fun = syms.iter().find(|s| s.name == "factorial").expect("fn symbol");
    assert_eq!(fun.kind, OutlineKind::Function);
    assert!(fun.detail.contains("fn factorial"));
    let var = syms.iter().find(|s| s.name == "x").expect("let symbol");
    assert_eq!(var.kind, OutlineKind::Variable);
    for s in &syms {
        assert!(
            (s.range.end.line, s.range.end.character) >= (s.range.start.line, s.range.start.character),
            "inverted range for {}",
            s.name
        );
    }
}

#[test]
fn hover_after_chinese_line_stays_aligned() {
    let text = "# 递归函数示例中文行\nfn factorial(n: i32) -> i32 {\n    n\n}\n";
    let hover = hover_at(text, 1, 3).expect("hover aligned after chinese line");
    assert!(hover.contains("fn factorial"), "{hover:?}");
    let text2 = "let 变量 = 1\n变量\n";
    let hover2 = hover_at(text2, 1, 1).expect("chinese ident hover");
    assert!(hover2.contains("变量"), "{hover2:?}");
}

#[test]
fn hover_text_is_exact() {
    let text = "let x = 1\nx";
    let hover = hover_at(text, 1, 0).expect("hover on x");
    assert_eq!(hover, "```huzi\nlet x\n```\n\nVariable `x`");
}

#[test]
fn find_symbol_prefers_smallest_enclosing_span() {
    let text = "fn run() -> i32 {\n    let run = 1\n    return run\n}\n";
    let (_program, symbols) = parse_and_collect(text);
    // Inside the body, the inner `let run` (smaller span) does not hold
    // line 3, so the function does.
    let at_body = find_symbol(&symbols, "run", 3, 12).expect("run");
    assert_eq!(symbols[at_body].detail.starts_with("fn run"), true);
    let at_let = find_symbol(&symbols, "run", 2, 9).expect("run");
    assert_eq!(symbols[at_let].detail.starts_with("let run"), true);
    assert_eq!(find_symbol(&symbols, "missing", 1, 1), None);
    // Outside every span the first symbol of the name is taken.
    assert_eq!(find_symbol(&symbols, "run", 99, 1), Some(0));
}

#[test]
fn diagnostics_map_spans_to_ranges() {
    let text = "let a = 1\n\u{1F600}x = 2\n";
    let raws = vec![
        RawDiagnostic { line: 2, column: 2, end_line: 2, end_column: 3, message: "bad".to_string() },
        RawDiagnostic { line: 1, column: 5, end_line: 1, end_column: 1, message: "inv".to_string() },
    ];
    let ds = to_lsp_diagnostics(text, &raws);
    assert_eq!(ds.len(), 2);
    assert_eq!(ds[0].message, "bad");
    assert_eq!((ds[0].range.start.line, ds[0].range.start.character, ds[0].range.end.character), (1, 2, 3));
    assert_eq!(ds[1].range.start, ds[1].range.end);
    assert_eq!(ds[1].range.start.character, 4);
}

#[test]
fn positions_inside_lines_survive_the_round_trip() {
    let rope = Rope::from_str("a\u{1F600}b foo\n第二行\n");
    for (line, col) in [(1, 1), (1, 2), (1, 3), (1, 4), (1, 8), (2, 1), (2, 3), (2, 4)] {
        let pos = huzi_pos_to_lsp(&rope, line, col);
        assert_eq!(lsp_pos_to_huzi(&rope, pos), Some((line, col)));
    }
}
