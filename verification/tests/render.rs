use huzi::render::{render_with_color, HuziError};

#[test]
fn renders_source_excerpt_with_caret() {
    let error = HuziError::new("Unexpected token", 2, 5);
    let output = render_with_color(&error, "let a = 1;\nlet b = 2;\n", "Parse error", false);
    let lines: Vec<&str> = output.lines().collect();
    assert_eq!(lines[0], "Parse error at line 2, column 5: Unexpected token");
    assert_eq!(lines[1], "  |");
    assert_eq!(lines[2], "2 | let b = 2;");
    assert_eq!(lines[3], "  |     ^");
}

#[test]
fn colored_output_wraps_header_in_ansi() {
    let error = HuziError::new("boom", 1, 1);
    let output = render_with_color(&error, "x", "Lex error", true);
    assert!(output.contains("\x1b[1;31mLex error at line 1, column 1: boom\x1b[0m"));
    assert!(output.contains("\x1b[1;31m^\x1b[0m"));
}

#[test]
fn global_errors_stay_single_line() {
    let error = HuziError::new_global("no position");
    let output = render_with_color(&error, "x", "Compile error", false);
    assert_eq!(output, "Compile error: no position");
}

#[test]
fn out_of_range_line_falls_back_to_plain_format() {
    let error = HuziError::new("beyond eof", 9, 1);
    let output = render_with_color(&error, "x", "Parse error", false);
    assert_eq!(output, "Parse error: Error at line 9, column 1: beyond eof");
}

#[test]
fn caret_counts_characters_not_bytes() {
    let error = HuziError::new("bad", 1, 4);
    let output = render_with_color(&error, "中文字x", "Parse error", false);
    let lines: Vec<&str> = output.lines().collect();
    assert_eq!(lines[2], "1 | 中文字x");
    assert_eq!(lines[3], "  |    ^");
}

#[test]
fn caret_is_clamped_to_the_line_end() {
    let error = HuziError::new("late", 1, 40);
    let output = render_with_color(&error, "ab", "E", false);
    let lines: Vec<&str> = output.lines().collect();
    assert_eq!(lines[3], "  |   ^");
}

#[test]
fn wide_line_numbers_widen_the_gutter() {
    let mut src = String::new();
    for i in 0..12 {
        src.push_str(&format!("line{}\n", i));
    }
    let error = HuziError::new("m", 12, 1);
    let output = render_with_color(&error, &src, "E", false);
    let lines: Vec<&str> = output.lines().collect();
    assert_eq!(lines[1], "   |");
    assert_eq!(lines[2], "12 | line11");
    assert_eq!(lines[3], "   | ^");
}

#[test]
fn error_accessors_return_position_and_message() {
    let e = HuziError::new("msg", 3, 7);
    assert_eq!((e.line(), e.column(), e.message()), (3, 7, "msg"));
    let g = HuziError::new_global("g");
    assert_eq!((g.line(), g.column()), (0, 0));
}

#[test]
fn source_lines_split_like_str_lines() {
    let chars: Vec<char> = "a\r\nb\nc\r".chars().collect();
    let got: Vec<String> = huzi::text::lines_of(&chars).into_iter().map(|l| l.into_iter().collect()).collect();
    let want: Vec<String> = "a\r\nb\nc\r".lines().map(|l| l.to_string()).collect();
    assert_eq!(got, want);
    assert_eq!(got, vec!["a".to_string(), "b".to_string(), "c\r".to_string()]);
}
