use huzi::ast::{EnumDef, EnumVariant, FnParam, StructDef, StructField, TraitDef, TraitMethodDef, Type};
use huzi::cli::{Args, LinkerKind};
use huzi::fmt::{is_skipped_dir, match_line_endings, CommentInfo, Formatter};
use huzi::linker::{clang_link_args, clang_target, compile_ir_to_object, link, optimize_ir, TargetOs};
use huzi::lsp_text::{dbl_colon_base_before, dot_base_before, utf16_to_char_col, word_start_before};
use huzi::paths::OutputPaths;

fn comment(line: usize, text: &str, full_line: bool) -> CommentInfo {
    CommentInfo { line, text: text.to_string(), full_line }
}

#[test]
fn struct_layout_with_comments() {
    let mut f = Formatter::new(vec![
        comment(1, "// header", true),
        comment(2, "// trailing", false),
        comment(3, "// inside", true),
    ]);
    let s = StructDef {
        name: "Pair".to_string(),
        type_params: vec!["A".to_string(), "B".to_string()],
        fields: vec![
            StructField { name: "a".to_string(), field_type: Type::Generic("A".to_string()) },
            StructField { name: "b".to_string(), field_type: Type::Box(Box::new(Type::Named("B".to_string()))) },
        ],
    };
    f.format_struct(&s, 2, 10);
    assert_eq!(
        f.output(),
        "// header\nstruct Pair<A, B> { // trailing\n    a: A,\n    b: Box<B>,\n    // inside\n}\n"
    );
}

#[test]
fn empty_struct_and_enum_stay_on_one_line() {
    let mut f = Formatter::new(vec![]);
    f.format_struct(&StructDef { name: "E".to_string(), type_params: vec![], fields: vec![] }, 1, 2);
    f.format_enum(&EnumDef { name: "N".to_string(), variants: vec![] }, 2, 3);
    assert_eq!(f.output(), "struct E {}\nenum N {}\n");
}

#[test]
fn enum_and_trait_layout() {
    let mut f = Formatter::new(vec![]);
    let e = EnumDef {
        name: "Shape".to_string(),
        variants: vec![
            EnumVariant { name: "Dot".to_string(), payloads: vec![] },
            EnumVariant { name: "Rect".to_string(), payloads: vec![Type::I32, Type::I32] },
        ],
    };
    f.format_enum(&e, 1, 5);
    let t = TraitDef {
        name: "Area".to_string(),
        methods: vec![
            TraitMethodDef {
                name: "area".to_string(),
                has_self: true,
                params: vec![FnParam { name: "k".to_string(), param_type: Type::I64 }],
                return_type: Some(Type::I64),
            },
            TraitMethodDef { name: "reset".to_string(), has_self: false, params: vec![], return_type: None },
        ],
    };
    f.format_trait(&t, 6);
    assert_eq!(
        f.output(),
        "enum Shape {\n    Dot,\n    Rect(i32, i32),\n}\ntrait Area {\n    fn area(self, k: i64) -> i64\n    fn reset()\n}\n"
    );
}

#[test]
fn import_and_export_lines() {
    let mut f = Formatter::new(vec![comment(1, "// c", false)]);
    f.format_import("mods.helpers", 1);
    f.format_export("calc", true, 2);
    f.format_export("calc::add", false, 3);
    assert_eq!(f.output(), "import mods.helpers // c\nexport calc::*\nexport calc::add\n");
}

#[test]
fn child_bound_is_next_start_or_end() {
    assert_eq!(Formatter::child_bound(&[1, 5, 9], 0, 20), 5);
    assert_eq!(Formatter::child_bound(&[1, 5, 9], 2, 20), 20);
}

fn chars(s: &str) -> Vec<char> {
    s.chars().collect()
}

#[test]
fn word_start_walks_back_over_identifier_characters() {
    let c = chars("let 变量_1 = x");
    assert_eq!(word_start_before(&c, 8), 4);
    assert_eq!(word_start_before(&c, 100), 11);
    assert_eq!(word_start_before(&c, 0), 0);
}

#[test]
fn base_before_path_separator_and_dot() {
    let c = chars("math::si");
    assert_eq!(dbl_colon_base_before(&c, 6).as_deref(), Some("math"));
    assert_eq!(dbl_colon_base_before(&c, 2), None);
    let d = chars("p.x");
    assert_eq!(dot_base_before(&d, 2, 3).as_deref(), Some("p"));
    let e = chars("p.");
    assert_eq!(dot_base_before(&e, 2, 2).as_deref(), Some("p"));
    assert_eq!(dot_base_before(&chars(".x"), 1, 2), None);
}

#[test]
fn utf16_columns_map_to_characters() {
    let c = chars("a😀b");
    assert_eq!(utf16_to_char_col(&c, 0), Some(0));
    assert_eq!(utf16_to_char_col(&c, 1), Some(1));
    assert_eq!(utf16_to_char_col(&c, 2), None);
    assert_eq!(utf16_to_char_col(&c, 3), Some(2));
    assert_eq!(utf16_to_char_col(&c, 4), Some(3));
    assert_eq!(utf16_to_char_col(&c, 40), Some(3));
}

fn args(output: Option<&str>, input: Option<&str>, release: bool, opt: Option<u8>, debug: bool) -> Args {
    Args {
        command: None,
        input: input.map(|s| s.to_string()),
        output: output.map(|s| s.to_string()),
        linker: LinkerKind::Clang,
        release,
        opt_level: opt,
        debug,
    }
}

#[test]
fn effective_output_prefers_explicit_then_input_stem() {
    assert_eq!(args(Some("out"), Some("a/b.hz"), false, None, false).effective_output().unwrap(), "out");
    assert_eq!(args(None, Some("foo/bar.hz"), false, None, false).effective_output().unwrap(), "bar");
    let err = args(None, None, false, None, false).effective_output().unwrap_err();
    assert!(err.ends_with("--output: "));
}

#[test]
fn effective_opt_level_rules() {
    assert_eq!(args(None, None, true, Some(3), true).effective_opt_level(), 0);
    assert_eq!(args(None, None, true, Some(1), false).effective_opt_level(), 1);
    assert_eq!(args(None, None, true, None, false).effective_opt_level(), 2);
    assert_eq!(args(None, None, false, None, false).effective_opt_level(), 0);
}

#[test]
fn platform_default_linker() {
    assert_eq!(LinkerKind::platform_default(true), LinkerKind::Msvc);
    assert_eq!(LinkerKind::platform_default(false), LinkerKind::Clang);
    assert_eq!(LinkerKind::Mingw.to_string(), "mingw");
}

#[test]
fn output_paths_follow_platform_extensions() {
    let p = OutputPaths::try_new("build/app", false).unwrap();
    assert_eq!(p.exe_path, "build/app");
    assert_eq!(p.ll_path, "build/app.ll");
    assert_eq!(p.obj_path, "build/app.o");
    let w = OutputPaths::try_new("app", true).unwrap();
    assert_eq!(w.exe_path, "app.exe");
    assert_eq!(w.ll_path, "app.ll");
    assert_eq!(w.obj_path, "app.obj");
    let kept = OutputPaths::try_new("x.o", true).unwrap();
    assert_eq!(kept.exe_path, "x.o");
    assert!(OutputPaths::try_new("", false).is_none());
}

#[test]
fn clang_arguments_per_platform() {
    assert_eq!(clang_target(true, TargetOs::Macos), "aarch64-apple-darwin");
    assert_eq!(clang_target(false, TargetOs::Linux), "x86_64-unknown-linux-gnu");
    let a = clang_link_args(Some("t"), &"e".to_string(), &"o".to_string(), TargetOs::Linux);
    assert_eq!(a, vec!["-o", "e", "-target", "t", "o", "-lm", "-lpthread"]);
    let w = clang_link_args(None, &"e".to_string(), &"o".to_string(), TargetOs::Windows);
    assert_eq!(w, vec!["-o", "e", "o", "-lucrt", "-llegacy_stdio_definitions", "-lkernel32", "-lshell32", "-lws2_32"]);
}

#[test]
fn link_commands_per_linker() {
    let p = OutputPaths::try_new("app", false).unwrap();
    let c = link(&p, LinkerKind::Clang, true, TargetOs::Macos, false);
    assert_eq!(c.program, "clang");
    assert_eq!(c.args, vec!["-o", "app", "-g", "-target", "x86_64-apple-darwin", "app.o"]);
    let m = link(&p, LinkerKind::Msvc, false, TargetOs::Windows, false);
    assert_eq!(m.program, "lld-link");
    assert_eq!(m.args[0], "/OUT:app");
    assert_eq!(m.args.len(), 8);
    assert_eq!(m.args[7], "app.o");
    let g = link(&p, LinkerKind::Mingw, true, TargetOs::Linux, false);
    assert_eq!(g.program, "gcc");
    assert_eq!(g.args, vec!["-o", "app", "-g", "app.o", "-lm", "-lpthread"]);
}

#[test]
fn llc_and_opt_commands() {
    let p = OutputPaths::try_new("app", false).unwrap();
    let llc = compile_ir_to_object(&p, true);
    assert_eq!(llc.program, "llc");
    assert_eq!(
        llc.args,
        vec!["--relocation-model=pic", "--filetype=obj", "-debugger-tune=gdb", "-o", "app.o", "app.ll"]
    );
    let plain = compile_ir_to_object(&p, false);
    assert_eq!(plain.args, vec!["--relocation-model=pic", "--filetype=obj", "-o", "app.o", "app.ll"]);
    let opt = optimize_ir(&p, 2);
    assert_eq!(opt.program, "opt");
    assert_eq!(opt.args, vec!["-S", "-O2", "-o", "app.ll", "app.ll"]);
}

#[test]
fn formatted_text_keeps_the_file_line_endings() {
    assert_eq!(match_line_endings("a\r\nb", "x\ny\n"), "x\r\ny\r\n");
    assert_eq!(match_line_endings("a\r\nb", "x\r\ny"), "x\r\ny");
    assert_eq!(match_line_endings("a\nb", "x\ny\n"), "x\ny\n");
    assert_eq!(match_line_endings("a\rb", "x\ny"), "x\ny");
}

#[test]
fn formatter_skips_build_and_vcs_directories() {
    assert!(is_skipped_dir("target"));
    assert!(is_skipped_dir(".git"));
    assert!(is_skipped_dir(".omo"));
    assert!(!is_skipped_dir("src"));
}
