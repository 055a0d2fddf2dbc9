use huzi::ast::{ExportStmt, FnStmt, Block, ImportStmt, Program, Spanned, Stmt, LetStmt};
use huzi::modules::{
    builtin_modules, extract_imports, lookup_memory_source, memory_builtin_modules,
    memory_key_to_import_name, module_bind_name, validate_module_program_result,
};

#[test]
fn memory_builtin_table_matches_codegen() {
    assert_eq!(memory_builtin_modules(), builtin_modules());
}

#[test]
fn bind_name_is_the_last_segment() {
    assert_eq!(module_bind_name("mods.helpers"), "helpers");
    assert_eq!(module_bind_name("math"), "math");
    assert_eq!(module_bind_name("a.b."), "");
}

#[test]
fn memory_keys_become_dotted_import_names() {
    assert_eq!(memory_key_to_import_name("file:///proj/mods/greeter.hz"), "proj.mods.greeter");
    assert_eq!(memory_key_to_import_name("mods.helpers"), "mods.helpers");
    assert_eq!(memory_key_to_import_name("C:\\proj\\a.hz"), "C:.proj.a");
    assert_eq!(memory_key_to_import_name("//x//y.hz"), "x.y");
}

fn files(entries: &[(&str, &str)]) -> Vec<(String, String)> {
    entries.iter().map(|(k, v)| (k.to_string(), v.to_string())).collect()
}

#[test]
fn lookup_prefers_exact_then_file_then_entry_then_bind_name() {
    let fs = files(&[
        ("helpers", "by bind name"),
        ("file:///p/mods/helpers.hz", "by file"),
        ("mods.helpers", "exact"),
    ]);
    assert_eq!(lookup_memory_source(&fs, "mods.helpers").unwrap(), "exact");
    let fs2 = files(&[("helpers", "by bind name"), ("file:///p/mods/helpers.hz", "by file")]);
    assert_eq!(lookup_memory_source(&fs2, "mods.helpers").unwrap(), "by file");
    let fs3 = files(&[("helpers", "by bind name"), ("/pkg/mods/helpers/src/mod.hz", "entry")]);
    assert_eq!(lookup_memory_source(&fs3, "mods.helpers").unwrap(), "entry");
    let fs4 = files(&[("helpers", "by bind name")]);
    assert_eq!(lookup_memory_source(&fs4, "mods.helpers").unwrap(), "by bind name");
    assert!(lookup_memory_source(&fs4, "other").is_none());
}

#[test]
fn lookup_reads_backslashes_as_slashes() {
    let fs = files(&[("C:\\p\\mods\\x.hz", "win")]);
    assert_eq!(lookup_memory_source(&fs, "mods.x").unwrap(), "win");
}

fn at(node: Stmt, line: usize) -> Spanned<Stmt> {
    Spanned::new(node, line, 1)
}

#[test]
fn imports_are_taken_out_and_export_roots_added() {
    let mut program = Program {
        statements: vec![
            at(Stmt::Import(ImportStmt { name: "a.b".to_string() }), 1),
            at(Stmt::Export(ExportStmt { path: "calc::add".to_string(), is_wildcard: false }), 2),
            at(Stmt::Export(ExportStmt { path: "a.b".to_string(), is_wildcard: true }), 3),
            at(Stmt::Import(ImportStmt { name: "calc".to_string() }), 4),
        ],
    };
    let names = extract_imports(&mut program);
    assert_eq!(names, vec!["a.b".to_string(), "calc".to_string(), "a".to_string()]);
    assert_eq!(program.statements.len(), 2);
    assert!(matches!(program.statements[0].node, Stmt::Export(_)));
}

#[test]
fn modules_may_only_hold_definitions() {
    let ok = Program {
        statements: vec![at(
            Stmt::Fn(FnStmt {
                name: "f".to_string(),
                type_params: vec![],
                params: vec![],
                return_type: None,
                body: Block { statements: vec![] },
            }),
            1,
        )],
    };
    assert!(validate_module_program_result("m", &ok).is_ok());
    let bad = Program {
        statements: vec![at(
            Stmt::Let(LetStmt {
                name: "x".to_string(),
                mutable: false,
                type_annotation: None,
                value: None,
            }),
            1,
        )],
    };
    assert_eq!(
        validate_module_program_result("bad_top", &bad).unwrap_err(),
        "Module 'bad_top' may only contain fn/struct/enum/trait/impl definitions, imports, and exports"
    );
}
