use huzi::ast::{
    Block, EnumDef, EnumVariant, Expr, FnParam, FnStmt, ForSource, ForStmt, LetStmt, Literal,
    Program, Spanned, Stmt, StructDef, Type,
};
use huzi::symbols::{collect_symbols, SymbolKind};

fn spanned_fn(name: &str, line: usize) -> Spanned<Stmt> {
    Spanned::with_range(
        Stmt::Fn(FnStmt {
            name: name.to_string(),
            type_params: vec![],
            params: vec![FnParam { name: "a".to_string(), param_type: Type::I32 }],
            return_type: Some(Type::I32),
            body: Block { statements: vec![] },
        }),
        line,
        1,
        line,
        10,
    )
}

fn spanned_struct(name: &str, line: usize) -> Spanned<Stmt> {
    Spanned::with_range(
        Stmt::Struct(StructDef { name: name.to_string(), type_params: vec![], fields: vec![] }),
        line,
        1,
        line,
        12,
    )
}

fn spanned_let(name: &str, line: usize) -> Spanned<Stmt> {
    Spanned::with_range(
        Stmt::Let(LetStmt {
            name: name.to_string(),
            mutable: false,
            type_annotation: Some(Type::I32),
            value: None,
        }),
        line,
        1,
        line,
        8,
    )
}

#[test]
fn fn_struct_let_with_same_name_all_collected() {
    let program = Program {
        statements: vec![spanned_fn("item", 1), spanned_struct("item", 2), spanned_let("item", 3)],
    };
    let syms = collect_symbols(&program);
    let kinds: Vec<SymbolKind> = syms.iter().filter(|s| s.name == "item").map(|s| s.kind).collect();
    assert!(kinds.contains(&SymbolKind::Function));
    assert!(kinds.contains(&SymbolKind::Struct));
    assert!(kinds.contains(&SymbolKind::Variable));
    assert_eq!(kinds.len(), 3);
}

#[test]
fn spans_are_never_inverted() {
    let program = Program {
        statements: vec![
            spanned_fn("add", 1),
            Spanned::with_range(
                Stmt::Enum(EnumDef {
                    name: "Color".to_string(),
                    variants: vec![EnumVariant { name: "Red".to_string(), payloads: vec![] }],
                }),
                2,
                1,
                2,
                9,
            ),
            spanned_let("x", 3),
        ],
    };
    for s in collect_symbols(&program) {
        assert!(
            (s.span.end_line, s.span.end_column) >= (s.span.line, s.span.column),
            "inverted span for {}",
            s.name
        );
    }
}

#[test]
fn details_are_non_empty_with_signature_shape() {
    let program = Program {
        statements: vec![spanned_fn("add", 1), spanned_struct("Point", 2), spanned_let("x", 3)],
    };
    let syms = collect_symbols(&program);
    assert!(!syms.is_empty());
    for s in &syms {
        assert!(!s.detail.is_empty(), "empty detail for {}", s.name);
    }
    let fun = syms.iter().find(|s| s.kind == SymbolKind::Function).expect("fn symbol");
    assert_eq!(fun.detail, "fn add(a: i32): i32");
    let st = syms.iter().find(|s| s.kind == SymbolKind::Struct).expect("struct symbol");
    assert_eq!(st.detail, "struct Point");
    assert!(syms.iter().any(|s| s.kind == SymbolKind::Param));
}

#[test]
fn fn_body_let_and_for_bindings_collected() {
    let body = Block {
        statements: vec![
            spanned_let("local", 2),
            Spanned::with_range(
                Stmt::For(ForStmt {
                    var_name: "i".to_string(),
                    source: ForSource::Range {
                        start: Expr::Literal(Literal::Int(0)),
                        end: Expr::Literal(Literal::Int(10)),
                    },
                    body: Block { statements: vec![] },
                }),
                3,
                1,
                3,
                6,
            ),
        ],
    };
    let program = Program {
        statements: vec![Spanned::with_range(
            Stmt::Fn(FnStmt {
                name: "run".to_string(),
                type_params: vec![],
                params: vec![],
                return_type: None,
                body,
            }),
            1,
            1,
            1,
            8,
        )],
    };
    let syms = collect_symbols(&program);
    let names: Vec<&str> = syms.iter().map(|s| s.name.as_str()).collect();
    assert!(names.contains(&"local"));
    assert!(names.contains(&"i"));
}

#[test]
fn enum_variants_carry_payload_types_in_detail() {
    let program = Program {
        statements: vec![Spanned::with_range(
            Stmt::Enum(EnumDef {
                name: "Shape".to_string(),
                variants: vec![
                    EnumVariant {
                        name: "Rect".to_string(),
                        payloads: vec![Type::I32, Type::Box(Box::new(Type::Named("P".to_string())))],
                    },
                    EnumVariant { name: "Dot".to_string(), payloads: vec![] },
                ],
            }),
            1,
            1,
            1,
            5,
        )],
    };
    let syms = collect_symbols(&program);
    let details: Vec<&str> = syms.iter().map(|s| s.detail.as_str()).collect();
    assert_eq!(details, vec!["enum Shape", "Shape::Rect(i32, Box<P>)", "Shape::Dot"]);
    assert_eq!(syms[1].kind, SymbolKind::Variant);
}

#[test]
fn generic_fn_and_mutable_let_details() {
    let f = Spanned::with_range(
        Stmt::Fn(FnStmt {
            name: "pair".to_string(),
            type_params: vec!["A".to_string(), "B".to_string()],
            params: vec![
                FnParam { name: "a".to_string(), param_type: Type::Generic("A".to_string()) },
                FnParam {
                    name: "xs".to_string(),
                    param_type: Type::Array(Box::new(Type::I64), 4),
                },
            ],
            return_type: Some(Type::Tuple(vec![Type::Bool, Type::Str])),
            body: Block {
                statements: vec![Spanned::with_range(
                    Stmt::Let(LetStmt {
                        name: "m".to_string(),
                        mutable: true,
                        type_annotation: None,
                        value: None,
                    }),
                    2,
                    5,
                    2,
                    14,
                )],
            },
        }),
        1,
        1,
        3,
        2,
    );
    let syms = collect_symbols(&Program { statements: vec![f] });
    let details: Vec<&str> = syms.iter().map(|s| s.detail.as_str()).collect();
    assert_eq!(
        details,
        vec![
            "fn pair<A, B>(a: A, xs: [i64; 4]): (bool, str)",
            "a: A",
            "xs: [i64; 4]",
            "let mut m",
        ]
    );
    assert_eq!(syms[3].span.line, 2);
}

#[test]
fn expression_statements_define_nothing() {
    let program = Program {
        statements: vec![Spanned::new(
            Stmt::Expr(huzi::ast::ExprStmt { expr: Expr::Ident("x".to_string()) }),
            1,
            1,
        )],
    };
    assert!(collect_symbols(&program).is_empty());
}
