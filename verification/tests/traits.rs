use huzi::ast::{
    Block, CallExpr, Expr, FieldAccessExpr, FnParam, FnStmt, ImplBlock, Literal, MethodCallExpr,
    Program, Spanned, Stmt, StructDef, StructField, StructLiteralExpr, TraitDef, TraitMethodDef,
    Type,
};
use huzi::modules::LoadedModule;
use huzi::traits::TraitDesugarer;

fn at(stmt: Stmt, line: usize) -> Spanned<Stmt> {
    Spanned::new(stmt, line, 1)
}

fn point() -> Stmt {
    Stmt::Struct(StructDef {
        name: "Point".to_string(),
        type_params: vec![],
        fields: vec![
            StructField { name: "x".to_string(), field_type: Type::I32 },
            StructField { name: "y".to_string(), field_type: Type::I32 },
        ],
    })
}

fn sig(name: &str, ret: Type) -> TraitMethodDef {
    TraitMethodDef { name: name.to_string(), has_self: true, params: vec![], return_type: Some(ret) }
}

fn trait_def(name: &str, methods: Vec<TraitMethodDef>) -> Stmt {
    Stmt::Trait(TraitDef { name: name.to_string(), methods })
}

fn method(name: &str, target: &str, ret: Type) -> FnStmt {
    FnStmt {
        name: name.to_string(),
        type_params: vec![],
        params: vec![FnParam {
            name: "self".to_string(),
            param_type: Type::Named(target.to_string()),
        }],
        return_type: Some(ret),
        body: Block { statements: vec![] },
    }
}

fn impl_of(trait_name: &str, target: &str, methods: Vec<FnStmt>) -> Stmt {
    Stmt::Impl(ImplBlock {
        trait_name: trait_name.to_string(),
        target_type: target.to_string(),
        methods,
    })
}

fn main_fn() -> Stmt {
    Stmt::Fn(FnStmt {
        name: "main".to_string(),
        type_params: vec![],
        params: vec![],
        return_type: Some(Type::I32),
        body: Block { statements: vec![] },
    })
}

#[test]
fn declarations_are_gathered() {
    let program = Program {
        statements: vec![
            at(point(), 1),
            at(trait_def("Shape", vec![sig("area", Type::I32)]), 2),
            at(main_fn(), 3),
        ],
    };
    let mut d = TraitDesugarer::new();
    assert!(d.collect_types_and_traits(&program, &[]).is_ok());
    assert_eq!(d.known_types, vec!["Point".to_string()]);
    assert_eq!(d.traits.len(), 1);
    assert_eq!(d.traits[0].0, "Shape");
    assert_eq!(d.struct_fields[0].1.fields.len(), 2);
    assert_eq!(d.fn_return_types[0].0, "main");
    assert_eq!(d.fn_return_types[0].1, &Some(Type::I32));
}

#[test]
fn module_declarations_are_gathered_too() {
    let program = Program { statements: vec![at(point(), 1)] };
    let modules = vec![
        LoadedModule { name: "math".to_string(), program: None, path: None },
        LoadedModule {
            name: "shapes".to_string(),
            program: Some(Program {
                statements: vec![at(trait_def("Shape", vec![sig("area", Type::I32)]), 1)],
            }),
            path: Some("shapes.hz".to_string()),
        },
    ];
    let mut d = TraitDesugarer::new();
    assert!(d.collect_types_and_traits(&program, &modules).is_ok());
    assert_eq!(d.traits[0].0, "Shape");
}

#[test]
fn a_trait_is_defined_once() {
    let program = Program {
        statements: vec![
            at(trait_def("Shape", vec![sig("area", Type::I32)]), 1),
            at(trait_def("Shape", vec![]), 4),
        ],
    };
    let mut d = TraitDesugarer::new();
    let e = d.collect_types_and_traits(&program, &[]).unwrap_err();
    assert_eq!(e.message, "重复定义 trait 'Shape':期望每个 trait 只定义一次,实际已存在同名定义");
    assert_eq!((e.line, e.column), (4, 1));
    assert_eq!(d.traits.len(), 1);
}

#[test]
fn trait_method_names_are_distinct() {
    let program = Program {
        statements: vec![at(
            trait_def("Shape", vec![sig("area", Type::I32), sig("area", Type::I64)]),
            2,
        )],
    };
    let mut d = TraitDesugarer::new();
    let e = d.collect_types_and_traits(&program, &[]).unwrap_err();
    assert_eq!(e.message, "trait 'Shape' 中重复定义方法 'area':期望方法名唯一,实际出现多次");
    assert!(d.traits.is_empty());
}

fn shapes_program(impls: Vec<Spanned<Stmt>>) -> Program {
    let mut statements = vec![
        at(point(), 1),
        at(trait_def("Shape", vec![sig("area", Type::I32), sig("perimeter", Type::I32)]), 2),
        at(trait_def("Area", vec![sig("area", Type::I32)]), 3),
    ];
    statements.extend(impls);
    Program { statements }
}

fn check(program: &Program) -> (TraitDesugarer<'_>, Result<(), String>) {
    let mut d = TraitDesugarer::new();
    d.collect_types_and_traits(program, &[]).expect("declarations gather");
    let r = d.validate_and_collect_impls(program, &[]).map_err(|e| e.message);
    (d, r)
}

#[test]
fn a_complete_impl_is_recorded() {
    let program = shapes_program(vec![at(
        impl_of(
            "Shape",
            "Point",
            vec![method("area", "Point", Type::I32), method("perimeter", "Point", Type::I32)],
        ),
        5,
    )]);
    let (d, r) = check(&program);
    assert!(r.is_ok());
    assert_eq!(d.implemented_methods.len(), 1);
    assert_eq!(d.implemented_methods[0].0, "Point");
    assert_eq!(
        d.implemented_methods[0].1,
        vec![
            ("area".to_string(), "Shape".to_string()),
            ("perimeter".to_string(), "Shape".to_string())
        ]
    );
    assert_eq!(d.method_return_types[0].1.len(), 2);
    assert!(d.fn_return_types.iter().any(|(k, t)| k == "Point__area" && **t == Some(Type::I32)));
}

#[test]
fn impl_of_unknown_trait_or_type_is_refused() {
    let (_, r) = check(&shapes_program(vec![at(impl_of("Drawable", "Point", vec![]), 5)]));
    assert_eq!(r.unwrap_err(), "未知 trait 'Drawable':期望已定义的 trait,实际未找到");
    let (_, r) = check(&shapes_program(vec![at(impl_of("Area", "Circle", vec![]), 5)]));
    assert_eq!(
        r.unwrap_err(),
        "impl 'Area' for 'Circle' 的目标类型 'Circle' 未知:期望已定义的结构体/枚举,实际未找到"
    );
}

#[test]
fn impl_must_provide_every_trait_method() {
    let program = shapes_program(vec![at(
        impl_of("Shape", "Point", vec![method("area", "Point", Type::I32)]),
        5,
    )]);
    let (d, r) = check(&program);
    assert_eq!(
        r.unwrap_err(),
        "类型 'Point' 实现 trait 'Shape' 缺少方法 'perimeter':期望实现全部 2 个方法 [area, perimeter],实际缺失;请补上 `fn perimeter(...)` 实现"
    );
    assert!(d.implemented_methods.is_empty());
}

#[test]
fn impl_methods_must_belong_to_the_trait() {
    let program = shapes_program(vec![at(
        impl_of(
            "Area",
            "Point",
            vec![method("area", "Point", Type::I32), method("volume", "Point", Type::I32)],
        ),
        5,
    )]);
    let (d, r) = check(&program);
    assert_eq!(r.unwrap_err(), "方法 'volume' 不是 trait 'Area' 的成员:期望为 [area] 之一,实际多出");
    assert_eq!(d.implemented_methods[0].1.len(), 1);
}

#[test]
fn impl_methods_must_match_the_trait_signature() {
    let program = shapes_program(vec![at(
        impl_of("Area", "Point", vec![method("area", "Point", Type::I64)]),
        5,
    )]);
    let (_, r) = check(&program);
    assert_eq!(
        r.unwrap_err(),
        "方法 'area' 返回类型与 trait 'Area' 不一致:期望 'i32',实际 'i64'"
    );
}

#[test]
fn a_method_comes_from_one_trait_only() {
    let program = shapes_program(vec![
        at(impl_of("Area", "Point", vec![method("area", "Point", Type::I32)]), 5),
        at(
            impl_of(
                "Shape",
                "Point",
                vec![method("area", "Point", Type::I32), method("perimeter", "Point", Type::I32)],
            ),
            9,
        ),
    ]);
    let (d, r) = check(&program);
    assert_eq!(
        r.unwrap_err(),
        "类型 'Point' 的方法 'area' 冲突:已由 trait 'Area' 实现,当前 trait 'Shape' 再次实现;期望每个方法只由一个 trait 提供,实际出现多次;帮助:改名其中一个方法,或通过 impl 归属区分调用"
    );
    assert_eq!(d.implemented_methods[0].1, vec![("area".to_string(), "Area".to_string())]);
}

fn ident(n: &str) -> Expr {
    Expr::Ident(n.to_string())
}

fn field(base: Expr, f: &str) -> Expr {
    Expr::FieldAccess(FieldAccessExpr { base: Box::new(base), field: f.to_string() })
}

#[test]
fn expression_types_are_inferred() {
    let program = shapes_program(vec![
        at(main_fn(), 4),
        at(
            impl_of(
                "Shape",
                "Point",
                vec![method("area", "Point", Type::I32), method("perimeter", "Point", Type::I32)],
            ),
            5,
        ),
    ]);
    let (d, r) = check(&program);
    assert!(r.is_ok());
    let env = vec![
        ("p".to_string(), Type::Named("Point".to_string())),
        ("b".to_string(), Type::Box(Box::new(Type::Named("Point".to_string())))),
        ("n".to_string(), Type::I64),
    ];
    assert_eq!(d.infer_expr_type(&ident("n"), &env), Some(Type::I64));
    assert_eq!(d.infer_expr_type(&ident("q"), &env), None);
    assert_eq!(d.infer_expr_type(&Expr::Literal(Literal::Int(1)), &env), Some(Type::I32));
    assert_eq!(
        d.infer_expr_type(&Expr::Literal(Literal::Float("2.5".to_string())), &env),
        Some(Type::F64)
    );
    assert_eq!(d.infer_expr_type(&field(ident("p"), "x"), &env), Some(Type::I32));
    assert_eq!(d.infer_expr_type(&field(ident("b"), "y"), &env), Some(Type::I32));
    assert_eq!(d.infer_expr_type(&field(ident("p"), "z"), &env), None);
    assert_eq!(d.infer_expr_type(&field(ident("n"), "x"), &env), None);
    let call = Expr::Call(CallExpr {
        callee: Box::new(ident("main")),
        arguments: vec![],
        type_args: vec![],
    });
    assert_eq!(d.infer_expr_type(&call, &env), Some(Type::I32));
    let m = Expr::MethodCall(MethodCallExpr {
        receiver: Box::new(ident("p")),
        method: "perimeter".to_string(),
        arguments: vec![],
    });
    assert_eq!(d.infer_expr_type(&m, &env), Some(Type::I32));
    let unknown = Expr::MethodCall(MethodCallExpr {
        receiver: Box::new(ident("p")),
        method: "volume".to_string(),
        arguments: vec![],
    });
    assert_eq!(d.infer_expr_type(&unknown, &env), None);
    let boxed = Expr::BoxAlloc(Box::new(Expr::StructLiteral(StructLiteralExpr {
        name: "Point".to_string(),
        fields: vec![],
        type_args: vec![],
    })));
    assert_eq!(
        d.infer_expr_type(&boxed, &env),
        Some(Type::Box(Box::new(Type::Named("Point".to_string()))))
    );
}
