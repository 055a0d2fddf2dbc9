use huzi::ast::{Block, EnumConstructExpr, Expr, Literal, MatchArm, Pattern, Type};
use huzi::checks::{
    box_ast_shape, canonical_leaf_name, check_arm_enum_names, check_enum_variant_arity,
    check_match_exhaustiveness, display_box_nest, find_variant, is_container_handle_type,
    lit_shape_name, match_pattern_enum, resolve_enum_variant, EnumShape,
};

fn boxed(t: Type) -> Type {
    Type::Box(Box::new(t))
}

fn variant_arm(enum_name: &str, variant: &str) -> MatchArm {
    MatchArm {
        pattern: Pattern::Variant {
            enum_name: enum_name.to_string(),
            variant: variant.to_string(),
            bindings: vec![],
        },
        body: Block { statements: vec![] },
    }
}

fn wildcard_arm() -> MatchArm {
    MatchArm { pattern: Pattern::Wildcard, body: Block { statements: vec![] } }
}

fn color() -> EnumShape {
    EnumShape {
        name: "Color".to_string(),
        variants: vec!["Red".to_string(), "Green".to_string(), "Blue".to_string()],
    }
}

fn construct(enum_name: &str, variant: &str, n: usize) -> EnumConstructExpr {
    EnumConstructExpr {
        enum_name: enum_name.to_string(),
        variant: variant.to_string(),
        args: (0..n).map(|i| Expr::Literal(Literal::Int(i as i64))).collect(),
    }
}

#[test]
fn leaf_names_of_scalars_and_structs() {
    assert_eq!(canonical_leaf_name(&Type::I32).as_deref(), Some("i32"));
    assert_eq!(canonical_leaf_name(&Type::Str).as_deref(), Some("str"));
    assert_eq!(canonical_leaf_name(&Type::Named("Node".to_string())).as_deref(), Some("Node"));
    assert_eq!(canonical_leaf_name(&Type::Unit), None);
    assert_eq!(canonical_leaf_name(&Type::Tuple(vec![Type::I32])), None);
}

#[test]
fn box_shapes_count_layers() {
    let t = boxed(boxed(Type::Named("Node".to_string())));
    assert_eq!(box_ast_shape(&t), Some((2, "Node".to_string())));
    assert_eq!(box_ast_shape(&boxed(Type::F64)), Some((1, "f64".to_string())));
    assert_eq!(box_ast_shape(&Type::I32), None);
    assert_eq!(box_ast_shape(&boxed(Type::Tuple(vec![Type::I32, Type::I32]))), None);
}

#[test]
fn box_nest_display() {
    assert_eq!(display_box_nest(2, "Node"), "Box<Box<Node>>");
    assert_eq!(display_box_nest(1, "i32"), "Box<i32>");
    assert_eq!(display_box_nest(0, "str"), "str");
}

#[test]
fn literal_shapes() {
    assert_eq!(lit_shape_name(&Literal::Int(5)), "i32");
    assert_eq!(lit_shape_name(&Literal::Int(-2147483648)), "i32");
    assert_eq!(lit_shape_name(&Literal::Int(3_000_000_000)), "i64");
    assert_eq!(lit_shape_name(&Literal::Float("1.5".to_string())), "f64");
    assert_eq!(lit_shape_name(&Literal::Bool(true)), "bool");
    assert_eq!(lit_shape_name(&Literal::String("x".to_string())), "str");
    assert_eq!(lit_shape_name(&Literal::Char('x')), "char");
}

#[test]
fn container_handles() {
    assert!(is_container_handle_type(&Type::Named("Map".to_string())));
    assert!(is_container_handle_type(&Type::Named("HashMap".to_string())));
    assert!(is_container_handle_type(&Type::Applied("vec".to_string(), vec![Type::I32])));
    assert!(!is_container_handle_type(&Type::Named("vec".to_string())));
    assert!(!is_container_handle_type(&Type::I32));
}

#[test]
fn constructor_arity_messages() {
    assert!(check_enum_variant_arity(&construct("Color", "Red", 0), 0).is_ok());
    assert_eq!(
        check_enum_variant_arity(&construct("Color", "Red", 1), 0).unwrap_err().message,
        "Unit variant 'Color::Red' takes no arguments"
    );
    assert_eq!(
        check_enum_variant_arity(&construct("Shape", "Circle", 2), 1).unwrap_err().message,
        "Variant 'Shape::Circle' expects exactly 1 argument"
    );
    let e = check_enum_variant_arity(&construct("Shape", "Rect", 1), 3).unwrap_err();
    assert_eq!(e.message, "Variant 'Shape::Rect' expects 3 arguments, got 1");
    assert_eq!((e.line, e.column), (0, 0));
}

#[test]
fn variants_resolve_to_their_tags() {
    assert_eq!(find_variant(&color(), "Blue").unwrap(), 2);
    assert_eq!(
        find_variant(&color(), "Purple").unwrap_err().message,
        "Enum 'Color' has no variant 'Purple'"
    );
    let enums = vec![
        EnumShape { name: "Dir".to_string(), variants: vec!["Up".to_string()] },
        color(),
    ];
    assert_eq!(resolve_enum_variant(&enums, &construct("Color", "Green", 0)).unwrap(), (1, 1));
    assert_eq!(
        resolve_enum_variant(&enums, &construct("Size", "Big", 0)).unwrap_err().message,
        "Unknown enum: Size"
    );
    assert_eq!(
        resolve_enum_variant(&enums, &construct("Dir", "Down", 0)).unwrap_err().message,
        "Enum 'Dir' has no variant 'Down'"
    );
}

#[test]
fn first_variant_pattern_names_the_enum() {
    let arms = vec![wildcard_arm(), variant_arm("Color", "Red"), variant_arm("Dir", "Up")];
    assert_eq!(match_pattern_enum(&arms), Some("Color"));
    assert_eq!(match_pattern_enum(&[wildcard_arm()]), None);
}

#[test]
fn arms_must_name_the_scrutinee_enum() {
    let c = color();
    let arms = vec![variant_arm("Color", "Red"), variant_arm("Dir", "Up")];
    assert_eq!(
        check_arm_enum_names(&arms, Some(&c)).unwrap_err().message,
        "Match arms use 'Dir' but the scrutinee is 'Color'"
    );
    assert!(check_arm_enum_names(&arms, None).is_ok());
}

#[test]
fn wildcard_match_is_exhaustive() {
    let c = color();
    let arms = vec![variant_arm("Color", "Red"), wildcard_arm()];
    assert!(check_match_exhaustiveness(&arms, Some(&c)).is_ok());
    assert!(check_match_exhaustiveness(&[wildcard_arm()], None).is_ok());
}

#[test]
fn match_without_wildcard_needs_an_enum() {
    let arms = vec![variant_arm("Color", "Red")];
    assert_eq!(
        check_match_exhaustiveness(&arms, None).unwrap_err().message,
        "match must have a wildcard arm `_`"
    );
}

#[test]
fn match_reports_missing_variants_in_order() {
    let c = color();
    let arms = vec![variant_arm("Color", "Green")];
    assert_eq!(
        check_match_exhaustiveness(&arms, Some(&c)).unwrap_err().message,
        "Non-exhaustive match for enum 'Color': missing variants: Red, Blue\n  help: add arms for the missing variants or a wildcard arm `_`"
    );
    let all = vec![
        variant_arm("Color", "Blue"),
        variant_arm("Color", "Red"),
        variant_arm("Color", "Green"),
    ];
    assert!(check_match_exhaustiveness(&all, Some(&c)).is_ok());
}

#[test]
fn match_rejects_unknown_variants_and_foreign_enums() {
    let c = color();
    let arms = vec![variant_arm("Color", "Red"), variant_arm("Color", "Pink")];
    assert_eq!(
        check_match_exhaustiveness(&arms, Some(&c)).unwrap_err().message,
        "Enum 'Color' has no variant 'Pink'"
    );
    let foreign = vec![variant_arm("Dir", "Up")];
    assert_eq!(
        check_match_exhaustiveness(&foreign, Some(&c)).unwrap_err().message,
        "Match arms use 'Dir' but the scrutinee is 'Color'"
    );
}
