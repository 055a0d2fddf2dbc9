use huzi::ast::{Block, BinOp, FnParam, FnStmt, TraitMethodDef, Type};
use huzi::typing::{
    bin_op_symbol, fmt_return, is_primitive_type_name, split_source_path, type_eq,
    validate_method_signature, MapKind,
};

fn named(n: &str) -> Type {
    Type::Named(n.to_string())
}

fn param(name: &str, ty: Type) -> FnParam {
    FnParam { name: name.to_string(), param_type: ty }
}

fn method(name: &str, params: Vec<FnParam>, ret: Option<Type>) -> FnStmt {
    FnStmt {
        name: name.to_string(),
        type_params: vec![],
        params,
        return_type: ret,
        body: Block { statements: vec![] },
    }
}

fn decl(name: &str, has_self: bool, params: Vec<FnParam>, ret: Option<Type>) -> TraitMethodDef {
    TraitMethodDef { name: name.to_string(), has_self, params, return_type: ret }
}

#[test]
fn map_kinds_follow_key_and_value_types() {
    assert_eq!(MapKind::from_ast(&named("Map")), Some(MapKind::StrI32));
    assert_eq!(MapKind::from_ast(&named("HashMap")), Some(MapKind::StrI32));
    let ss = Type::Applied("Map".to_string(), vec![Type::Str, named("str")]);
    assert_eq!(MapKind::from_ast(&ss), Some(MapKind::StrStr));
    let ii = Type::Applied("map".to_string(), vec![Type::I32, Type::U32]);
    assert_eq!(MapKind::from_ast(&ii), Some(MapKind::I32I32));
    let bad = Type::Applied("Map".to_string(), vec![Type::Bool, Type::I32]);
    assert_eq!(MapKind::from_ast(&bad), None);
    assert_eq!(MapKind::from_ast(&Type::I32), None);
    assert!(MapKind::StrStr.key_is_str() && MapKind::StrStr.val_is_str());
    assert!(!MapKind::I32I32.key_is_str());
    assert_eq!(MapKind::StrI32.display(), "str->i32");
}

#[test]
fn primitive_names_and_operator_spellings() {
    assert!(is_primitive_type_name("u64"));
    assert!(is_primitive_type_name("str"));
    assert!(!is_primitive_type_name("Point"));
    assert_eq!(bin_op_symbol(&BinOp::Le), "<=");
    assert_eq!(bin_op_symbol(&BinOp::Or), "||");
    assert_eq!(bin_op_symbol(&BinOp::Mod), "%");
}

#[test]
fn source_path_splits_into_file_and_directory() {
    assert_eq!(split_source_path("src/demo.hz"), ("demo.hz".to_string(), "src".to_string()));
    assert_eq!(split_source_path("demo.hz"), ("demo.hz".to_string(), "".to_string()));
}

#[test]
fn types_compare_structurally() {
    let a = Type::Applied("Pair".to_string(), vec![Type::I32, Type::Box(Box::new(named("T")))]);
    let b = Type::Applied("Pair".to_string(), vec![Type::I32, Type::Box(Box::new(named("T")))]);
    let c = Type::Applied("Pair".to_string(), vec![Type::I32, Type::Box(Box::new(named("U")))]);
    assert!(type_eq(&a, &b));
    assert!(!type_eq(&a, &c));
    assert!(!type_eq(&Type::Array(Box::new(Type::I32), 3), &Type::Array(Box::new(Type::I32), 4)));
    assert_eq!(fmt_return(&None), "无标注(默认 i32)");
    assert_eq!(fmt_return(&Some(Type::Str)), "str");
}

#[test]
fn matching_method_passes() {
    let m = method("area", vec![param("self", named("Rect")), param("k", Type::I32)], Some(Type::I64));
    let tm = decl("area", true, vec![param("k", Type::I32)], Some(Type::I64));
    assert!(validate_method_signature(&m, &tm, "Shape", "Rect", 3, 1).is_ok());
}

#[test]
fn each_mismatch_has_its_message() {
    let tm = decl("area", true, vec![param("k", Type::I32)], Some(Type::I64));
    let count = method("area", vec![param("self", named("Rect"))], Some(Type::I64));
    let e = validate_method_signature(&count, &tm, "Shape", "Rect", 3, 7).unwrap_err();
    assert_eq!(e.message, "方法 'area' 参数数量不匹配:trait 'Shape' 期望 2 个(含 self),实际 1 个");
    assert_eq!((e.line, e.column), (3, 7));

    let name = method("area", vec![param("me", named("Rect")), param("k", Type::I32)], Some(Type::I64));
    let e = validate_method_signature(&name, &tm, "Shape", "Rect", 1, 1).unwrap_err();
    assert_eq!(e.message, "方法 'area' 首个参数必须为 'self':期望 'self',实际为 'me'");

    let ty = method("area", vec![param("self", named("Circle")), param("k", Type::I32)], Some(Type::I64));
    let e = validate_method_signature(&ty, &tm, "Shape", "Rect", 1, 1).unwrap_err();
    assert_eq!(e.message, "方法 'area' 的 'self' 类型与实现目标不一致:期望 'Rect',实际 'Circle'");

    let p = method("area", vec![param("self", named("Rect")), param("k", Type::Str)], Some(Type::I64));
    let e = validate_method_signature(&p, &tm, "Shape", "Rect", 1, 1).unwrap_err();
    assert_eq!(e.message, "方法 'area' 参数 'k' 类型与 trait 'Shape' 不一致:期望 'i32',实际 'str'");

    let r = method("area", vec![param("self", named("Rect")), param("k", Type::I32)], None);
    let e = validate_method_signature(&r, &tm, "Shape", "Rect", 1, 1).unwrap_err();
    assert_eq!(e.message, "方法 'area' 返回类型与 trait 'Shape' 不一致:期望 'i64',实际 '无标注(默认 i32)'");
}

#[test]
fn static_method_checks_parameters_from_the_first() {
    let tm = decl("make", false, vec![param("a", Type::I32), param("b", Type::Bool)], None);
    let ok = method("make", vec![param("x", Type::I32), param("y", Type::Bool)], None);
    assert!(validate_method_signature(&ok, &tm, "Maker", "Rect", 1, 1).is_ok());
    let bad = method("make", vec![param("x", Type::I32), param("y", Type::I32)], None);
    let e = validate_method_signature(&bad, &tm, "Maker", "Rect", 1, 1).unwrap_err();
    assert_eq!(e.message, "方法 'make' 参数 'y' 类型与 trait 'Maker' 不一致:期望 'bool',实际 'i32'");
}
