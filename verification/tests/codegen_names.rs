use huzi::ast::Type;
use huzi::mangle::{mangle_name, mangle_type};

#[test]
fn scalar_and_named_types_mangle_to_their_names() {
    assert_eq!(mangle_type(&Type::I32), "i32");
    assert_eq!(mangle_type(&Type::Unit), "unit");
    assert_eq!(mangle_type(&Type::Named("Point".to_string())), "Point");
    assert_eq!(mangle_type(&Type::Generic("T".to_string())), "T");
}

#[test]
fn composite_types_mangle_structurally() {
    let b = Type::Box(Box::new(Type::Named("Node".to_string())));
    assert_eq!(mangle_type(&b), "Box__Node");
    let a = Type::Array(Box::new(Type::I64), 4);
    assert_eq!(mangle_type(&a), "arr__i64_4");
    let t = Type::Tuple(vec![Type::Bool, Type::Str, Type::Char]);
    assert_eq!(mangle_type(&t), "tuple__bool_str_char");
    let ap = Type::Applied("Pair".to_string(), vec![Type::I32, Type::Str]);
    assert_eq!(mangle_type(&ap), "Pair__i32_str");
}

#[test]
fn mangle_name_appends_type_arguments() {
    assert_eq!(mangle_name("id", &[Type::I32]), "id__i32");
    assert_eq!(mangle_name("Pair", &[Type::I32, Type::Str]), "Pair__i32_str");
    assert_eq!(mangle_name("plain", &[]), "plain");
}
