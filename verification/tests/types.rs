use caller_utils_gen::host::{default_value, generate_default_value, host_type, wit_type_to_rust};
use caller_utils_gen::text::{chars_of, string_of};
use caller_utils_gen::types::{idl_type, is_well_formed, parse_type_expr, Primitive, TypeExpr};

fn parse(text: &str) -> TypeExpr {
    parse_type_expr(&chars_of(text))
}

fn named(name: &str) -> TypeExpr {
    TypeExpr::Named(name.to_string())
}

#[test]
fn primitives_map_one_to_one() {
    assert_eq!(wit_type_to_rust("s32"), "i32");
    assert_eq!(wit_type_to_rust("u32"), "u32");
    assert_eq!(wit_type_to_rust("s64"), "i64");
    assert_eq!(wit_type_to_rust("u64"), "u64");
    assert_eq!(wit_type_to_rust("f32"), "f32");
    assert_eq!(wit_type_to_rust("f64"), "f64");
    assert_eq!(wit_type_to_rust("string"), "String");
    assert_eq!(wit_type_to_rust("bool"), "bool");
    assert_eq!(wit_type_to_rust("unit"), "()");
    assert_eq!(wit_type_to_rust("address"), "WitAddress");
}

#[test]
fn containers_map_recursively() {
    assert_eq!(wit_type_to_rust("list<u32>"), "Vec<u32>");
    assert_eq!(wit_type_to_rust("option<string>"), "Option<String>");
    assert_eq!(wit_type_to_rust("tuple<u32, string>"), "(u32, String)");
    assert_eq!(wit_type_to_rust("list<option<s64>>"), "Vec<Option<i64>>");
    assert_eq!(wit_type_to_rust("result<u32, string>"), "Result<u32, String>");
}

#[test]
fn nested_tuples_split_at_outer_commas_only() {
    assert_eq!(
        wit_type_to_rust("tuple<list<u32>, tuple<my-type, bool>>"),
        "(Vec<u32>, (MyType, bool))"
    );
    assert_eq!(
        wit_type_to_rust("tuple<result<u32, string>, option<tuple<s32, s32>>>"),
        "(Result<u32, String>, Option<(i32, i32)>)"
    );
}

#[test]
fn other_names_are_custom_types() {
    assert_eq!(wit_type_to_rust("my-record"), "MyRecord");
    assert_eq!(wit_type_to_rust("list<my-record>"), "Vec<MyRecord>");
    assert_eq!(wit_type_to_rust(""), "");
}

#[test]
fn white_space_around_a_type_is_passed_over() {
    assert_eq!(wit_type_to_rust("  list< u32 >  "), "Vec<u32>");
    assert_eq!(wit_type_to_rust("tuple<u32,string>"), "(u32, String)");
}

#[test]
fn unclosed_brackets_make_a_name() {
    assert_eq!(parse("list<u32"), named("list<u32"));
    assert_eq!(parse("list<"), named("list<"));
    assert_eq!(parse("result<u32>"), named("result<u32>"));
}

#[test]
fn empty_tuple_has_no_items() {
    assert_eq!(parse("tuple<>"), TypeExpr::Tuple(vec![]));
    assert_eq!(wit_type_to_rust("tuple<>"), "()");
}

#[test]
fn parse_builds_the_tree() {
    assert_eq!(
        parse("result<list<my-type>, tuple<u32, string>>"),
        TypeExpr::Result(
            Box::new(TypeExpr::List(Box::new(named("my-type")))),
            Box::new(TypeExpr::Tuple(vec![
                TypeExpr::Primitive(Primitive::U32),
                TypeExpr::Primitive(Primitive::Text),
            ])),
        )
    );
}

#[test]
fn text_of_a_tree_reads_back_as_the_tree() {
    let trees = vec![
        TypeExpr::Primitive(Primitive::Address),
        TypeExpr::List(Box::new(TypeExpr::Option(Box::new(named("my-type"))))),
        TypeExpr::Tuple(vec![
            TypeExpr::Tuple(vec![TypeExpr::Primitive(Primitive::S32), named("a")]),
            TypeExpr::Result(
                Box::new(TypeExpr::Primitive(Primitive::Unit)),
                Box::new(TypeExpr::List(Box::new(TypeExpr::Primitive(Primitive::F64)))),
            ),
        ]),
        TypeExpr::Tuple(vec![named("only")]),
    ];
    for tree in trees {
        let text = idl_type(&tree);
        assert_eq!(parse_type_expr(&text), tree, "{}", string_of(&text));
    }
}

#[test]
fn idl_text_of_nested_types() {
    let tree = TypeExpr::Tuple(vec![
        TypeExpr::List(Box::new(TypeExpr::Primitive(Primitive::U32))),
        TypeExpr::Result(Box::new(named("my-type")), Box::new(TypeExpr::Primitive(Primitive::Text))),
    ]);
    assert_eq!(string_of(&idl_type(&tree)), "tuple<list<u32>, result<my-type, string>>");
}

#[test]
fn default_values_of_host_types() {
    assert_eq!(generate_default_value("i32"), "0");
    assert_eq!(generate_default_value("u32"), "0");
    assert_eq!(generate_default_value("i64"), "0");
    assert_eq!(generate_default_value("u64"), "0");
    assert_eq!(generate_default_value("f32"), "0.0");
    assert_eq!(generate_default_value("f64"), "0.0");
    assert_eq!(generate_default_value("String"), "String::new()");
    assert_eq!(generate_default_value("bool"), "false");
    assert_eq!(generate_default_value("()"), "()");
    assert_eq!(generate_default_value("Vec<u32>"), "Vec::new()");
    assert_eq!(generate_default_value("Option<String>"), "None");
    assert_eq!(generate_default_value("MyType"), "MyType::default()");
    assert_eq!(generate_default_value("WitAddress"), "WitAddress::default()");
}

#[test]
fn default_values_of_tuples() {
    assert_eq!(generate_default_value("(u32, String)"), "(0, String::new())");
    assert_eq!(generate_default_value("(bool)"), "(false)");
    assert_eq!(
        generate_default_value("((i32, u32), Vec<(u8, u8)>, MyType)"),
        "((0, 0), Vec::new(), MyType::default())"
    );
    assert_eq!(
        generate_default_value("(((bool, f64), Option<u8>), ((), String))"),
        "(((false, 0.0), None), ((), String::new()))"
    );
}

#[test]
fn default_value_of_a_result_is_its_success() {
    assert_eq!(generate_default_value("Result<u32, String>"), "Ok(0)");
    assert_eq!(generate_default_value("Result<(u32, bool), MyError>"), "Ok((0, false))");
}

#[test]
fn default_value_of_an_unclosed_tuple_is_a_custom_default() {
    assert_eq!(generate_default_value("(u32"), "(u32::default()");
    assert_eq!(generate_default_value(""), "::default()");
}

#[test]
fn default_literal_of_composites_three_levels_deep() {
    let tree = TypeExpr::Tuple(vec![
        TypeExpr::Tuple(vec![
            TypeExpr::Tuple(vec![
                TypeExpr::Primitive(Primitive::Boolean),
                TypeExpr::Primitive(Primitive::F64),
            ]),
            TypeExpr::Option(Box::new(TypeExpr::Primitive(Primitive::U32))),
        ]),
        TypeExpr::Result(
            Box::new(TypeExpr::Tuple(vec![
                TypeExpr::Primitive(Primitive::Unit),
                TypeExpr::Primitive(Primitive::Text),
            ])),
            Box::new(TypeExpr::Named("failure".to_string())),
        ),
        TypeExpr::List(Box::new(TypeExpr::Tuple(vec![TypeExpr::Named("a".to_string())]))),
        TypeExpr::Named("item-info".to_string()),
        TypeExpr::Primitive(Primitive::Address),
        TypeExpr::Tuple(vec![]),
    ]);
    assert_eq!(
        string_of(&default_value(&tree)),
        "(((false, 0.0), None), Ok(((), String::new())), Vec::new(), ItemInfo::default(), WitAddress::default(), ())"
    );
    assert_eq!(
        string_of(&host_type(&tree)),
        "(((bool, f64), Option<u32>), Result<((), String), Failure>, Vec<(A)>, ItemInfo, WitAddress, ())"
    );
    assert_eq!(
        generate_default_value(&string_of(&host_type(&tree))),
        "(((false, 0.0), None), Ok(((), String::new())), Vec::new(), ItemInfo::default(), WitAddress::default(), ())"
    );
}

#[test]
fn well_formed_types_have_identifiers_for_names() {
    let good = TypeExpr::List(Box::new(TypeExpr::Tuple(vec![named("item-info"), TypeExpr::Primitive(Primitive::U32)])));
    assert!(is_well_formed(&good));
    assert!(!is_well_formed(&named("")));
    assert!(!is_well_formed(&named("-lead")));
    assert!(!is_well_formed(&named("Item")));
    assert!(!is_well_formed(&named("string")));
    assert!(!is_well_formed(&TypeExpr::Option(Box::new(named("list<u32>")))));
    assert!(!is_well_formed(&TypeExpr::Tuple(vec![named("a"), named("b c")])));
}

#[test]
fn both_ways_to_a_default_agree_unless_a_name_reads_as_string() {
    let types = vec![
        TypeExpr::Primitive(Primitive::Address),
        TypeExpr::Tuple(vec![]),
        TypeExpr::Tuple(vec![named("a")]),
        TypeExpr::Option(Box::new(named("option"))),
        TypeExpr::Result(
            Box::new(TypeExpr::Tuple(vec![named("vec"), TypeExpr::Primitive(Primitive::S64)])),
            Box::new(named("wit-address")),
        ),
    ];
    for t in types {
        assert_eq!(
            generate_default_value(&string_of(&host_type(&t))),
            string_of(&default_value(&t))
        );
    }
    let odd = named("string-");
    assert_eq!(string_of(&host_type(&odd)), "String");
    assert_eq!(string_of(&default_value(&odd)), "String::default()");
    assert_eq!(generate_default_value("String"), "String::new()");
}
