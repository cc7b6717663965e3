use caller_utils_gen::interface::{
    Capability, CapabilitySet, MethodSignature, Parameter, TargetForm,
};
use caller_utils_gen::parse::{
    find_interfaces_in_world, find_world_name, is_world_text, parse_wit_file, signature_of,
};
use caller_utils_gen::text::chars_of;
use caller_utils_gen::types::{Primitive, TypeExpr};

fn caps(remote: bool, local: bool, http: bool) -> CapabilitySet {
    CapabilitySet { remote, local, http }
}

fn parameter(name: &str, ty: TypeExpr) -> Parameter {
    Parameter { name: name.to_string(), ty }
}

#[test]
fn signature_line_with_address_only() {
    let line = chars_of("get-count: func(target: address) -> result<u32, string>;");
    assert_eq!(
        signature_of(&line, caps(true, false, false)),
        Some(MethodSignature {
            name: "get-count".to_string(),
            capabilities: caps(true, false, false),
            target: Some(TargetForm::Address),
            parameters: vec![],
            return_type: TypeExpr::Primitive(Primitive::U32),
        })
    );
}

#[test]
fn signature_line_with_parameters_of_nested_types() {
    let line = chars_of(
        "add-item: func(target: address, id: u64, pair: tuple<list<u32>, my-type>, note: option<string>) -> result<tuple<bool, s32>, string>;",
    );
    assert_eq!(
        signature_of(&line, caps(false, true, true)),
        Some(MethodSignature {
            name: "add-item".to_string(),
            capabilities: caps(false, true, true),
            target: Some(TargetForm::Address),
            parameters: vec![
                parameter("id", TypeExpr::Primitive(Primitive::U64)),
                parameter(
                    "pair",
                    TypeExpr::Tuple(vec![
                        TypeExpr::List(Box::new(TypeExpr::Primitive(Primitive::U32))),
                        TypeExpr::Named("my-type".to_string()),
                    ]),
                ),
                parameter(
                    "note",
                    TypeExpr::Option(Box::new(TypeExpr::Primitive(Primitive::Text))),
                ),
            ],
            return_type: TypeExpr::Tuple(vec![
                TypeExpr::Primitive(Primitive::Boolean),
                TypeExpr::Primitive(Primitive::S32),
            ]),
        })
    );
}

#[test]
fn signature_line_with_textual_address() {
    let line = chars_of("ping: func(target: string, n: s32) -> result<unit, string>;");
    let sig = signature_of(&line, caps(true, false, false)).unwrap();
    assert_eq!(sig.target, Some(TargetForm::Text));
    assert_eq!(sig.parameters, vec![parameter("n", TypeExpr::Primitive(Primitive::S32))]);
    assert_eq!(sig.return_type, TypeExpr::Primitive(Primitive::Unit));
}

#[test]
fn signature_line_without_address() {
    let line = chars_of("ping: func(n: s32) -> result<bool, string>;");
    let sig = signature_of(&line, caps(true, false, false)).unwrap();
    assert_eq!(sig.target, None);
    assert_eq!(sig.parameters, vec![parameter("n", TypeExpr::Primitive(Primitive::S32))]);
}

#[test]
fn return_type_that_is_itself_a_result_keeps_its_own_error() {
    let line =
        chars_of("load: func(target: address) -> result<result<u32, my-error>, string>;");
    let sig = signature_of(&line, caps(true, false, false)).unwrap();
    assert_eq!(
        sig.return_type,
        TypeExpr::Result(
            Box::new(TypeExpr::Primitive(Primitive::U32)),
            Box::new(TypeExpr::Named("my-error".to_string())),
        )
    );
}

#[test]
fn return_type_without_the_wrapping_is_taken_as_written() {
    let line = chars_of("load: func(target: address) -> list<u32>");
    let sig = signature_of(&line, caps(true, false, false)).unwrap();
    assert_eq!(sig.return_type, TypeExpr::List(Box::new(TypeExpr::Primitive(Primitive::U32))));
}

#[test]
fn line_without_expected_delimiters_is_no_signature() {
    assert_eq!(signature_of(&chars_of("get: func(target: address -> u32"), caps(true, false, false)), None);
    assert_eq!(signature_of(&chars_of("-> get: func(target: address)"), caps(true, false, false)), None);
    assert_eq!(signature_of(&chars_of("get: func(target) -> u32"), caps(true, false, false)), None);
    assert_eq!(signature_of(&chars_of("get-count -> u32"), caps(true, false, false)), None);
}

#[test]
fn interface_file_gives_signatures_and_type_names() {
    let text = "interface demo {\n\
                \x20   record item-info {\n\
                \x20       id: u64,\n\
                \x20       name: string,\n\
                \x20   }\n\
                \n\
                \x20   variant state {\n\
                \x20       idle,\n\
                \x20       busy(u32),\n\
                \x20   }\n\
                \n\
                \x20   //remote\n\
                \x20   //local\n\
                \x20   get-item: func(target: address, id: u64) -> result<item-info, string>;\n\
                \n\
                \x20   //http\n\
                \x20   get-state: func(target: address) -> result<state, string>;\n\
                }\n";
    let (signatures, types) = parse_wit_file(text);
    assert_eq!(types, vec!["item-info".to_string(), "state".to_string()]);
    assert_eq!(signatures.len(), 2);
    assert_eq!(signatures[0].name, "get-item");
    assert_eq!(signatures[0].capabilities, caps(true, true, false));
    assert_eq!(signatures[0].parameters, vec![parameter("id", TypeExpr::Primitive(Primitive::U64))]);
    assert_eq!(signatures[0].return_type, TypeExpr::Named("item-info".to_string()));
    assert_eq!(signatures[1].name, "get-state");
    assert_eq!(signatures[1].capabilities, caps(false, false, true));
    assert!(signatures[1].capabilities == caps(false, false, true));
    let _ = Capability::Http;
}

#[test]
fn capabilities_are_dropped_by_a_line_that_is_neither_comment_nor_empty() {
    let text = "//remote\nrecord a {\nget: func(target: address) -> result<u32, string>;\n";
    let (signatures, types) = parse_wit_file(text);
    assert_eq!(signatures, vec![]);
    assert_eq!(types, vec!["a".to_string()]);
}

#[test]
fn capabilities_survive_comments_and_empty_lines() {
    let text = "// remote\n// some remark\n\n   \n//local\nget: func(target: address) -> result<u32, string>;\r\n";
    let (signatures, _) = parse_wit_file(text);
    assert_eq!(signatures.len(), 1);
    assert_eq!(signatures[0].capabilities, caps(true, true, false));
}

#[test]
fn capabilities_are_used_once() {
    let text = "//remote\na: func(target: address) -> result<u32, string>;\nb: func(target: address) -> result<u32, string>;\n";
    let (signatures, _) = parse_wit_file(text);
    assert_eq!(signatures.len(), 1);
    assert_eq!(signatures[0].name, "a");
}

#[test]
fn unreadable_signature_line_is_passed_over() {
    let text = "//remote\na: func(target: address -> result<u32, string>;\n//local\nb: func(target: address) -> result<u32, string>;\n";
    let (signatures, _) = parse_wit_file(text);
    assert_eq!(signatures.len(), 1);
    assert_eq!(signatures[0].name, "b");
    assert_eq!(signatures[0].capabilities, caps(false, true, false));
}

#[test]
fn empty_text_declares_nothing() {
    let (signatures, types) = parse_wit_file("");
    assert_eq!(signatures, vec![]);
    assert_eq!(types, Vec::<String>::new());
}

#[test]
fn world_name_is_the_word_behind_world() {
    assert_eq!(find_world_name("world demo-v0 {\n    import a;\n}\n"), Some("demo-v0".to_string()));
    assert_eq!(find_world_name("// about\n\n   world   spaced   {\n}"), Some("spaced".to_string()));
    assert_eq!(find_world_name("world tight{\n}"), Some("tight{".to_string()));
    assert_eq!(find_world_name("world first {}\nworld second {}\n"), Some("first".to_string()));
}

#[test]
fn world_name_is_absent_without_a_declaring_line() {
    assert_eq!(find_world_name(""), None);
    assert_eq!(find_world_name("interface a {\n}\n"), None);
    assert_eq!(find_world_name("world\n"), None);
    assert_eq!(find_world_name("my world is round\n"), None);
}

#[test]
fn world_text_is_told_by_the_word_and_a_space() {
    assert!(is_world_text("world demo {}"));
    assert!(is_world_text("// hello world program"));
    assert!(!is_world_text("world"));
    assert!(!is_world_text("interface a {}"));
}

#[test]
fn imports_are_found_in_order() {
    let text = "world demo-v0 {\n    import first;\n    import   second-one ;\n    include process-v1;\n    export third;\nimport fourth\n  import fifth;\r\n}\n";
    assert_eq!(
        find_interfaces_in_world(text),
        vec!["first".to_string(), "second-one".to_string(), "fifth".to_string()]
    );
    assert_eq!(find_interfaces_in_world("world w {}"), Vec::<String>::new());
    assert_eq!(find_interfaces_in_world("import ;"), vec!["".to_string()]);
}
