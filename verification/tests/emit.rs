use caller_utils_gen::emit::{emit_export_world, emit_interface, emit_world, signature_line_chars};
use caller_utils_gen::interface::{
    Capability, CapabilitySet, Case, CompositeTypeDef, InterfaceModel, MethodSignature,
    Parameter, TargetForm, WorldModel,
};
use caller_utils_gen::parse::{
    find_interfaces_in_world, find_world_name, parse_wit_file, signature_of,
};
use caller_utils_gen::stubs::generate_async_function;
use caller_utils_gen::text::string_of;
use caller_utils_gen::types::{Primitive, TypeExpr};

fn named(name: &str) -> TypeExpr {
    TypeExpr::Named(name.to_string())
}

fn signature(
    name: &str,
    capabilities: CapabilitySet,
    parameters: Vec<(&str, TypeExpr)>,
    return_type: TypeExpr,
) -> MethodSignature {
    MethodSignature {
        name: name.to_string(),
        capabilities,
        target: Some(TargetForm::Address),
        parameters: parameters
            .into_iter()
            .map(|(name, ty)| Parameter { name: name.to_string(), ty })
            .collect(),
        return_type,
    }
}

const REMOTE: CapabilitySet = CapabilitySet { remote: true, local: false, http: false };
const ALL: CapabilitySet = CapabilitySet { remote: true, local: true, http: true };

#[test]
fn signature_line_wraps_the_return_type() {
    let sig = signature("get-count", REMOTE, vec![], TypeExpr::Primitive(Primitive::U32));
    assert_eq!(
        string_of(&signature_line_chars(&sig)),
        "get-count: func(target: address) -> result<u32, string>;"
    );
}

#[test]
fn signature_line_lists_parameters_behind_the_address() {
    let sig = signature(
        "put",
        REMOTE,
        vec![
            ("key", TypeExpr::Primitive(Primitive::Text)),
            ("value", TypeExpr::List(Box::new(named("item")))),
        ],
        TypeExpr::Result(Box::new(TypeExpr::Primitive(Primitive::Unit)), Box::new(named("put-error"))),
    );
    assert_eq!(
        string_of(&signature_line_chars(&sig)),
        "put: func(target: address, key: string, value: list<item>) -> result<result<unit, put-error>, string>;"
    );
}

#[test]
fn interface_without_signatures_is_not_written() {
    let interface = InterfaceModel {
        name: "demo".to_string(),
        signatures: vec![],
        types: vec![CompositeTypeDef::Record { name: "a".to_string(), fields: vec![] }],
    };
    assert_eq!(emit_interface(&interface), None);
}

#[test]
fn example_module_gives_interface_world_and_stub() {
    let interface = InterfaceModel {
        name: "demo".to_string(),
        signatures: vec![signature("get-count", REMOTE, vec![], TypeExpr::Primitive(Primitive::U32))],
        types: vec![],
    };
    let text = emit_interface(&interface).unwrap();
    assert_eq!(
        text,
        "interface demo {\n    //remote\n    get-count: func(target: address) -> result<u32, string>;\n\n}\n"
    );
    assert!(text.contains("    //remote\n    get-count: func(target: address) -> result<u32, string>;"));

    assert_eq!(
        emit_export_world("demo-v0", "demo"),
        "world demo-v0 {\n    export demo;\n}\n"
    );

    let (signatures, types) = parse_wit_file(&text);
    assert_eq!(signatures, interface.signatures);
    assert_eq!(types, Vec::<String>::new());
    let stub = generate_async_function(&signatures[0], Capability::Remote);
    assert!(stub.contains("pub async fn get_count_remote_invoke(target: &Address) -> SendResult<u32> {"));
    assert!(stub.contains("let request = json!({\"GetCount\": {}});"));
    assert!(stub.contains("send::<u32>(&request, target, 30).await"));
}

#[test]
fn interface_block_holds_types_then_signatures() {
    let interface = InterfaceModel {
        name: "store".to_string(),
        signatures: vec![
            signature("get", ALL, vec![("key", TypeExpr::Primitive(Primitive::Text))], named("entry")),
            signature("size", REMOTE, vec![], TypeExpr::Primitive(Primitive::U64)),
        ],
        types: vec![
            CompositeTypeDef::Record {
                name: "entry".to_string(),
                fields: vec![
                    Parameter { name: "key".to_string(), ty: TypeExpr::Primitive(Primitive::Text) },
                    Parameter { name: "state".to_string(), ty: named("state") },
                ],
            },
            CompositeTypeDef::Variant {
                name: "state".to_string(),
                cases: vec![
                    Case { name: "fresh".to_string(), payload: None },
                    Case {
                        name: "stale".to_string(),
                        payload: Some(TypeExpr::Primitive(Primitive::U32)),
                    },
                ],
            },
        ],
    };
    let text = emit_interface(&interface).unwrap();
    assert_eq!(
        text,
        "interface store {\n\
         \x20   record entry {\n\
         \x20       key: string,\n\
         \x20       state: state,\n\
         \x20   }\n\
         \n\
         \x20   variant state {\n\
         \x20       fresh,\n\
         \x20       stale(u32),\n\
         \x20   }\n\
         \n\
         \x20   //remote\n\
         \x20   //local\n\
         \x20   //http\n\
         \x20   get: func(target: address, key: string) -> result<entry, string>;\n\
         \n\
         \x20   //remote\n\
         \x20   size: func(target: address) -> result<u64, string>;\n\
         \n\
         }\n"
    );
    let (signatures, types) = parse_wit_file(&text);
    assert_eq!(signatures, interface.signatures);
    assert_eq!(types, vec!["entry".to_string(), "state".to_string()]);
}

#[test]
fn signatures_read_back_as_written() {
    let shapes = vec![
        signature("none", REMOTE, vec![], TypeExpr::Primitive(Primitive::Unit)),
        signature(
            "one",
            ALL,
            vec![("only", TypeExpr::Option(Box::new(TypeExpr::List(Box::new(named("a-b"))))))],
            TypeExpr::List(Box::new(TypeExpr::Tuple(vec![
                TypeExpr::Primitive(Primitive::S64),
                TypeExpr::Primitive(Primitive::F32),
            ]))),
        ),
        signature(
            "many",
            CapabilitySet { remote: false, local: true, http: false },
            vec![
                ("first", TypeExpr::Tuple(vec![named("x"), TypeExpr::Tuple(vec![named("y"), named("z")])])),
                ("second", TypeExpr::Result(Box::new(named("ok")), Box::new(named("bad")))),
                ("third", TypeExpr::Primitive(Primitive::Address)),
            ],
            TypeExpr::Result(
                Box::new(TypeExpr::Option(Box::new(TypeExpr::Primitive(Primitive::Boolean)))),
                Box::new(TypeExpr::Primitive(Primitive::Text)),
            ),
        ),
    ];
    for sig in shapes {
        let line = signature_line_chars(&sig);
        assert_eq!(signature_of(&line, sig.capabilities), Some(sig));
    }
}

#[test]
fn world_block_reads_back_as_written() {
    let world = WorldModel {
        name: "demo-v0".to_string(),
        imported_interfaces: vec!["first".to_string(), "second".to_string()],
    };
    let text = emit_world(&world);
    assert_eq!(
        text,
        "world demo-v0 {\n    import first;\n    import second;\n    include process-v1;\n}\n"
    );
    assert_eq!(find_world_name(&text), Some("demo-v0".to_string()));
    assert_eq!(find_interfaces_in_world(&text), world.imported_interfaces);
}
