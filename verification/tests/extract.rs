use caller_utils_gen::emit::{emit_export_world, emit_interface, emit_world};
use caller_utils_gen::extract::{
    aggregate_world, extract, interface_of, to_idl, translate_type, CaseDecl, EntryBlock,
    ExtractError, Extracted, FieldDecl, HostType, ModuleDecl, ParameterDecl, RoutineDecl,
    TypeDecl,
};
use caller_utils_gen::interface::{
    Capability, CapabilitySet, Case, CompositeTypeDef, MethodSignature, Parameter, TargetForm,
};
use caller_utils_gen::naming::{DeclKind, NamingViolation};
use caller_utils_gen::parse::parse_wit_file;
use caller_utils_gen::stubs::{generate_async_function, generate_default_implementation};
use caller_utils_gen::types::{Primitive, TypeExpr};

fn plain(name: &str) -> HostType {
    HostType::Path { name: name.to_string(), arguments: vec![] }
}

fn generic(name: &str, arguments: Vec<HostType>) -> HostType {
    HostType::Path { name: name.to_string(), arguments }
}

fn named(name: &str) -> TypeExpr {
    TypeExpr::Named(name.to_string())
}

fn routine(name: &str, caps: CapabilitySet, parameters: Vec<(&str, HostType)>, ret: Option<HostType>) -> RoutineDecl {
    RoutineDecl {
        name: name.to_string(),
        capabilities: caps,
        receiver: true,
        parameters: parameters
            .into_iter()
            .map(|(name, ty)| ParameterDecl { name: Some(name.to_string()), ty })
            .collect(),
        return_type: ret,
    }
}

fn module(world: Option<&str>, routines: Vec<RoutineDecl>, types: Vec<TypeDecl>) -> ModuleDecl {
    ModuleDecl {
        entry: Some(EntryBlock { wit_world: world.map(|w| w.to_string()), routines }),
        types,
    }
}

const REMOTE: CapabilitySet = CapabilitySet { remote: true, local: false, http: false };
const NONE: CapabilitySet = CapabilitySet { remote: false, local: false, http: false };

#[test]
fn primitive_host_types_translate_by_name() {
    assert_eq!(translate_type(&plain("i32")), TypeExpr::Primitive(Primitive::S32));
    assert_eq!(translate_type(&plain("u32")), TypeExpr::Primitive(Primitive::U32));
    assert_eq!(translate_type(&plain("i64")), TypeExpr::Primitive(Primitive::S64));
    assert_eq!(translate_type(&plain("u64")), TypeExpr::Primitive(Primitive::U64));
    assert_eq!(translate_type(&plain("f32")), TypeExpr::Primitive(Primitive::F32));
    assert_eq!(translate_type(&plain("f64")), TypeExpr::Primitive(Primitive::F64));
    assert_eq!(translate_type(&plain("String")), TypeExpr::Primitive(Primitive::Text));
    assert_eq!(translate_type(&plain("str")), TypeExpr::Primitive(Primitive::Text));
    assert_eq!(translate_type(&plain("bool")), TypeExpr::Primitive(Primitive::Boolean));
    assert_eq!(translate_type(&plain("Address")), TypeExpr::Primitive(Primitive::Address));
    assert_eq!(translate_type(&HostType::Tuple(vec![])), TypeExpr::Primitive(Primitive::Unit));
}

#[test]
fn containers_references_and_tuples_translate_recursively() {
    let host = generic(
        "Vec",
        vec![HostType::Tuple(vec![
            HostType::Reference(Box::new(plain("str"))),
            generic("Option", vec![plain("ItemInfo")]),
            generic("Result", vec![plain("u32"), plain("HTMLError")]),
        ])],
    );
    let mut used = vec!["html-error".to_string()];
    let idl = to_idl(&host, &mut used);
    assert_eq!(
        idl,
        TypeExpr::List(Box::new(TypeExpr::Tuple(vec![
            TypeExpr::Primitive(Primitive::Text),
            TypeExpr::Option(Box::new(named("item-info"))),
            TypeExpr::Result(Box::new(TypeExpr::Primitive(Primitive::U32)), Box::new(named("html-error"))),
        ])))
    );
    assert_eq!(used, vec!["html-error".to_string(), "item-info".to_string()]);
}

#[test]
fn other_shapes_translate_to_the_unknown_placeholder() {
    let mut used = vec![];
    assert_eq!(to_idl(&HostType::Other, &mut used), named("unknown"));
    assert_eq!(to_idl(&generic("Vec", vec![]), &mut used), named("vec"));
    assert_eq!(used, vec!["vec".to_string()]);
}

#[test]
fn module_without_world_is_an_error() {
    assert_eq!(extract(&ModuleDecl { entry: None, types: vec![] }), Err(ExtractError::MissingWorldDeclaration));
    assert_eq!(
        extract(&module(None, vec![routine("bad1", REMOTE, vec![], None)], vec![])),
        Err(ExtractError::MissingWorldDeclaration)
    );
}

#[test]
fn untagged_routines_and_unnamed_parameters_are_passed_over() {
    let mut odd = routine("odd", REMOTE, vec![("a", plain("Lost"))], None);
    odd.parameters.push(ParameterDecl { name: None, ty: plain("u32") });
    odd.parameters.push(ParameterDecl { name: Some("bad2".to_string()), ty: plain("u32") });
    let found = extract(&module(
        Some("demo-v0"),
        vec![
            routine("private9", NONE, vec![("stream", plain("u32"))], None),
            odd,
            routine("kept", REMOTE, vec![], None),
        ],
        vec![],
    ))
    .unwrap();
    assert_eq!(found.signatures.len(), 1);
    assert_eq!(found.signatures[0].name, "kept");
    assert_eq!(found.used, Vec::<String>::new());
}

#[test]
fn first_bad_name_ends_the_search() {
    let violation = |kind, name: &str| {
        Err(ExtractError::Naming(NamingViolation { kind, identifier: name.to_string() }))
    };
    let good = routine("fine", REMOTE, vec![("a", plain("u32"))], None);
    assert_eq!(
        extract(&module(
            Some("w"),
            vec![good, routine("get2", REMOTE, vec![("stream", plain("u32"))], None)],
            vec![TypeDecl::Record { name: "Bad3".to_string(), fields: vec![] }],
        )),
        violation(DeclKind::Function, "get2")
    );
    assert_eq!(
        extract(&module(Some("w"), vec![routine("get", REMOTE, vec![("ok", plain("u32")), ("myStream", plain("u32"))], None)], vec![])),
        violation(DeclKind::Parameter, "myStream")
    );
    assert_eq!(
        extract(&module(Some("w"), vec![], vec![TypeDecl::Record { name: "Stream".to_string(), fields: vec![] }])),
        violation(DeclKind::Type, "Stream")
    );
    assert_eq!(
        extract(&module(
            Some("w"),
            vec![],
            vec![TypeDecl::Record {
                name: "Fine".to_string(),
                fields: vec![FieldDecl { name: "x1".to_string(), ty: plain("u32") }],
            }],
        )),
        violation(DeclKind::Field, "x1")
    );
    assert_eq!(
        extract(&module(
            Some("w"),
            vec![],
            vec![TypeDecl::Variant {
                name: "Fine".to_string(),
                cases: vec![
                    CaseDecl { name: "Good".to_string(), payload: None },
                    CaseDecl { name: "Upstream".to_string(), payload: None },
                ],
            }],
        )),
        violation(DeclKind::VariantCase, "Upstream")
    );
}

#[test]
fn declarations_become_the_model_of_the_interface() {
    let found = extract(&module(
        Some("store-v0"),
        vec![routine(
            "get_item",
            CapabilitySet { remote: true, local: true, http: false },
            vec![("itemId", plain("u64")), ("owner", HostType::Reference(Box::new(plain("UserInfo"))))],
            Some(generic("Option", vec![plain("ItemInfo")])),
        )],
        vec![
            TypeDecl::Record {
                name: "ItemInfo".to_string(),
                fields: vec![
                    FieldDecl { name: "item_id".to_string(), ty: plain("u64") },
                    FieldDecl { name: "state".to_string(), ty: plain("ItemState") },
                ],
            },
            TypeDecl::Variant {
                name: "ItemState".to_string(),
                cases: vec![
                    CaseDecl { name: "Fresh".to_string(), payload: None },
                    CaseDecl { name: "SoldTo".to_string(), payload: Some(plain("UserInfo")) },
                ],
            },
            TypeDecl::Record { name: "Unused".to_string(), fields: vec![] },
            TypeDecl::Record {
                name: "UserInfo".to_string(),
                fields: vec![FieldDecl { name: "name".to_string(), ty: plain("String") }],
            },
        ],
    ))
    .unwrap();
    assert_eq!(found.world, "store-v0");
    assert_eq!(
        found.signatures,
        vec![MethodSignature {
            name: "get-item".to_string(),
            capabilities: CapabilitySet { remote: true, local: true, http: false },
            target: Some(TargetForm::Address),
            parameters: vec![
                Parameter { name: "item-id".to_string(), ty: TypeExpr::Primitive(Primitive::U64) },
                Parameter { name: "owner".to_string(), ty: named("user-info") },
            ],
            return_type: TypeExpr::Option(Box::new(named("item-info"))),
        }]
    );
    assert_eq!(found.used, vec!["user-info".to_string(), "item-info".to_string()]);
    assert_eq!(found.table.len(), 4);
    assert_eq!(
        found.table[1],
        CompositeTypeDef::Variant {
            name: "item-state".to_string(),
            cases: vec![
                Case { name: "fresh".to_string(), payload: None },
                Case { name: "sold-to".to_string(), payload: Some(named("user-info")) },
            ],
        }
    );

    let interface = interface_of("store", found);
    let text = emit_interface(&interface).unwrap();
    assert_eq!(
        text,
        "interface store {\n\
         \x20   record item-info {\n\
         \x20       item-id: u64,\n\
         \x20       state: item-state,\n\
         \x20   }\n\
         \n\
         \x20   variant item-state {\n\
         \x20       fresh,\n\
         \x20       sold-to(user-info),\n\
         \x20   }\n\
         \n\
         \x20   record user-info {\n\
         \x20       name: string,\n\
         \x20   }\n\
         \n\
         \x20   //remote\n\
         \x20   //local\n\
         \x20   get-item: func(target: address, item-id: u64, owner: user-info) -> result<option<item-info>, string>;\n\
         \n\
         }\n"
    );
    let (signatures, types) = parse_wit_file(&text);
    assert_eq!(signatures, interface.signatures);
    assert_eq!(types, vec!["item-info".to_string(), "item-state".to_string(), "user-info".to_string()]);
}

#[test]
fn example_module_yields_interface_world_and_caller_stub() {
    let found = extract(&module(Some("demo-v0"), vec![routine("get_count", REMOTE, vec![], Some(plain("u32")))], vec![]))
        .unwrap();
    assert_eq!(found.world, "demo-v0");
    let world = emit_export_world(&found.world, "demo");
    assert_eq!(world, "world demo-v0 {\n    export demo;\n}\n");
    let interface = interface_of("demo", found);
    let text = emit_interface(&interface).unwrap();
    assert!(text.contains("    //remote\n    get-count: func(target: address) -> result<u32, string>;\n"));
    let (signatures, _) = parse_wit_file(&text);
    assert_eq!(
        generate_async_function(&signatures[0], Capability::Remote),
        "/// Generated stub for `get-count` remote RPC call\n\
         pub async fn get_count_remote_invoke(target: &Address) -> SendResult<u32> {\n    \
         let request = json!({\"GetCount\": {}});\n    \
         send::<u32>(&request, target, 30).await\n}"
    );
}

#[test]
fn aggregate_world_is_named_by_the_first_module() {
    let world = aggregate_world(&vec!["first-v0".to_string(), "second".to_string()], vec!["a".to_string(), "b".to_string()]);
    assert_eq!(
        emit_world(&world),
        "world first-v0 {\n    import a;\n    import b;\n    include process-v1;\n}\n"
    );
    let fallback = aggregate_world(&vec![], vec![]);
    assert_eq!(
        emit_world(&fallback),
        "world async-app-template-dot-os-v0 {\n    include process-v1;\n}\n"
    );
}

#[test]
fn default_implementation_returns_the_wrapped_default() {
    let sig = MethodSignature {
        name: "get-item".to_string(),
        capabilities: CapabilitySet { remote: true, local: false, http: true },
        target: Some(TargetForm::Address),
        parameters: vec![
            Parameter { name: "item-id".to_string(), ty: TypeExpr::Primitive(Primitive::U64) },
            Parameter { name: "tags".to_string(), ty: TypeExpr::List(Box::new(TypeExpr::Primitive(Primitive::Text))) },
        ],
        return_type: TypeExpr::Tuple(vec![named("item-info"), TypeExpr::Primitive(Primitive::Boolean)]),
    };
    assert_eq!(
        generate_default_implementation(&sig),
        "// capabilities: remote, http\n\
         fn get_item(&mut self, item_id: u64, tags: Vec<String>) -> Result<(ItemInfo, bool), String> {\n    \
         Ok((ItemInfo::default(), false))\n}"
    );
    let bare = MethodSignature {
        name: "ping".to_string(),
        capabilities: CapabilitySet { remote: false, local: true, http: false },
        target: None,
        parameters: vec![],
        return_type: TypeExpr::Primitive(Primitive::Unit),
    };
    assert_eq!(
        generate_default_implementation(&bare),
        "// capabilities: local\nfn ping(&mut self) -> Result<(), String> {\n    Ok(())\n}"
    );
    let _ = Extracted { world: String::new(), signatures: vec![], used: vec![], table: vec![] };
}
