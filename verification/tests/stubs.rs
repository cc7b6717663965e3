use caller_utils_gen::interface::{
    Capability, CapabilitySet, MethodSignature, Parameter, TargetForm,
};
use caller_utils_gen::stubs::generate_async_function;
use caller_utils_gen::types::{Primitive, TypeExpr};

fn signature(name: &str, parameters: Vec<(&str, TypeExpr)>, return_type: TypeExpr) -> MethodSignature {
    MethodSignature {
        name: name.to_string(),
        capabilities: CapabilitySet { remote: true, local: true, http: true },
        target: Some(TargetForm::Address),
        parameters: parameters
            .into_iter()
            .map(|(name, ty)| Parameter { name: name.to_string(), ty })
            .collect(),
        return_type,
    }
}

#[test]
fn stub_without_parameters_sends_an_empty_payload() {
    let sig = signature("get-count", vec![], TypeExpr::Primitive(Primitive::U32));
    assert_eq!(
        generate_async_function(&sig, Capability::Remote),
        "/// Generated stub for `get-count` remote RPC call\n\
         pub async fn get_count_remote_invoke(target: &Address) -> SendResult<u32> {\n    \
         let request = json!({\"GetCount\": {}});\n    \
         send::<u32>(&request, target, 30).await\n}"
    );
}

#[test]
fn stub_with_one_parameter_sends_it_directly() {
    let sig = signature(
        "set-name",
        vec![("new-name", TypeExpr::Primitive(Primitive::Text))],
        TypeExpr::Primitive(Primitive::Unit),
    );
    assert_eq!(
        generate_async_function(&sig, Capability::Local),
        "/// Generated stub for `set-name` local RPC call\n\
         pub async fn set_name_local_invoke(target: &Address, new_name: String) -> SendResult<()> {\n    \
         let request = json!({\"SetName\": new_name});\n    \
         send::<()>(&request, target, 30).await\n}"
    );
}

#[test]
fn stub_with_several_parameters_sends_them_as_a_group() {
    let sig = signature(
        "add-item",
        vec![
            ("item-id", TypeExpr::Primitive(Primitive::U64)),
            ("tags", TypeExpr::List(Box::new(TypeExpr::Primitive(Primitive::Text)))),
            ("owner", TypeExpr::Named("user-info".to_string())),
        ],
        TypeExpr::Option(Box::new(TypeExpr::Named("item-info".to_string()))),
    );
    assert_eq!(
        generate_async_function(&sig, Capability::Remote),
        "/// Generated stub for `add-item` remote RPC call\n\
         pub async fn add_item_remote_invoke(target: &Address, item_id: u64, tags: Vec<String>, owner: UserInfo) -> SendResult<Option<ItemInfo>> {\n    \
         let request = json!({\"AddItem\": (item_id, tags, owner)});\n    \
         send::<Option<ItemInfo>>(&request, target, 30).await\n}"
    );
}

#[test]
fn stub_for_a_textual_address_takes_a_string_slice() {
    let mut sig = signature("ping", vec![], TypeExpr::Primitive(Primitive::Boolean));
    sig.target = Some(TargetForm::Text);
    let text = generate_async_function(&sig, Capability::Remote);
    assert!(text.contains("pub async fn ping_remote_invoke(target: &str) -> SendResult<bool> {"));
}

#[test]
fn stub_without_an_address_takes_its_own_parameters_only() {
    let mut sig = signature(
        "ping",
        vec![("a", TypeExpr::Primitive(Primitive::S32)), ("b", TypeExpr::Primitive(Primitive::S64))],
        TypeExpr::Primitive(Primitive::Boolean),
    );
    sig.target = None;
    let text = generate_async_function(&sig, Capability::Local);
    assert!(text.contains("pub async fn ping_local_invoke(a: i32, b: i64) -> SendResult<bool> {"));
}

#[test]
fn http_stub_ignores_its_arguments_and_returns_the_default() {
    let sig = signature(
        "get-page",
        vec![("page-number", TypeExpr::Primitive(Primitive::U32))],
        TypeExpr::Tuple(vec![
            TypeExpr::Primitive(Primitive::Text),
            TypeExpr::List(Box::new(TypeExpr::Primitive(Primitive::U32))),
        ]),
    );
    assert_eq!(
        generate_async_function(&sig, Capability::Http),
        "/// Generated stub for `get-page` http RPC call\n\
         pub async fn get_page_http_invoke(_target: &Address, _page_number: u32) -> SendResult<(String, Vec<u32>)> {\n    \
         // HTTP endpoints are served elsewhere\n    \
         SendResult::Success((String::new(), Vec::new()))\n}"
    );
}

#[test]
fn http_stub_without_parameters() {
    let sig = signature("status", vec![], TypeExpr::Named("status-report".to_string()));
    assert_eq!(
        generate_async_function(&sig, Capability::Http),
        "/// Generated stub for `status` http RPC call\n\
         pub async fn status_http_invoke(_target: &Address) -> SendResult<StatusReport> {\n    \
         // HTTP endpoints are served elsewhere\n    \
         SendResult::Success(StatusReport::default())\n}"
    );
}
