use caller_utils_gen::assemble::{
    caller_utils_manifest, create_caller_utils_crate, GeneratedCrate, WitFile,
};

fn file(stem: &str, content: &str) -> WitFile {
    WitFile { stem: stem.to_string(), content: content.to_string() }
}

const HEAD: &str = "use wit_parser::wit_parser;\nwit_parser!(\"api/demo-v0.wit\");\n\n/// Generated caller utilities for RPC function stubs\n\npub use hyperware_app_common::SendResult;\npub use hyperware_app_common::send;\nuse hyperware_process_lib::Address;\nuse serde_json::json;\n\n";

#[test]
fn nothing_is_generated_without_a_world() {
    assert_eq!(create_caller_utils_crate(&vec![]), None);
    let files = vec![file("demo", "interface demo {\n//remote\nget: func(target: address) -> result<u32, string>;\n}\n")];
    assert_eq!(create_caller_utils_crate(&files), None);
}

#[test]
fn manifest_of_the_generated_crate() {
    let text = caller_utils_manifest();
    assert!(text.starts_with("[package]\nname = \"caller-utils\"\nversion = \"0.1.0\"\nedition = \"2021\"\npublish = false\n\n[dependencies]\n"));
    assert!(text.ends_with("uuid = { version = \"1.0\" }\n\n\n[lib]\ncrate-type = [\"cdylib\", \"lib\"]\n"));
    assert!(text.contains("hyperware_process_lib = { version = \"1.0.2\", features = [\"logging\"] }\n"));
}

#[test]
fn world_alone_gives_the_head_only() {
    let files = vec![file("demo-v0", "world demo-v0 {\n    include process-v1;\n}\n")];
    assert_eq!(
        create_caller_utils_crate(&files),
        Some(GeneratedCrate { cargo_toml: caller_utils_manifest(), lib_rs: HEAD.to_string() })
    );
}

#[test]
fn source_file_holds_uses_and_one_module_per_interface() {
    let files = vec![
        file(
            "my-store",
            "interface my-store {\n    record entry {\n        key: string,\n    }\n    variant state {\n        fresh,\n    }\n\n    //remote\n    get: func(target: address, key: string) -> result<entry, string>;\n}\n",
        ),
        file("demo-v0", "world demo-v0 {\n    import my-store;\n    import absent;\n    include process-v1;\n}\n"),
        file("types-only", "interface types-only {\n    record unused {\n    }\n}\n"),
    ];
    let made = create_caller_utils_crate(&files).unwrap();
    let stub = "/// Generated stub for `get` remote RPC call\n    pub async fn get_remote_invoke(target: &Address, key: String) -> SendResult<Entry> {\n        let request = json!({\"Get\": key});\n        send::<Entry>(&request, target, 30).await\n    }";
    let expected = format!(
        "{}// Import specific types from each interface\npub use crate::wit_custom::Entry;\npub use crate::wit_custom::State;\n\n/// Generated RPC stubs for the my_store interface\npub mod my_store {{\n    use crate::*;\n\n    {}\n    \n    \n}}\n\n",
        HEAD, stub
    );
    assert_eq!(made.lib_rs, expected);
}

#[test]
fn first_world_file_names_the_world() {
    let files = vec![
        file("notes", "// the world is declared elsewhere\n"),
        file("b", "world second {\n}\n"),
        file("a", "world first {\n}\n"),
    ];
    let made = create_caller_utils_crate(&files).unwrap();
    assert!(made.lib_rs.starts_with("use wit_parser::wit_parser;\nwit_parser!(\"api/second.wit\");\n"));
}

#[test]
fn modules_keep_the_order_of_their_files() {
    let sig = "//local\nrun: func(target: address) -> result<unit, string>;\n";
    let files = vec![
        file("w", "world w {\n}\n"),
        file("zeta", sig),
        file("alpha", sig),
        file("mid-dle", sig),
    ];
    let made = create_caller_utils_crate(&files).unwrap();
    let zeta = made.lib_rs.find("pub mod zeta {").unwrap();
    let alpha = made.lib_rs.find("pub mod alpha {").unwrap();
    let middle = made.lib_rs.find("pub mod mid_dle {").unwrap();
    assert!(zeta < alpha && alpha < middle);
}

#[test]
fn later_file_of_one_module_name_replaces_the_content() {
    let files = vec![
        file("w", "world w {\n}\n"),
        file("a-b", "//local\nfirst: func(target: address) -> result<unit, string>;\n"),
        file("other", "//local\nrun: func(target: address) -> result<unit, string>;\n"),
        file("a_b", "//local\nsecond: func(target: address) -> result<unit, string>;\n"),
    ];
    let made = create_caller_utils_crate(&files).unwrap();
    assert_eq!(made.lib_rs.matches("pub mod a_b {").count(), 1);
    assert!(!made.lib_rs.contains("first_local_invoke"));
    assert!(made.lib_rs.contains("second_local_invoke"));
    assert!(made.lib_rs.find("pub mod a_b {").unwrap() < made.lib_rs.find("pub mod other {").unwrap());
}

#[test]
fn one_function_for_each_capability() {
    let files = vec![
        file("w", "world w {\n}\n"),
        file("svc", "//http\n//remote\nrun: func(target: address) -> result<unit, string>;\n"),
    ];
    let made = create_caller_utils_crate(&files).unwrap();
    let remote = made.lib_rs.find("pub async fn run_remote_invoke(").unwrap();
    let http = made.lib_rs.find("pub async fn run_http_invoke(").unwrap();
    assert!(remote < http);
    assert!(!made.lib_rs.contains("run_local_invoke"));
}

#[test]
fn generating_twice_gives_the_same_text() {
    let files = vec![
        file("w", "world w {\n    import svc;\n}\n"),
        file("svc", "record r {\n}\n//http\n//remote\nrun: func(target: address, a: list<r>) -> result<r, string>;\n"),
    ];
    assert_eq!(create_caller_utils_crate(&files), create_caller_utils_crate(&files));
}
