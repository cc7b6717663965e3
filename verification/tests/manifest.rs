use caller_utils_gen::assemble::WitFile;
use caller_utils_gen::generate::{create_caller_utils, GenerationError};
use caller_utils_gen::manifest::{
    add_caller_utils_dependency, add_dependency, add_workspace_member, names_member,
    update_workspace_cargo_toml, ManifestError,
};

fn value(text: &str) -> toml::Value {
    text.parse().unwrap()
}

#[test]
fn member_is_added_at_the_end() {
    let updated = update_workspace_cargo_toml("[workspace]\nmembers = [\"a\", \"b\"]\n").unwrap().unwrap();
    assert_eq!(value(&updated), value("[workspace]\nmembers = [\"a\", \"b\", \"caller-utils\"]\n"));
    assert_eq!(updated, "[workspace]\nmembers = [\n    \"a\",\n    \"b\",\n    \"caller-utils\",\n]\n");
}

#[test]
fn member_is_added_to_an_empty_list() {
    let updated = update_workspace_cargo_toml("[workspace]\nmembers = []\nresolver = \"2\"\n").unwrap().unwrap();
    assert_eq!(value(&updated), value("[workspace]\nmembers = [\"caller-utils\"]\nresolver = \"2\"\n"));
}

#[test]
fn workspace_with_the_member_stays() {
    assert_eq!(update_workspace_cargo_toml("[workspace]\nmembers = [\"caller-utils\", \"a\"]\n").unwrap(), None);
}

#[test]
fn manifest_without_a_list_of_members_stays() {
    assert_eq!(update_workspace_cargo_toml("").unwrap(), None);
    assert_eq!(update_workspace_cargo_toml("[package]\nname = \"a\"\n").unwrap(), None);
    assert_eq!(update_workspace_cargo_toml("[workspace]\nresolver = \"2\"\n").unwrap(), None);
    assert_eq!(update_workspace_cargo_toml("[workspace]\nmembers = \"caller\"\n").unwrap(), None);
    assert_eq!(update_workspace_cargo_toml("workspace = 3\n").unwrap(), None);
}

#[test]
fn members_that_are_no_strings_are_passed_over() {
    let updated = update_workspace_cargo_toml("[workspace]\nmembers = [1, 2]\n").unwrap().unwrap();
    assert_eq!(
        value(&updated).get("workspace").unwrap().get("members").unwrap().as_array().unwrap().len(),
        3
    );
}

#[test]
fn text_that_is_no_document_is_an_error() {
    assert!(matches!(update_workspace_cargo_toml("[workspace\nmembers = ["), Err(ManifestError::Unreadable(_))));
    assert!(matches!(add_caller_utils_dependency("dependencies = {"), Err(ManifestError::Unreadable(_))));
}

#[test]
fn dependency_is_added_by_its_path() {
    let updated = add_caller_utils_dependency("[package]\nname = \"app\"\n\n[dependencies]\nserde = \"1\"\n").unwrap().unwrap();
    assert_eq!(
        value(&updated),
        value("[package]\nname = \"app\"\n\n[dependencies]\nserde = \"1\"\ncaller-utils = { path = \"../caller-utils\" }\n")
    );
}

#[test]
fn project_with_the_dependency_stays() {
    assert_eq!(add_caller_utils_dependency("[dependencies]\ncaller-utils = \"1\"\n").unwrap(), None);
}

#[test]
fn project_without_a_table_of_dependencies_stays() {
    assert_eq!(add_caller_utils_dependency("[package]\nname = \"app\"\n").unwrap(), None);
    assert_eq!(add_caller_utils_dependency("dependencies = [1]\n").unwrap(), None);
}

#[test]
fn values_are_changed_in_place() {
    let mut doc = value("[workspace]\nmembers = [\"a\"]\n");
    assert!(add_workspace_member(&mut doc));
    assert_eq!(doc, value("[workspace]\nmembers = [\"a\", \"caller-utils\"]\n"));
    assert!(!add_workspace_member(&mut doc));
    assert_eq!(doc, value("[workspace]\nmembers = [\"a\", \"caller-utils\"]\n"));

    let mut doc = value("[dependencies]\n");
    assert!(add_dependency(&mut doc));
    assert_eq!(doc, value("[dependencies.caller-utils]\npath = \"../caller-utils\"\n"));
    assert!(!add_dependency(&mut doc));
}

#[test]
fn member_names_are_compared_whole() {
    let texts = vec![Some("caller-utils-2".to_string()), None, Some("caller".to_string())];
    assert!(!names_member(&texts, "caller-utils"));
    assert!(names_member(&texts, "caller"));
    assert!(!names_member(&vec![], "caller"));
}

fn api() -> Vec<WitFile> {
    vec![
        WitFile { stem: "w".to_string(), content: "world w {\n    import svc;\n}\n".to_string() },
        WitFile {
            stem: "svc".to_string(),
            content: "//remote\nrun: func(target: address) -> result<unit, string>;\n".to_string(),
        },
    ]
}

#[test]
fn everything_to_write_is_returned() {
    let projects = vec![
        "[dependencies]\n".to_string(),
        "[dependencies]\ncaller-utils = \"1\"\n".to_string(),
    ];
    let made = create_caller_utils(&api(), Some("[workspace]\nmembers = []\n"), &projects).unwrap();
    assert!(made.generated.lib_rs.contains("pub async fn run_remote_invoke(target: &Address) -> SendResult<()> {"));
    assert_eq!(value(made.workspace_manifest.as_ref().unwrap()), value("[workspace]\nmembers = [\"caller-utils\"]\n"));
    assert_eq!(made.project_manifests.len(), 2);
    assert_eq!(
        value(made.project_manifests[0].as_ref().unwrap()),
        value("[dependencies.caller-utils]\npath = \"../caller-utils\"\n")
    );
    assert_eq!(made.project_manifests[1], None);
}

#[test]
fn absent_workspace_manifest_is_left_alone() {
    let made = create_caller_utils(&api(), None, &vec![]).unwrap();
    assert_eq!(made.workspace_manifest, None);
    assert_eq!(made.project_manifests, Vec::<Option<String>>::new());
}

#[test]
fn first_failing_step_decides_the_error() {
    let bad = "[".to_string();
    assert!(matches!(
        create_caller_utils(&vec![], Some("["), &vec![bad.clone()]),
        Err(GenerationError::NoWorldName)
    ));
    assert!(matches!(
        create_caller_utils(&api(), Some("["), &vec![bad.clone()]),
        Err(GenerationError::Workspace(ManifestError::Unreadable(_)))
    ));
    assert!(matches!(
        create_caller_utils(&api(), None, &vec!["[dependencies]\n".to_string(), bad.clone(), bad]),
        Err(GenerationError::Project { index: 1, error: ManifestError::Unreadable(_) })
    ));
}

#[test]
fn updated_manifests_need_no_further_change() {
    let workspace = update_workspace_cargo_toml("[workspace]\nmembers = [\"a\"]\n").unwrap().unwrap();
    assert_eq!(update_workspace_cargo_toml(&workspace).unwrap(), None);
    let project = add_caller_utils_dependency("[dependencies]\nserde = \"1\"\n").unwrap().unwrap();
    assert_eq!(add_caller_utils_dependency(&project).unwrap(), None);
}
