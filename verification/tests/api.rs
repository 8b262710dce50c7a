use cloud_stack::api::{
    lambda_archive_path, lambda_source_path, process_api_definition, resource_path_file,
    setup_api_dir, PathNode,
};
use cloud_stack::cloud::api::{ApiDefinition, HttpMethod};
use cloud_stack::stack::api::error::CompileError;
use cloud_stack::tf_generation::is_generated_extension;
use std::collections::hash_map::DefaultHasher;
use std::hash::{Hash, Hasher};

fn h(text: &str) -> u64 {
    let mut hasher = DefaultHasher::default();
    text.hash(&mut hasher);
    hasher.finish()
}

fn definition(name: &str, route: &str) -> ApiDefinition {
    ApiDefinition {
        name: name.to_string(),
        method: HttpMethod::Patch,
        route: route.to_string(),
        file: format!("{name}.js"),
        root: "apis/based".to_string(),
        read: vec![],
        write: vec![],
    }
}

const NODE: &str = "resource \"r\" \"api_resource_{resource_path_hash}\" {\n  parent_id = {parent_id}\n  path_part = \"{resource_path}\"\n}\n";

#[test]
fn the_file_of_a_node_fills_the_template() {
    let top = resource_path_file(NODE, "", "users");
    assert_eq!(top.path, format!("terraform/generated/api/resource_path_{}.tf", h("users")));
    assert_eq!(
        top.content,
        format!(
            "resource \"r\" \"api_resource_{}\" {{\n  parent_id = aws_api_gateway_rest_api.api_gateway.root_resource_id\n  path_part = \"users\"\n}}\n",
            h("users")
        )
    );
    let below = resource_path_file(NODE, "users", "id");
    assert_eq!(below.path, format!("terraform/generated/api/resource_path_{}.tf", h("users/id")));
    assert_eq!(
        below.content,
        format!(
            "resource \"r\" \"api_resource_{}\" {{\n  parent_id = aws_api_gateway_resource.api_resource_{}.id\n  path_part = \"id\"\n}}\n",
            h("users/id"),
            h("users")
        )
    );
}

#[test]
fn there_is_a_file_for_every_node() {
    let files = setup_api_dir(
        &vec![definition("a", "users/id"), definition("b", "users/all"), definition("c", "users")],
        NODE,
    )
    .unwrap();
    let paths: Vec<String> = files.iter().map(|f| f.path.clone()).collect();
    let expected: Vec<String> = ["users", "users/all", "users/id"]
        .iter()
        .map(|p| format!("terraform/generated/api/resource_path_{}.tf", h(p)))
        .collect();
    assert_eq!(paths, expected);
    assert_eq!(files[2].content, resource_path_file(NODE, "users", "id").content);
    assert!(setup_api_dir(&vec![], NODE).unwrap().is_empty());
    match setup_api_dir(&vec![definition("a", "users"), definition("b", "/users")], NODE) {
        Err(CompileError::InvalidRoute { route }) => assert_eq!(route, "/users"),
        other => panic!("unexpected: {other:?}"),
    }
}

#[test]
fn the_file_of_an_endpoint_fills_the_template() {
    let template = "{function_name} {runtime} {http_method} [{depends_on}] {resource_path} {resource_path_hash} {function_name}";
    let file = process_api_definition(&definition("get-posts", "posts"), "a.b", template);
    assert_eq!(file.path, "terraform/generated/api/get-posts.tf");
    assert_eq!(
        file.content,
        format!("get-posts nodejs20.x PATCH [a.b] posts {} get-posts", h("posts"))
    );
    assert_eq!(lambda_source_path(&definition("x", "r")), "apis/based/x.js");
    assert_eq!(
        lambda_archive_path(&definition("x", "r")),
        "terraform/generated/api/lambda_function_x.zip"
    );
}

#[test]
fn a_tree_takes_routes() {
    let mut tree = PathNode::new();
    tree.add_path("a/b").unwrap();
    tree.add_path("a/c").unwrap();
    tree.add_path("a/b").unwrap();
    for route in ["", "/a", "a/", "a//b"] {
        match tree.add_path(route) {
            Err(CompileError::InvalidRoute { route: reported }) => assert_eq!(reported, route),
            other => panic!("unexpected: {other:?}"),
        }
    }
    assert_eq!(tree.children.len(), 1);
    assert_eq!(tree.children[0].0, "a");
    let below: Vec<&str> = tree.children[0].1.children.iter().map(|c| c.0.as_str()).collect();
    assert_eq!(below, vec!["b", "c"]);
}

#[test]
fn archives_and_configuration_files_are_generated() {
    assert!(is_generated_extension("zip"));
    assert!(is_generated_extension("tf"));
    assert!(!is_generated_extension("toml"));
    assert!(!is_generated_extension(""));
}
