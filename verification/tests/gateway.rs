use cloud_stack::cloud::api::HttpMethod;
use cloud_stack::stack::api::domain_name::{Certificate, Domain, EndpointConfiguration};
use cloud_stack::stack::api::endpoint::ApiEndpoint;
use cloud_stack::stack::api::error::CompileError;
use cloud_stack::stack::api::gateway::{ApiGateway, ResourcePath};
use cloud_stack::stack::api::path_tree::{resolve, walk_tree, PathNode};
use cloud_stack::stack::iam::role::{Role, RolePolicy, RoleService};
use cloud_stack::stack::lambda::{LambdaFunction, LambdaRuntime};
use cloud_stack::stack::shared;
use cloud_stack::stack::Shared;
use std::collections::hash_map::DefaultHasher;
use std::hash::{Hash, Hasher};

fn hash_of(text: &str) -> u64 {
    let mut hasher = DefaultHasher::default();
    text.hash(&mut hasher);
    hasher.finish()
}

fn role() -> Shared<Role> {
    shared(Role::new("LambdaRole", vec![RolePolicy::new(RoleService::Lambda)]))
}

fn endpoint(name: &str, route: &str, file: &str) -> ApiEndpoint {
    ApiEndpoint {
        name: name.to_string(),
        lambda: LambdaFunction {
            role: role(),
            runtime: LambdaRuntime::NodeJs20,
            file_path: file.to_string(),
            environment_variables: vec![],
        },
        http_method: HttpMethod::Get,
        route: route.to_string(),
    }
}

fn gateway(endpoints: Vec<ApiEndpoint>) -> ApiGateway {
    let certificate = shared(Certificate { domain: "api.example.com".to_string() });
    let domain = shared(Domain {
        endpoint_configuration: EndpointConfiguration::Regional,
        certificate,
    });
    ApiGateway {
        name: "API Gateway".to_string(),
        domain: Some(domain),
        stage_name: "prod".to_string(),
        endpoints,
    }
}

fn count(text: &str, needle: &str) -> usize {
    text.matches(needle).count()
}

#[test]
fn users_scenario_yields_two_nodes_two_functions_one_deployment() {
    let g = gateway(vec![
        endpoint("list", "users", "list.js"),
        endpoint("get", "users/id", "get.js"),
    ]);
    let paths = g.resolve_paths().unwrap();
    assert_eq!(paths.len(), 2);
    assert_eq!(paths[0].resource_path, "users");
    assert_eq!(paths[1].resource_path, "users/id");

    let text = g.create_terraform().unwrap().to_string();
    assert_eq!(count(&text, "resource \"aws_api_gateway_resource\""), 2);
    assert_eq!(count(&text, "resource \"aws_lambda_function\""), 2);
    assert_eq!(count(&text, "resource \"aws_api_gateway_method\""), 2);
    assert_eq!(count(&text, "resource \"aws_api_gateway_integration\""), 2);
    assert_eq!(count(&text, "resource \"aws_lambda_permission\""), 2);
    assert_eq!(count(&text, "resource \"aws_api_gateway_deployment\""), 1);
    assert_eq!(count(&text, "resource \"aws_api_gateway_stage\""), 1);

    let list = format!("aws_api_gateway_method.endpoint_lambda_{}", hash_of("list.js"));
    let get = format!("aws_api_gateway_method.endpoint_lambda_{}", hash_of("get.js"));
    let list_integration =
        format!("aws_api_gateway_integration.integration_endpoint_lambda_{}", hash_of("list.js"));
    let get_integration =
        format!("aws_api_gateway_integration.integration_endpoint_lambda_{}", hash_of("get.js"));
    let depends = format!(
        "depends_on = [{get}, {get_integration}, {list}, {list_integration}]"
    );
    assert!(text.contains(&depends), "{text}");
}

#[test]
fn duplicate_names_are_rejected() {
    let g = gateway(vec![
        endpoint("list", "users", "list.js"),
        endpoint("list", "users/id", "get.js"),
    ]);
    match g.create_terraform() {
        Err(CompileError::DuplicateName { name }) => assert_eq!(name, "list"),
        other => panic!("unexpected: {other:?}"),
    }
    match g.compile(&vec![]) {
        Err(CompileError::DuplicateName { name }) => assert_eq!(name, "list"),
        other => panic!("unexpected: {other:?}"),
    }
}

#[test]
fn names_that_differ_in_capitalization_alone_are_duplicates() {
    let g = gateway(vec![
        endpoint("ok", "fine", "ok.js"),
        endpoint("List", "users", "list.js"),
        endpoint("other", "orders", "other.js"),
        endpoint("list", "orders/all", "get.js"),
    ]);
    match g.create_terraform() {
        Err(CompileError::DuplicateName { name }) => assert_eq!(name, "List"),
        other => panic!("unexpected: {other:?}"),
    }
    match g.compile(&g.resolve_paths().unwrap()) {
        Err(CompileError::DuplicateName { name }) => assert_eq!(name, "List"),
        other => panic!("unexpected: {other:?}"),
    }
}

#[test]
fn the_resolver_refuses_a_route_with_an_empty_segment() {
    let g = gateway(vec![]);
    for route in ["", "/a", "a/", "a//b"] {
        match resolve(&g, &vec!["fine".to_string(), route.to_string(), "".to_string()]) {
            Err(CompileError::InvalidRoute { route: reported }) => assert_eq!(reported, route),
            other => panic!("unexpected: {other:?}"),
        }
    }
}

#[test]
fn the_walk_of_a_larger_tree_keeps_the_nodes_of_the_smaller() {
    let g = gateway(vec![]);
    let mut tree = PathNode::new();
    tree.add_path("users/id").unwrap();
    let before = walk_tree(&g, &tree);
    tree.add_path("users/all").unwrap();
    tree.add_path("orders").unwrap();
    let after = walk_tree(&g, &tree);
    assert_eq!(before.len(), 2);
    assert_eq!(after.len(), 4);
    for node in &before {
        let same: Vec<&ResourcePath> =
            after.iter().filter(|n| n.resource_path == node.resource_path).collect();
        assert_eq!(same.len(), 1);
        assert_eq!(same[0].tf_identifier(), node.tf_identifier());
        assert_eq!(same[0].parent_id.to_tf_string(), node.parent_id.to_tf_string());
    }
    assert_eq!(before[0].resource_path, "users");
    assert_eq!(before[1].resource_path, "users/id");
}

#[test]
fn prefixes_are_shared() {
    let g = gateway(vec![]);
    let paths = resolve(&g, &vec!["a/b/c".to_string(), "a/b/d".to_string()]).unwrap();
    let listed: Vec<&str> = paths.iter().map(|p| p.resource_path.as_str()).collect();
    assert_eq!(listed, vec!["a", "a/b", "a/b/c", "a/b/d"]);
}

#[test]
fn node_identifier_is_the_hash_of_the_path() {
    let g = gateway(vec![]);
    let paths = resolve(&g, &vec!["a/b".to_string()]).unwrap();
    assert_eq!(paths[0].tf_identifier(), format!("resource_path_{}", hash_of("a")));
    assert_eq!(paths[1].tf_identifier(), format!("resource_path_{}", hash_of("a/b")));
    assert_eq!(
        paths[0].parent_id.to_tf_string(),
        format!("aws_api_gateway_rest_api.{}.root_resource_id", g.tf_identifier())
    );
    assert_eq!(
        paths[1].parent_id.to_tf_string(),
        format!("aws_api_gateway_resource.resource_path_{}.id", hash_of("a"))
    );
}

#[test]
fn unresolved_route_is_reported() {
    let g = gateway(vec![endpoint("list", "users", "list.js")]);
    let other = ResourcePath::new(g.var_gateway_rest_api("root_resource_id"), "orders");
    match g.compile(&vec![other]) {
        Err(CompileError::UnresolvedRoute { endpoint, route }) => {
            assert_eq!(endpoint, "list");
            assert_eq!(route, "users");
        }
        other => panic!("unexpected: {other:?}"),
    }
}
