use cloud_stack::cloud::api::HttpMethod;
use cloud_stack::stack::api::deployment::GatewayDeployment;
use cloud_stack::stack::api::domain_name::{Certificate, Domain, EndpointConfiguration};
use cloud_stack::stack::api::endpoint::ApiEndpoint;
use cloud_stack::stack::api::error::CompileError;
use cloud_stack::stack::api::gateway::{ApiGateway, ResourcePath};
use cloud_stack::stack::api::stage::Stage;
use cloud_stack::stack::iam::role::{Role, RoleAction, RoleEffect, RolePolicy, RoleService};
use cloud_stack::stack::lambda::{LambdaFunction, LambdaRuntime};
use cloud_stack::stack::region::{Provider, Region};
use cloud_stack::stack::tf::TerraformEntity;
use cloud_stack::stack::{shared, Shared};
use std::collections::hash_map::DefaultHasher;
use std::hash::{Hash, Hasher};

fn h(text: &str) -> u64 {
    let mut hasher = DefaultHasher::default();
    text.hash(&mut hasher);
    hasher.finish()
}

fn h2(a: &str, b: &str) -> u64 {
    let mut hasher = DefaultHasher::default();
    a.hash(&mut hasher);
    b.hash(&mut hasher);
    hasher.finish()
}

fn the_role() -> Shared<Role> {
    shared(Role::new("LambdaRole", vec![RolePolicy::new(RoleService::Lambda)]))
}

fn the_domain() -> Shared<Domain> {
    shared(Domain {
        endpoint_configuration: EndpointConfiguration::Regional,
        certificate: shared(Certificate { domain: "api.example.com".to_string() }),
    })
}

fn the_endpoint(name: &str, route: &str, file: &str, method: HttpMethod) -> ApiEndpoint {
    ApiEndpoint {
        name: name.to_string(),
        lambda: LambdaFunction {
            role: the_role(),
            runtime: LambdaRuntime::NodeJs20,
            file_path: file.to_string(),
            environment_variables: vec![],
        },
        http_method: method,
        route: route.to_string(),
    }
}

fn the_gateway(endpoints: Vec<ApiEndpoint>) -> ApiGateway {
    ApiGateway {
        name: "API Gateway".to_string(),
        domain: Some(the_domain()),
        stage_name: "prod".to_string(),
        endpoints,
    }
}

#[test]
fn provider_block() {
    let provider = Provider { region: Region::default() };
    assert_eq!(Region::UsEast1.to_tf_string(), "us-east-1");
    assert_eq!(
        provider.create_terraform().to_string(),
        "provider \"aws\" {\n    region = \"us-east-1\"\n}"
    );
}

#[test]
fn role_block() {
    let role = Role::new(
        "LambdaRole",
        vec![RolePolicy::new(RoleService::Lambda), RolePolicy::new(RoleService::EC2)],
    );
    let id = format!("role_{}", h("LambdaRole"));
    assert_eq!(role.unique_key(), h("LambdaRole").to_string());
    assert_eq!(role.tf_identifier(), id);
    assert_eq!(role.var("arn").to_tf_string(), format!("aws_iam_role.{id}.arn"));
    let statement = |service: &str| {
        format!(
            "{{\n    \"Action\" = \"sts:AssumeRole\"\n    \"Effect\" = \"Allow\"\n    \"Principal\" = {{\n        \"Service\" = \"{service}\"\n    }}\n}}"
        )
    };
    let policy = format!(
        "jsonencode({{\n        \"Version\": \"2012-10-17\",\n        \"Statement\": [\n            {},\n\t\t\t{}\n        ]\n    }})",
        statement("lambda.amazonaws.com"),
        statement("ec2.amazonaws.com")
    );
    assert_eq!(
        role.create_terraform().to_string(),
        format!(
            "resource \"aws_iam_role\" \"{id}\" {{\n\tname = \"LambdaRole\"\n\tassume_role_policy = {policy}\n}}\n"
        )
    );
    let p = RolePolicy::new(RoleService::EC2);
    assert_eq!(p.action, RoleAction::AssumeRole);
    assert_eq!(p.effect, RoleEffect::Allow);
    assert_eq!(p.service, RoleService::EC2);
}

#[test]
fn certificate_and_domain_blocks() {
    let domain = the_domain();
    let key = h("api.example.com");
    assert_eq!(domain.certificate.tf_identifier(), format!("certificate_{key}"));
    assert_eq!(domain.unique_key(), key.to_string());
    assert_eq!(domain.tf_identifier(), format!("domain_{key}"));
    assert_eq!(
        domain.certificate.var("arn").to_tf_string(),
        format!("data.aws_acm_certificate.certificate_{key}.arn")
    );
    assert_eq!(
        domain.var("domain_name").to_tf_string(),
        format!("aws_api_gateway_domain_name.domain_{key}.domain_name")
    );
    assert_eq!(
        domain.certificate.create_terraform().to_string(),
        format!(
            "data \"aws_acm_certificate\" \"certificate_{key}\" {{\n\tdomain = \"api.example.com\"\n\tstatuses = [\"ISSUED\"]\n}}\n"
        )
    );
    assert_eq!(
        domain.create_terraform().to_string(),
        format!(
            "resource \"aws_api_gateway_domain_name\" \"domain_{key}\" {{\n\tdomain_name = \"api.example.com\"\n\tregional_certificate_arn = data.aws_acm_certificate.certificate_{key}.arn\n\tendpoint_configuration {{\n\ttypes = [\"REGIONAL\"]\n}}\n}}\n"
        )
    );
}

fn lambda_block(file: &str, variables: &str) -> String {
    let key = h(file);
    let role = h("LambdaRole");
    format!(
        "resource \"aws_lambda_function\" \"lambda_{key}\" {{\n\tfilename = \"lambda_function_{key}.zip\"\n\tfunction_name = \"lambda_{key}\"\n\trole = aws_iam_role.role_{role}.arn\n\thandler = \"index.handler\"\n\truntime = \"nodejs20.x\"\n\tsource_code_hash = filebase64sha256(\"lambda_function_{key}.zip\")\n\tenvironment {{\n\t{variables}\n}}\n}}\n"
    )
}

#[test]
fn function_block() {
    let mut function = LambdaFunction {
        role: the_role(),
        runtime: LambdaRuntime::NodeJs20,
        file_path: "list.js".to_string(),
        environment_variables: vec![],
    };
    let key = h("list.js");
    assert_eq!(function.unique_key(), key.to_string());
    assert_eq!(function.zip_path(), format!("lambda_function_{key}.zip"));
    assert_eq!(function.tf_identifier(), format!("lambda_{key}"));
    assert_eq!(LambdaFunction::tf_type(), "aws_lambda_function");
    assert_eq!(
        function.var("invoke_arn").to_tf_string(),
        format!("aws_lambda_function.lambda_{key}.invoke_arn")
    );
    assert_eq!(function.create_terraform().to_string(), lambda_block("list.js", ""));
    function.environment_variables =
        vec![("A".to_string(), "1".to_string()), ("B".to_string(), "2".to_string())];
    assert_eq!(
        function.create_terraform().to_string(),
        lambda_block("list.js", "A = \"1\"\n\tB = \"2\"")
    );
    function.environment_variables.push(("A".to_string(), "3".to_string()));
    assert_eq!(
        function.create_terraform().to_string(),
        lambda_block("list.js", "A = \"3\"\n\tB = \"2\"")
    );
}

fn expected_document() -> String {
    let gw = format!("gateway_{}", h2("API Gateway", "prod"));
    let domain = h("api.example.com");
    let stage = h("prod");
    let users = h("users");
    let function = h("list.js");
    let blocks = vec![
        format!("resource \"aws_api_gateway_rest_api\" \"{gw}\" {{\n\tname = \"API Gateway\"\n}}\n"),
        format!(
            "resource \"aws_api_gateway_base_path_mapping\" \"{gw}\" {{\n\tdomain_name = aws_api_gateway_domain_name.domain_{domain}.domain_name\n\tapi_id = aws_api_gateway_rest_api.{gw}.id\n\tstage_name = aws_api_gateway_stage.stage_{stage}.stage_name\n}}\n"
        ),
        format!(
            "resource \"aws_api_gateway_stage\" \"stage_{stage}\" {{\n\tstage_name = \"prod\"\n\tdeployment_id = aws_api_gateway_deployment.{gw}.id\n\trest_api_id = aws_api_gateway_rest_api.{gw}.id\n}}\n"
        ),
        format!(
            "resource \"aws_api_gateway_resource\" \"resource_path_{users}\" {{\n\trest_api_id = aws_api_gateway_rest_api.{gw}.id\n\tparent_id = aws_api_gateway_rest_api.{gw}.root_resource_id\n\tpath_part = \"users\"\n}}\n"
        ),
        lambda_block("list.js", ""),
        format!(
            "resource \"aws_api_gateway_method\" \"endpoint_lambda_{function}\" {{\n\trest_api_id = aws_api_gateway_rest_api.{gw}.id\n\tresource_id = aws_api_gateway_resource.resource_path_{users}.id\n\thttp_method = \"POST\"\n\tauthorization = \"NONE\"\n}}\n"
        ),
        format!(
            "resource \"aws_api_gateway_integration\" \"integration_endpoint_lambda_{function}\" {{\n\trest_api_id = aws_api_gateway_rest_api.{gw}.id\n\tresource_id = aws_api_gateway_resource.resource_path_{users}.id\n\thttp_method = \"POST\"\n\tdepends_on = [aws_lambda_function.lambda_{function}]\n\tintegration_http_method = \"POST\"\n\ttype = \"AWS_PROXY\"\n\turi = aws_lambda_function.lambda_{function}.invoke_arn\n}}\n"
        ),
        format!(
            "resource \"aws_lambda_permission\" \"endpoint_lambda_{function}\" {{\n\tstatement_id = \"AllowAPIGatewayInvoke\"\n\taction = \"lambda:InvokeFunction\"\n\tfunction_name = aws_lambda_function.lambda_{function}.function_name\n\tprincipal = \"apigateway.amazonaws.com\"\n\tsource_arn = \"${{aws_api_gateway_rest_api.{gw}.execution_arn}}/*/*/*\"\n}}\n"
        ),
        format!(
            "resource \"aws_api_gateway_deployment\" \"{gw}\" {{\n\trest_api_id = aws_api_gateway_rest_api.{gw}.id\n\tlifecycle {{\n\tcreate_before_destroy = true\n}}\n\tdepends_on = [aws_api_gateway_method.endpoint_lambda_{function}, aws_api_gateway_integration.integration_endpoint_lambda_{function}]\n\ttriggers {{\n\tredeployment = sha1(jsonencode([\naws_api_gateway_method.endpoint_lambda_{function},\naws_api_gateway_integration.integration_endpoint_lambda_{function}\n]))\n}}\n}}\n"
        ),
    ];
    blocks.join("\n")
}

#[test]
fn the_whole_document_of_a_gateway() {
    let g = the_gateway(vec![the_endpoint("list", "users", "list.js", HttpMethod::Post)]);
    assert_eq!(g.create_terraform().unwrap().to_string(), expected_document());
}

#[test]
fn gateway_identifier_and_references() {
    let g = the_gateway(vec![]);
    let id = format!("gateway_{}", h2("API Gateway", "prod"));
    assert_eq!(g.unique_key(), h2("API Gateway", "prod").to_string());
    assert_eq!(g.tf_identifier(), id);
    assert_eq!(
        g.var_gateway_rest_api("id").to_tf_string(),
        format!("aws_api_gateway_rest_api.{id}.id")
    );
    assert_eq!(
        g.var_gateway_resource("root_resource_id").to_tf_string(),
        format!("aws_api_gateway_rest_api.{id}.root_resource_id")
    );
    assert_eq!(
        g.var_path_mapping_resource("stage_name").to_tf_string(),
        format!("aws_api_gateway_base_path_mapping.{id}.stage_name")
    );
    let deployment = GatewayDeployment { gateway: &g };
    assert_eq!(deployment.tf_identifier(), id);
    assert_eq!(
        deployment.var("id").to_tf_string(),
        format!("aws_api_gateway_deployment.{id}.id")
    );
    let stage = Stage { stage_name: "prod".to_string() };
    assert_eq!(stage.tf_identifier(), format!("stage_{}", h("prod")));
}

#[test]
fn a_gateway_without_endpoints_has_no_dependencies() {
    let g = the_gateway(vec![]);
    let id = g.tf_identifier();
    let deployment = GatewayDeployment { gateway: &g };
    assert_eq!(
        deployment.create_terraform().to_string(),
        format!(
            "resource \"aws_api_gateway_deployment\" \"{id}\" {{\n\trest_api_id = aws_api_gateway_rest_api.{id}.id\n\tlifecycle {{\n\tcreate_before_destroy = true\n}}\n\ttriggers {{\n\tredeployment = sha1(jsonencode([\n\n]))\n}}\n}}\n"
        )
    );
    assert!(g.create_terraform().is_ok());
    assert!(g.resolve_paths().unwrap().is_empty());
}

#[test]
fn the_order_of_the_endpoints_does_not_show() {
    let a = the_endpoint("list", "users", "list.js", HttpMethod::Get);
    let b = the_endpoint("get", "users/id", "get.js", HttpMethod::Get);
    let c = the_endpoint("orders", "orders", "orders.js", HttpMethod::Post);
    let first = the_gateway(vec![a.clone(), b.clone(), c.clone()]);
    let second = the_gateway(vec![c, a, b]);
    assert_eq!(
        first.create_terraform().unwrap().to_string(),
        second.create_terraform().unwrap().to_string()
    );
    assert_eq!(
        first.create_terraform().unwrap().to_string(),
        first.create_terraform().unwrap().to_string()
    );
}

#[test]
fn the_deployment_depends_on_every_method_and_integration() {
    let endpoints = vec![
        the_endpoint("b", "x", "b.js", HttpMethod::Get),
        the_endpoint("a", "y", "a.js", HttpMethod::Get),
    ];
    let g = the_gateway(endpoints);
    let text = GatewayDeployment { gateway: &g }.create_terraform().to_string();
    let line = text.lines().find(|l| l.starts_with("\tdepends_on")).unwrap();
    let listed: Vec<&str> = line
        .trim_start_matches("\tdepends_on = [")
        .trim_end_matches(']')
        .split(", ")
        .collect();
    let mut expected = vec![];
    for e in &g.endpoints {
        expected.push(format!("aws_api_gateway_method.{}", e.tf_identifier()));
        expected.push(format!(
            "aws_api_gateway_integration.{}",
            e.api_integration().tf_identifier()
        ));
    }
    let mut sorted_listed: Vec<String> = listed.iter().map(|s| s.to_string()).collect();
    sorted_listed.sort();
    expected.sort();
    assert_eq!(sorted_listed, expected);
    assert!(listed[0].ends_with(&format!("endpoint_lambda_{}", h("a.js"))));
}

#[test]
fn a_route_with_an_empty_segment_is_refused() {
    for route in ["", "/users", "users/", "a//b"] {
        let g = the_gateway(vec![
            the_endpoint("ok", "fine", "ok.js", HttpMethod::Get),
            the_endpoint("bad", route, "bad.js", HttpMethod::Get),
        ]);
        match g.create_terraform() {
            Err(CompileError::InvalidRoute { route: reported }) => {
                assert_eq!(reported, route);
            }
            other => panic!("unexpected: {other:?}"),
        }
    }
}

#[test]
fn a_gateway_without_a_domain_is_refused() {
    let mut g = the_gateway(vec![the_endpoint("list", "users", "list.js", HttpMethod::Get)]);
    g.domain = None;
    match g.create_terraform() {
        Err(CompileError::MissingDomainConfiguration { gateway }) => {
            assert_eq!(gateway, "API Gateway")
        }
        other => panic!("unexpected: {other:?}"),
    }
}

#[test]
fn two_endpoints_with_one_function_collide() {
    let g = the_gateway(vec![
        the_endpoint("list", "users", "same.js", HttpMethod::Get),
        the_endpoint("make", "users", "same.js", HttpMethod::Post),
    ]);
    match g.create_terraform() {
        Err(CompileError::IdentifierCollision { identifier }) => {
            assert_eq!(identifier, format!("lambda_{}", h("same.js")))
        }
        other => panic!("unexpected: {other:?}"),
    }
}

#[test]
fn two_nodes_with_one_path_collide() {
    let g = the_gateway(vec![the_endpoint("list", "users", "list.js", HttpMethod::Get)]);
    let node = || ResourcePath::new(g.var_gateway_rest_api("root_resource_id"), "users");
    match g.compile(&vec![node(), node()]) {
        Err(CompileError::IdentifierCollision { identifier }) => {
            assert_eq!(identifier, format!("resource_path_{}", h("users")))
        }
        other => panic!("unexpected: {other:?}"),
    }
    assert!(g.compile(&vec![node()]).is_ok());
}

#[test]
fn errors_say_what_was_at_fault() {
    let e = CompileError::InvalidRoute { route: "r".to_string() };
    assert_eq!(e.message(), "Invalid route `r`");
    let e = CompileError::UnresolvedRoute { endpoint: "e".to_string(), route: "r".to_string() };
    assert_eq!(e.message(), "No resource path for route `r` of endpoint `e`");
    let e = CompileError::IdentifierCollision { identifier: "i".to_string() };
    assert_eq!(e.message(), "Identifier `i` is used twice");
    let e = CompileError::DuplicateName { name: "n".to_string() };
    assert_eq!(e.message(), "Endpoint name `n` is used twice");
    let e = CompileError::MissingDomainConfiguration { gateway: "g".to_string() };
    assert_eq!(e.message(), "Gateway `g` has no domain");
}

#[test]
fn adding_a_route_keeps_the_nodes_that_were_there() {
    let g = the_gateway(vec![]);
    let before =
        cloud_stack::stack::api::path_tree::resolve(&g, &vec!["users/id".to_string()]).unwrap();
    let after = cloud_stack::stack::api::path_tree::resolve(
        &g,
        &vec!["users/id".to_string(), "orders/new".to_string()],
    )
    .unwrap();
    for node in &before {
        let same = after.iter().find(|n| n.resource_path == node.resource_path).unwrap();
        assert_eq!(same.tf_identifier(), node.tf_identifier());
        assert_eq!(same.parent_id.to_tf_string(), node.parent_id.to_tf_string());
    }
    assert_eq!(after.len(), 4);
}
