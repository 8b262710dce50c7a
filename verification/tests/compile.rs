use cloud_stack::cloud::api::HttpMethod;
use cloud_stack::compile::{
    build_gateways, compile_cloud, compile_domain, compile_domains, find_domain, gateway_of,
    group_by_domain,
};
use cloud_stack::config::api::api_config::{ApiConfig, ApiEndpoint};
use cloud_stack::stack::api::deployment::GatewayDeployment;
use cloud_stack::stack::api::domain_name::{Certificate, Domain, EndpointConfiguration};
use cloud_stack::stack::api::error::CompileError;
use cloud_stack::stack::iam::role::{Role, RolePolicy, RoleService};
use cloud_stack::stack::region::{Provider, Region};
use cloud_stack::stack::{shared, Shared};
use std::collections::hash_map::DefaultHasher;
use std::hash::{Hash, Hasher};

fn h(text: &str) -> u64 {
    let mut hasher = DefaultHasher::default();
    text.hash(&mut hasher);
    hasher.finish()
}

fn endpoint(name: &str, route: &str, file: &str) -> ApiEndpoint {
    ApiEndpoint {
        name: name.to_string(),
        method: HttpMethod::Get,
        route: route.to_string(),
        file: file.to_string(),
        read: vec![],
        write: vec![],
    }
}

fn api(name: &str, domain: &str, endpoints: Vec<ApiEndpoint>) -> ApiConfig {
    ApiConfig {
        name: name.to_string(),
        root: format!("apis/{name}"),
        domain: domain.to_string(),
        prefix: None,
        endpoints,
    }
}

fn domain(name: &str) -> Shared<Domain> {
    shared(Domain {
        endpoint_configuration: EndpointConfiguration::Regional,
        certificate: shared(Certificate { domain: name.to_string() }),
    })
}

fn role() -> Shared<Role> {
    shared(Role::new("LambdaRole", vec![RolePolicy::new(RoleService::Lambda)]))
}

fn apis() -> Vec<ApiConfig> {
    vec![
        api("users", "x.example.com", vec![endpoint("list", "users", "list.js")]),
        api("orders", "y.example.com", vec![endpoint("orders", "orders", "orders.js")]),
        api("admin", "x.example.com", vec![endpoint("admin", "admin", "admin.js")]),
    ]
}

#[test]
fn endpoints_are_grouped_by_domain() {
    let groups = group_by_domain(&apis());
    assert_eq!(groups.len(), 2);
    assert_eq!(groups[0].domain, "x.example.com");
    assert_eq!(groups[1].domain, "y.example.com");
    let names = |g: usize| -> Vec<String> {
        groups[g].endpoints.iter().map(|e| e.name.clone()).collect()
    };
    assert_eq!(names(0), vec!["list".to_string(), "admin".to_string()]);
    assert_eq!(names(1), vec!["orders".to_string()]);
    assert_eq!(groups[0].endpoints[1].root, "apis/admin");
    assert!(group_by_domain(&vec![]).is_empty());
}

#[test]
fn a_gateway_is_made_for_each_group() {
    let groups = group_by_domain(&apis());
    let r = role();
    let gateway = gateway_of(&groups[0], &domain("x.example.com"), &r, "prod");
    assert_eq!(gateway.name, "x.example.com");
    assert_eq!(gateway.stage_name, "prod");
    assert_eq!(gateway.endpoints.len(), 2);
    assert_eq!(gateway.endpoints[0].name, "list");
    assert_eq!(gateway.endpoints[0].lambda.file_path, "apis/users/list.js");
    assert_eq!(gateway.endpoints[1].lambda.file_path, "apis/admin/admin.js");
    assert_eq!(gateway.endpoints[1].route, "admin");
    assert_eq!(gateway.endpoints[0].lambda.role.name, "LambdaRole");
    assert_eq!(
        gateway.domain.as_ref().unwrap().certificate.domain,
        "x.example.com"
    );
}

#[test]
fn endpoints_of_one_domain_do_not_show_in_the_other() {
    let domains = vec![domain("x.example.com"), domain("y.example.com")];
    let gateways = build_gateways(&role(), &domains, "prod", &apis()).unwrap();
    assert_eq!(gateways.len(), 2);
    let x = GatewayDeployment { gateway: &gateways[0] }.create_terraform().to_string();
    let y = GatewayDeployment { gateway: &gateways[1] }.create_terraform().to_string();
    let list = format!("lambda_{}", h("apis/users/list.js"));
    let admin = format!("lambda_{}", h("apis/admin/admin.js"));
    let orders = format!("lambda_{}", h("apis/orders/orders.js"));
    assert!(x.contains(&list) && x.contains(&admin) && !x.contains(&orders));
    assert!(y.contains(&orders) && !y.contains(&list) && !y.contains(&admin));
}

#[test]
fn a_domain_that_is_not_registered_is_reported() {
    let domains = vec![domain("x.example.com")];
    match compile_cloud(&Provider { region: Region::UsEast1 }, &role(), &domains, "prod", &apis()) {
        Err(CompileError::MissingDomainConfiguration { gateway }) => {
            assert_eq!(gateway, "y.example.com")
        }
        other => panic!("unexpected: {other:?}"),
    }
    assert_eq!(find_domain(&domains, "x.example.com"), Some(0));
    assert_eq!(find_domain(&domains, "y.example.com"), None);
}

#[test]
fn every_domain_gets_a_document_of_its_own() {
    let provider = Provider { region: Region::UsEast1 };
    let r = role();
    let domains = vec![domain("x.example.com"), domain("y.example.com")];
    let documents = compile_cloud(&provider, &r, &domains, "prod", &apis()).unwrap();
    let gateways = build_gateways(&r, &domains, "prod", &apis()).unwrap();
    assert_eq!(documents.len(), 2);
    for (g, gateway) in gateways.iter().enumerate() {
        let parts = vec![
            provider.create_terraform().to_string(),
            r.create_terraform().to_string(),
            domains[g].certificate.create_terraform().to_string(),
            domains[g].create_terraform().to_string(),
            gateway.create_terraform().unwrap().to_string(),
        ];
        assert_eq!(documents[g].to_string(), parts.join("\n"));
        assert_eq!(
            compile_domain(&provider, &r, gateway).unwrap().to_string(),
            documents[g].to_string()
        );
    }
    let again = compile_domains(&provider, &r, &gateways).unwrap();
    assert_eq!(again[1].to_string(), documents[1].to_string());
    assert!(!documents[0].to_string().contains("y.example.com"));
    assert!(!documents[1].to_string().contains("x.example.com"));
}

#[test]
fn the_first_gateway_that_fails_ends_the_compilation() {
    let provider = Provider { region: Region::UsEast1 };
    let domains = vec![domain("x.example.com"), domain("y.example.com")];
    let mut failing = apis();
    failing[1].endpoints.push(endpoint("orders", "other", "other.js"));
    failing[2].endpoints.push(endpoint("bad", "", "bad.js"));
    match compile_cloud(&provider, &role(), &domains, "prod", &failing) {
        Err(CompileError::InvalidRoute { route }) => {
            assert_eq!(route, "");
        }
        other => panic!("unexpected: {other:?}"),
    }
}
