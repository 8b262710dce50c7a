use cloud_stack::cloud::api::{ApiDefinitionError, HttpMethod, HttpMethodError};
use cloud_stack::cloud::Cloud;
use cloud_stack::config::api::api_config::ApiConfig;
use cloud_stack::config::api::load_definitions;
use cloud_stack::config::cloud_config::{all_distinct, lowercase_names, NameUniquenessChecker};
use cloud_stack::config::loading::api::{
    create_api_definitions, is_endpoints_file, load_api_configs, load_raw_api_config,
    ApiConfigRaw, ApiEndpointRaw, ApiEndpointsRaw, ApiSource, EndpointFile,
};
use cloud_stack::config::loading::load_configs;
use cloud_stack::config::{ConfigVariable, ConfigVariableError, ConfigVariables, ContainsVariables};

fn variables(pairs: &[(&str, &str)]) -> ConfigVariables {
    let mut vars = ConfigVariables::new();
    for (name, value) in pairs {
        vars.insert(ConfigVariable::new(name).unwrap(), value.to_string());
    }
    vars
}

fn raw(name: &str, method: &str, route: Option<&str>, file: &str) -> ApiEndpointRaw {
    ApiEndpointRaw {
        name: name.to_string(),
        method: method.to_string(),
        route: route.map(|r| r.to_string()),
        file: file.to_string(),
        read: None,
        write: Some(vec!["$table".to_string()]),
    }
}

fn config(prefix: Option<&str>) -> ApiConfig {
    ApiConfig {
        name: "based".to_string(),
        root: "samples/api".to_string(),
        domain: "api.example.com".to_string(),
        prefix: prefix.map(|p| p.to_string()),
        endpoints: vec![],
    }
}

fn file(path: &str, endpoints: Vec<ApiEndpointRaw>) -> EndpointFile {
    EndpointFile { path: path.to_string(), content: Ok(ApiEndpointsRaw { api: endpoints }) }
}

#[test]
fn method_names_are_read_in_any_case() {
    assert_eq!(HttpMethod::try_from("get"), Ok(HttpMethod::Get));
    assert_eq!(HttpMethod::try_from("Post"), Ok(HttpMethod::Post));
    assert_eq!(HttpMethod::try_from("ANY"), Ok(HttpMethod::Any));
    assert_eq!(HttpMethod::try_from("options"), Ok(HttpMethod::Options));
    assert_eq!(HttpMethod::try_from("fetch"), Err(HttpMethodError::InvalidStringValue));
    assert_eq!(HttpMethod::try_from(""), Err(HttpMethodError::InvalidStringValue));
    assert_eq!(HttpMethod::from_name("GET"), Ok(HttpMethod::Get));
    assert_eq!(HttpMethod::from_name("get"), Err(HttpMethodError::InvalidStringValue));
    assert_eq!(HttpMethodError::InvalidStringValue.message(), "Invalid HttpMethod string value");
    assert_eq!(String::from(HttpMethod::Delete), "DELETE");
    assert_eq!(String::from(HttpMethod::Any), "ANY");
}

#[test]
fn every_method_has_its_name() {
    let all = [
        (HttpMethod::Any, "ANY"),
        (HttpMethod::Get, "GET"),
        (HttpMethod::Post, "POST"),
        (HttpMethod::Put, "PUT"),
        (HttpMethod::Delete, "DELETE"),
        (HttpMethod::Options, "OPTIONS"),
        (HttpMethod::Patch, "PATCH"),
        (HttpMethod::Head, "HEAD"),
    ];
    for (method, name) in all {
        assert_eq!(method.name(), name);
        assert_eq!(method.to_text(), name);
        assert_eq!(HttpMethod::from_name(name), Ok(method));
    }
}

#[test]
fn a_variable_is_one_word_behind_a_dollar_sign() {
    assert_eq!(ConfigVariable::new("domain").unwrap().placeholder(), "$domain");
    assert_eq!(ConfigVariable::new(" domain ").unwrap().placeholder(), "$ domain ");
    for name in ["", " ", "two words", "a\tb"] {
        match ConfigVariable::new(name) {
            Err(ConfigVariableError::InvalidName(reported)) => assert_eq!(reported, name),
            Ok(v) => panic!("unexpected: {v:?}"),
        }
    }
    assert_eq!(
        ConfigVariableError::InvalidName("a b".to_string()).message(),
        "Invalid variable name - a b"
    );
}

#[test]
fn a_variable_given_twice_takes_the_new_value() {
    let vars = variables(&[("a", "1"), ("b", "2"), ("a", "3")]);
    let listed: Vec<(String, String)> = vars
        .iter()
        .iter()
        .map(|(k, v)| (k.placeholder().to_string(), v.clone()))
        .collect();
    assert_eq!(
        listed,
        vec![("$a".to_string(), "3".to_string()), ("$b".to_string(), "2".to_string())]
    );
    assert!(ConfigVariables::default().iter().is_empty());
}

#[test]
fn variables_are_replaced_in_order() {
    let vars = variables(&[("a", "$b"), ("b", "x")]);
    let mut text = "$a-$b".to_string();
    text.replace_variables(&vars);
    assert_eq!(text, "x-x");
    let mut list = vec!["$a".to_string(), "none".to_string()];
    list.replace_variables(&vars);
    assert_eq!(list, vec!["x".to_string(), "none".to_string()]);
    let mut some = Some("$b$b".to_string());
    some.replace_variables(&vars);
    assert_eq!(some, Some("xx".to_string()));
    let mut none: Option<String> = None;
    none.replace_variables(&vars);
    assert_eq!(none, None);
}

#[test]
fn names_are_compared_in_lower_case() {
    let names = |items: &[&str]| items.iter().map(|s| s.to_string()).collect::<Vec<String>>();
    assert!((&names(&["a", "b"])).check_all_unique_names());
    assert!(!(&names(&["Users", "users"])).check_all_unique_names());
    assert!((&names(&[])).check_all_unique_names());
    assert_eq!(lowercase_names(&names(&["AbC", "x"])), names(&["abc", "x"]));
    assert!(all_distinct(&names(&["Users", "users"])));
    assert!(!all_distinct(&names(&["a", "a"])));
}

#[test]
fn only_files_named_endpoints_toml_count() {
    assert!(is_endpoints_file("endpoints.toml", false));
    assert!(!is_endpoints_file("endpoints.toml", true));
    assert!(!is_endpoints_file("cloud.toml", false));
}

#[test]
fn endpoints_are_made_from_the_files() {
    let vars = variables(&[("table", "posts"), ("verb", "get")]);
    let files = vec![
        file(
            "samples/api/posts/endpoints.toml",
            vec![raw("list", "$verb", None, "list.js"), raw("make", "POST", Some("posts/new"), "$table.js")],
        ),
        file("samples/api/other/endpoints.toml", vec![raw("other", "any", Some("o"), "o.js")]),
    ];
    let endpoints = create_api_definitions(&config(Some("v1")), &vars, &files).unwrap();
    assert_eq!(endpoints.len(), 3);
    assert_eq!(endpoints[0].name, "list");
    assert_eq!(endpoints[0].method, HttpMethod::Get);
    assert_eq!(endpoints[0].route, "v1/posts/endpoints.toml");
    assert_eq!(endpoints[0].file, "list.js");
    assert!(endpoints[0].read.is_empty());
    assert_eq!(endpoints[0].write, vec!["posts".to_string()]);
    assert_eq!(endpoints[1].route, "v1/posts/new");
    assert_eq!(endpoints[1].file, "posts.js");
    assert_eq!(endpoints[1].method, HttpMethod::Post);
    assert_eq!(endpoints[2].name, "other");
    assert_eq!(endpoints[2].method, HttpMethod::Any);

    let without_prefix = create_api_definitions(&config(None), &vars, &files).unwrap();
    assert_eq!(without_prefix[1].route, "posts/new");
    assert_eq!(without_prefix[0].route, "posts/endpoints.toml");
}

#[test]
fn the_first_error_ends_the_loading() {
    let vars = variables(&[]);
    let files = vec![
        file("samples/api/a/endpoints.toml", vec![raw("a", "GET", Some("a"), "a.js")]),
        file("samples/api/b/endpoints.toml", vec![raw("b", "FETCH", Some("b"), "b.js")]),
        EndpointFile {
            path: "samples/api/c/endpoints.toml".to_string(),
            content: Err(ApiDefinitionError::CannotParseTomlFile("bad".to_string())),
        },
    ];
    match create_api_definitions(&config(None), &vars, &files) {
        Err(ApiDefinitionError::InvalidMethod(m)) => assert_eq!(m, "FETCH"),
        other => panic!("unexpected: {other:?}"),
    }
    let files = vec![
        EndpointFile {
            path: "samples/api/c/endpoints.toml".to_string(),
            content: Err(ApiDefinitionError::CannotReadTomlFile("gone".to_string())),
        },
        file("samples/api/b/endpoints.toml", vec![raw("b", "FETCH", Some("b"), "b.js")]),
    ];
    match create_api_definitions(&config(None), &vars, &files) {
        Err(ApiDefinitionError::CannotReadTomlFile(m)) => assert_eq!(m, "gone"),
        other => panic!("unexpected: {other:?}"),
    }
    let files = vec![
        file("samples/api/a/endpoints.toml", vec![raw("a", "GET", Some("a"), "a.js")]),
        EndpointFile {
            path: "samples/api/c/endpoints.toml".to_string(),
            content: Err(ApiDefinitionError::CannotParseTomlFile("bad".to_string())),
        },
    ];
    match create_api_definitions(&config(None), &vars, &files) {
        Err(ApiDefinitionError::CannotParseTomlFile(m)) => assert_eq!(m, "bad"),
        other => panic!("unexpected: {other:?}"),
    }
}

#[test]
fn endpoints_that_share_a_name_are_refused() {
    let vars = variables(&[("one", "Same")]);
    let files = vec![
        file("samples/api/a/endpoints.toml", vec![raw("same", "GET", Some("a"), "a.js")]),
        file("samples/api/b/endpoints.toml", vec![raw("$one", "GET", Some("b"), "b.js")]),
    ];
    match create_api_definitions(&config(None), &vars, &files) {
        Err(ApiDefinitionError::DuplicateNameFound) => {}
        other => panic!("unexpected: {other:?}"),
    }
    match load_definitions(&config(None), &vars, &files) {
        Err(ApiDefinitionError::DuplicateNameFound) => {}
        other => panic!("unexpected: {other:?}"),
    }
    let files = vec![
        file("samples/api/a/endpoints.toml", vec![raw("same", "GET", Some("a"), "a.js")]),
        file("samples/api/b/endpoints.toml", vec![raw("same", "FETCH", Some("b"), "b.js")]),
    ];
    match create_api_definitions(&config(None), &vars, &files) {
        Err(ApiDefinitionError::InvalidMethod(m)) => assert_eq!(m, "FETCH"),
        other => panic!("unexpected: {other:?}"),
    }
}

#[test]
fn a_route_without_a_segment_is_refused() {
    let vars = variables(&[("nothing", "")]);
    for route in ["", "/", "//", "$nothing"] {
        let files = vec![file(
            "samples/api/a/endpoints.toml",
            vec![raw("a", "FETCH", Some(route), "a.js")],
        )];
        match create_api_definitions(&config(None), &vars, &files) {
            Err(ApiDefinitionError::InvalidPath) => {}
            other => panic!("unexpected: {other:?}"),
        }
    }
    let files =
        vec![file("samples/api/a/endpoints.toml", vec![raw("a", "GET", Some("/x//y/"), "a.js")])];
    let endpoints = create_api_definitions(&config(Some("/v1/")), &vars, &files).unwrap();
    assert_eq!(endpoints[0].route, "v1/x/y");
}

#[test]
fn loading_errors_say_what_went_wrong() {
    assert_eq!(
        ApiDefinitionError::InvalidMethod("X".to_string()).message(),
        "Invalid API method: X"
    );
    assert_eq!(
        ApiDefinitionError::DuplicateNameFound.message(),
        "API definitions contain duplicate name"
    );
    assert_eq!(ApiDefinitionError::InvalidPath.message(), "Not a valid API path");
    assert_eq!(
        ApiDefinitionError::CannotReadTomlFile("e".to_string()).message(),
        "Cannot read TOML file: e"
    );
    assert_eq!(
        ApiDefinitionError::CannotParseTomlFile("e".to_string()).message(),
        "Cannot parse TOML file: e"
    );
}

fn source(name: &str, domain: &str, files: Vec<EndpointFile>) -> ApiSource {
    ApiSource {
        config: ApiConfigRaw {
            name: name.to_string(),
            root: "samples/api".to_string(),
            domain: domain.to_string(),
            prefix: Some("v1".to_string()),
        },
        files,
    }
}

#[test]
fn apis_are_loaded_in_order() {
    let vars = variables(&[]);
    let one = source(
        "one",
        "a.example.com",
        vec![file("samples/api/x/endpoints.toml", vec![raw("x", "GET", Some("x"), "x.js")])],
    );
    let two = source("two", "b.example.com", vec![]);
    let loaded = load_configs(vec![one, two], &vars).unwrap();
    assert_eq!(loaded.api.len(), 2);
    assert_eq!(loaded.api[0].name, "one");
    assert_eq!(loaded.api[0].domain, "a.example.com");
    assert_eq!(loaded.api[0].prefix, Some("v1".to_string()));
    assert_eq!(loaded.api[0].endpoints.len(), 1);
    assert_eq!(loaded.api[0].endpoints[0].route, "v1/x");
    assert!(loaded.api[1].endpoints.is_empty());

    let bad = source(
        "bad",
        "c.example.com",
        vec![file("samples/api/y/endpoints.toml", vec![raw("y", "nope", Some("y"), "y.js")])],
    );
    match load_api_configs(vec![source("ok", "a", vec![]), bad], &vars) {
        Err(ApiDefinitionError::InvalidMethod(m)) => assert_eq!(m, "nope"),
        other => panic!("unexpected: {other:?}"),
    }
    let raw_config = source("solo", "d", vec![]).config;
    let solo = load_raw_api_config(raw_config, &vars, &vec![]).unwrap();
    assert_eq!(solo.name, "solo");
    assert_eq!(solo.root, "samples/api");
}

#[test]
fn definitions_carry_the_root_of_their_api() {
    let vars = variables(&[]);
    let files =
        vec![file("samples/api/x/endpoints.toml", vec![raw("x", "put", Some("x"), "x.js")])];
    let definitions = load_definitions(&config(Some("p")), &vars, &files).unwrap();
    assert_eq!(definitions.len(), 1);
    assert_eq!(definitions[0].name, "x");
    assert_eq!(definitions[0].root, "samples/api");
    assert_eq!(definitions[0].route, "p/x");
    assert_eq!(definitions[0].method, HttpMethod::Put);
    assert_eq!(definitions[0].write, vec!["$table".to_string()]);
}

#[test]
fn a_cloud_holds_the_endpoints_it_was_given() {
    let mut cloud = Cloud::default();
    assert!(cloud.apis().is_empty());
    cloud.set_apis(vec![cloud_stack::cloud::api::ApiEndpoint {
        name: "n".to_string(),
        method: HttpMethod::Head,
        route: "r".to_string(),
        file: "f".to_string(),
        read: vec![],
        write: vec![],
    }]);
    assert_eq!(cloud.apis().len(), 1);
    assert_eq!(cloud.apis()[0].name, "n");
}
