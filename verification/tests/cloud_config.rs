use cloud_stack::cloud_config::{
    check_all_unique, engine_from_name, ApiConfig, CloudConfig, CloudConfigError, CloudConfigRaw,
    ConfigSection, ConfigVariable, DatabaseConfigRaw, DatabaseEngine, StaticConfig,
};
use cloud_stack::config::ConfigVariables;

fn api(name: &str) -> ApiConfig {
    ApiConfig {
        name: name.to_string(),
        root: "$root/api".to_string(),
        domain: "$domain".to_string(),
        prefix: Some("$version".to_string()),
    }
}

fn files(name: &str) -> StaticConfig {
    StaticConfig {
        name: name.to_string(),
        root: "$root/static".to_string(),
        domain: "$domain".to_string(),
        prefix: None,
    }
}

fn database(name: &str, engine: &str) -> DatabaseConfigRaw {
    DatabaseConfigRaw { name: name.to_string(), engine: engine.to_string() }
}

fn variables() -> ConfigVariables {
    let mut vars = ConfigVariables::new();
    vars.insert(ConfigVariable::new("root").unwrap(), "samples".to_string());
    vars.insert(ConfigVariable::new("domain").unwrap(), "example.com".to_string());
    vars.insert(ConfigVariable::new("version").unwrap(), "v1".to_string());
    vars.insert(ConfigVariable::new("engine").unwrap(), "PostGres".to_string());
    vars
}

#[test]
fn a_configuration_is_checked_and_filled_in() {
    let raw = CloudConfigRaw {
        api: Some(vec![api("one"), api("two")]),
        database: Some(vec![database("main", "$engine"), database("logs", "postgres")]),
        static_files: None,
    };
    let config = CloudConfig::new(variables(), raw).unwrap();
    assert_eq!(config.api.len(), 2);
    assert_eq!(config.api[0].name, "one");
    assert_eq!(config.api[0].root, "samples/api");
    assert_eq!(config.api[0].domain, "example.com");
    assert_eq!(config.api[0].prefix, Some("v1".to_string()));
    assert_eq!(config.database.len(), 2);
    assert_eq!(config.database[0].name, "main");
    assert_eq!(config.database[0].engine, DatabaseEngine::Postgres);
    assert_eq!(config.database[1].name, "logs");
    assert!(config.static_files.is_empty());
}

#[test]
fn an_unknown_engine_is_refused_first() {
    let raw = CloudConfigRaw {
        api: Some(vec![api("same"), api("SAME")]),
        database: Some(vec![
            database("main", "postgres"),
            database("old", "mysql"),
            database("older", "oracle"),
        ]),
        static_files: None,
    };
    match CloudConfig::new(variables(), raw) {
        Err(CloudConfigError::InvalidDatabaseEngine(name, engine)) => {
            assert_eq!(name, "old");
            assert_eq!(engine, "mysql");
        }
        other => panic!("unexpected: {other:?}"),
    }
    assert_eq!(
        CloudConfigError::InvalidDatabaseEngine("old".to_string(), "mysql".to_string()).message(),
        "The database `old`'s engine 'mysql' is not a valid type."
    );
}

#[test]
fn names_that_differ_in_case_alone_are_refused() {
    let section = |raw: CloudConfigRaw| match CloudConfig::new(variables(), raw) {
        Err(CloudConfigError::DuplicateNames(section)) => section,
        other => panic!("unexpected: {other:?}"),
    };
    assert_eq!(
        section(CloudConfigRaw {
            api: Some(vec![api("same"), api("SAME")]),
            database: Some(vec![database("d", "postgres"), database("D", "postgres")]),
            static_files: Some(vec![files("s"), files("s")]),
        }),
        ConfigSection::Api
    );
    assert_eq!(
        section(CloudConfigRaw {
            api: None,
            database: Some(vec![database("d", "postgres"), database("D", "postgres")]),
            static_files: Some(vec![files("s"), files("s")]),
        }),
        ConfigSection::Database
    );
    assert_eq!(
        section(CloudConfigRaw {
            api: None,
            database: None,
            static_files: Some(vec![files("s"), files("S")]),
        }),
        ConfigSection::StaticFiles
    );
    assert_eq!(
        CloudConfigError::DuplicateNames(ConfigSection::StaticFiles).message(),
        "Not all names for static are unique!"
    );
}

#[test]
fn engines_are_read_in_any_case() {
    assert_eq!(database("d", "POSTGRES").parse().unwrap().engine, DatabaseEngine::Postgres);
    assert!(database("d", "sqlite").parse().is_err());
    assert_eq!(engine_from_name("postgres"), Some(DatabaseEngine::Postgres));
    assert_eq!(engine_from_name("Postgres"), None);
    assert!(check_all_unique(&vec!["a".to_string(), "b".to_string()]));
    assert!(!check_all_unique(&vec!["a".to_string(), "A".to_string()]));
}
