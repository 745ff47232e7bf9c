use gonfig::{ConfigBuilder, ConfigValue, Environment};

fn simple_env() -> Environment {
    Environment::new()
        .with_field_mapping("service_name", "GONFIG_TEST_SERVICE_NAME")
        .with_field_mapping("port", "GONFIG_TEST_PORT")
        .with_field_mapping("debug", "GONFIG_TEST_DEBUG")
}

fn simple_defaults() -> ConfigValue {
    ConfigValue::Object(vec![
        ("service_name".to_string(), ConfigValue::Text("my-service".to_string())),
        ("port".to_string(), ConfigValue::Int(8080)),
        ("debug".to_string(), ConfigValue::Bool(false)),
    ])
}

fn simple_load(vars: Vec<(&str, &str)>) -> ConfigValue {
    let snapshot: Vec<(String, String)> =
        vars.into_iter().map(|(k, v)| (k.to_string(), v.to_string())).collect();
    ConfigBuilder::new()
        .with_env_custom(simple_env())
        .with_defaults(simple_defaults())
        .unwrap()
        .build_value(&snapshot)
        .unwrap()
}

#[test]
fn test_all_defaults() {
    // No variables set: every field falls back to its default.
    let config = simple_load(vec![]);

    assert_eq!(
        config.get("service_name").unwrap().as_str().unwrap().as_str(),
        "my-service"
    );
    assert_eq!(config.get("port").unwrap().as_i64(), Some(8080));
    assert_eq!(config.get("debug").unwrap().as_bool(), Some(false));
}

#[test]
fn test_override_defaults() {
    let config = simple_load(vec![
        ("GONFIG_TEST_SERVICE_NAME", "production-service"),
        ("GONFIG_TEST_PORT", "3000"),
        ("GONFIG_TEST_DEBUG", "true"),
    ]);

    assert_eq!(
        config.get("service_name").unwrap().as_str().unwrap().as_str(),
        "production-service"
    );
    assert_eq!(config.get("port").unwrap().as_i64(), Some(3000));
    assert_eq!(config.get("debug").unwrap().as_bool(), Some(true));
}

#[test]
fn test_partial_override() {
    // Only override the service name.
    let config = simple_load(vec![("GONFIG_TEST_SERVICE_NAME", "custom-service")]);

    assert_eq!(
        config.get("service_name").unwrap().as_str().unwrap().as_str(),
        "custom-service"
    );
    assert_eq!(config.get("port").unwrap().as_i64(), Some(8080)); // Should use default
    assert_eq!(config.get("debug").unwrap().as_bool(), Some(false)); // Should use default
}

#[test]
fn test_default_values_override() {
    // Set some of the variables to override their defaults.
    let snapshot: Vec<(String, String)> = vec![
        ("SERVICE_NAME".to_string(), "custom-service".to_string()),
        ("MAX_CONNECTIONS".to_string(), "200".to_string()),
    ];
    let env = Environment::new()
        .with_field_mapping("service_name", "SERVICE_NAME")
        .with_field_mapping("max_connections", "MAX_CONNECTIONS")
        .with_field_mapping("enable_debug", "ENABLE_DEBUG")
        .with_field_mapping("timeout_seconds", "TIMEOUT_SECONDS");
    let defaults = ConfigValue::Object(vec![
        ("service_name".to_string(), ConfigValue::Text("my-service".to_string())),
        ("max_connections".to_string(), ConfigValue::Int(100)),
        ("enable_debug".to_string(), ConfigValue::Bool(false)),
        ("timeout_seconds".to_string(), ConfigValue::Int(30)),
    ]);

    let config = ConfigBuilder::new()
        .with_env_custom(env)
        .with_defaults(defaults)
        .unwrap()
        .build_value(&snapshot)
        .unwrap();

    // These should be overridden.
    assert_eq!(
        config.get("service_name").unwrap().as_str().unwrap().as_str(),
        "custom-service"
    );
    assert_eq!(config.get("max_connections").unwrap().as_i64(), Some(200));

    // These should still use defaults.
    assert_eq!(config.get("enable_debug").unwrap().as_bool(), Some(false));
    assert_eq!(config.get("timeout_seconds").unwrap().as_i64(), Some(30));
}
