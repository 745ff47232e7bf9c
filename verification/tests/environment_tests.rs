use gonfig::{ConfigValue, Environment};

fn snapshot(pairs: Vec<(&str, &str)>) -> Vec<(String, String)> {
    pairs.into_iter().map(|(k, v)| (k.to_string(), v.to_string())).collect()
}

#[test]
fn test_environment_basic() {
    let vars = snapshot(vec![
        ("DATABASE_URL", "postgres://localhost"),
        ("PORT", "5432"),
    ]);

    let env = Environment::new();
    let result = env.collect(&vars).unwrap();

    assert_eq!(
        result.get("database_url").unwrap().as_str().unwrap().as_str(),
        "postgres://localhost"
    );
    assert_eq!(result.get("port").unwrap().as_i64(), Some(5432));
}

#[test]
fn test_environment_with_prefix() {
    let vars = snapshot(vec![
        ("APP_DATABASE_URL", "postgres://localhost"),
        ("APP_PORT", "8080"),
        ("APP_DEBUG", "true"),
    ]);

    let env = Environment::new().with_prefix("APP");
    let result = env.collect(&vars).unwrap();

    assert_eq!(
        result.get("database_url").unwrap().as_str().unwrap().as_str(),
        "postgres://localhost"
    );
    assert_eq!(result.get("port").unwrap().as_i64(), Some(8080));
    assert_eq!(result.get("debug").unwrap().as_bool(), Some(true));
}

#[test]
fn test_environment_with_field_mapping() {
    let vars = snapshot(vec![
        ("CUSTOM_DB", "postgres://custom"),
        ("CUSTOM_PORT", "9999"),
    ]);

    let env = Environment::new()
        .with_field_mapping("database_url", "CUSTOM_DB")
        .with_field_mapping("port", "CUSTOM_PORT");

    let result = env.collect(&vars).unwrap();

    assert_eq!(
        result.get("database_url").unwrap().as_str().unwrap().as_str(),
        "postgres://custom"
    );
    assert_eq!(result.get("port").unwrap().as_i64(), Some(9999));
}

#[test]
fn test_environment_type_parsing() {
    let env = Environment::new();

    let result = env.collect(&snapshot(vec![("TEST_INT", "42")])).unwrap();
    assert_eq!(result.get("test_int").unwrap().as_i64(), Some(42));

    let pi = std::f64::consts::PI.to_string();
    let result = env.collect(&snapshot(vec![("TEST_FLOAT", pi.as_str())])).unwrap();
    let bits = result.get("test_float").unwrap().as_float_bits().unwrap();
    assert_eq!(f64::from_bits(bits), std::f64::consts::PI);

    let result = env.collect(&snapshot(vec![("TEST_BOOL", "true")])).unwrap();
    assert_eq!(result.get("test_bool").unwrap().as_bool(), Some(true));

    let result = env.collect(&snapshot(vec![("TEST_ARRAY", "[1,2,3]")])).unwrap();
    assert!(result.get("test_array").unwrap().is_array());

    let result = env.collect(&snapshot(vec![("TEST_OBJECT", "{\"key\":\"value\"}")])).unwrap();
    assert!(result.get("test_object").unwrap().is_object());
}

#[test]
fn test_environment_case_sensitivity() {
    let vars = snapshot(vec![("TEST_CASE", "value")]);

    // Case insensitive (default)
    let env = Environment::new();
    let result = env.collect(&vars).unwrap();
    assert!(result.get("test_case").is_some());

    // Case sensitive
    let env = Environment::new().case_sensitive(true);
    let result = env.collect(&vars).unwrap();
    // In case sensitive mode, the exact key is preserved
    assert!(result.get("TEST_CASE").is_some() || result.get("test_case").is_some());
}

#[test]
fn test_environment_overrides() {
    let vars = snapshot(vec![("OVERRIDE_TEST", "original")]);

    let env = Environment::new().override_with("OVERRIDE_TEST", "overridden");

    let result = env.collect(&vars).unwrap();
    assert_eq!(
        result.get("override_test").unwrap().as_str().unwrap().as_str(),
        "overridden"
    );
}

#[test]
fn test_flat_key_no_nesting() {
    // Prefix APP, separator _, variable APP_PORT=8080: the result holds the
    // flat key "port" with integer 8080, and nothing nested.
    let vars = snapshot(vec![("APP_PORT", "8080")]);
    let env = Environment::new().with_prefix("APP");
    let result = env.collect(&vars).unwrap();
    assert_eq!(
        result,
        ConfigValue::Object(vec![("port".to_string(), ConfigValue::Int(8080))])
    );
}

#[test]
fn test_field_mapping_precedence_over_prefix() {
    // A field mapped to CUSTOM_DB reads CUSTOM_DB even though a variable
    // matching the generic prefix pattern exists; the generic variable does
    // not displace the mapped field.
    let vars = snapshot(vec![
        ("CUSTOM_DB", "postgres://custom"),
        ("APP_DATABASE_URL", "postgres://generic"),
    ]);
    let env = Environment::new()
        .with_prefix("APP")
        .with_field_mapping("database_url", "CUSTOM_DB");
    let result = env.collect(&vars).unwrap();
    assert_eq!(
        result.get("database_url").unwrap().as_str().unwrap().as_str(),
        "postgres://custom"
    );
}

#[test]
fn test_environment_point_queries() {
    let vars = snapshot(vec![("APP_PORT", "8080")]);
    let env = Environment::new().with_prefix("APP");
    assert!(env.has_value("port", &vars));
    assert_eq!(env.get_value("port", &vars).unwrap().as_i64(), Some(8080));
    assert!(!env.has_value("host", &vars));

    let overridden = Environment::new().with_prefix("APP").override_with("APP_PORT", "9");
    assert_eq!(overridden.get_value("port", &vars).unwrap().as_i64(), Some(9));
}

#[test]
fn test_collect_for_struct_key_derivation() {
    let vars = snapshot(vec![
        ("PRE_SETTINGS_HOST", "example.org"),
        ("EXPLICIT_PORT", "7777"),
    ]);
    let env = Environment::new().with_prefix("PRE");
    let fields = vec![
        ("host".to_string(), None),
        ("port".to_string(), Some("EXPLICIT_PORT".to_string())),
        ("missing".to_string(), None),
    ];
    let result = env.collect_for_struct("Settings", &fields, &vars);
    let as_obj = ConfigValue::Object(result);
    assert_eq!(as_obj.get("host").unwrap().as_str().unwrap().as_str(), "example.org");
    assert_eq!(as_obj.get("port").unwrap().as_i64(), Some(7777));
    assert!(as_obj.get("missing").is_none());
}

#[test]
fn test_collect_with_flat_keys_direct() {
    let vars = snapshot(vec![("A_ONE", "1"), ("B_TWO", "2")]);
    let env = Environment::new().with_prefix("A");
    let result = env.collect_with_flat_keys(&vars).unwrap();
    assert_eq!(result.get("one").unwrap().as_i64(), Some(1));
    assert!(result.get("two").is_none());
    assert!(result.get("b_two").is_none());
}
