use gonfig::{ConfigBuilder, ConfigValue, Environment, MergeStrategy, Source};

fn snap(pairs: Vec<(&str, &str)>) -> Vec<(String, String)> {
    pairs.into_iter().map(|(k, v)| (k.to_string(), v.to_string())).collect()
}

fn dobj(entries: Vec<(&str, ConfigValue)>) -> ConfigValue {
    ConfigValue::Object(entries.into_iter().map(|(k, v)| (k.to_string(), v)).collect())
}

#[test]
fn test_builder_basic() {
    let vars = snap(vec![
        ("TEST_DATABASE_URL", "postgres://localhost"),
        ("TEST_PORT", "5432"),
    ]);

    let config = ConfigBuilder::new()
        .with_env("TEST")
        .build_value(&vars)
        .unwrap();

    assert_eq!(
        config.get("database_url").unwrap().as_str().unwrap().as_str(),
        "postgres://localhost"
    );
    assert_eq!(config.get("port").unwrap().as_i64(), Some(5432));
}

#[test]
fn test_builder_with_config_file() {
    let content = "\ndatabase_url = \"postgres://fromfile\"\nport = 3000\ndebug = true\n";

    let config = ConfigBuilder::new()
        .with_file("config.toml", content)
        .unwrap()
        .build_value(&Vec::new())
        .unwrap();

    assert_eq!(
        config.get("database_url").unwrap().as_str().unwrap().as_str(),
        "postgres://fromfile"
    );
    assert_eq!(config.get("port").unwrap().as_i64(), Some(3000));
    assert_eq!(config.get("debug").unwrap().as_bool(), Some(true));
}

#[test]
fn test_builder_merge_strategy() {
    let content = "\ndatabase_url = \"postgres://fromfile\"\nport = 3000\n";
    let vars = snap(vec![("MERGE_DATABASE_URL", "postgres://fromenv")]);

    let config = ConfigBuilder::new()
        .with_merge_strategy(MergeStrategy::Deep)
        .with_file("merge.toml", content)
        .unwrap()
        .with_env("MERGE")
        .build_value(&vars)
        .unwrap();

    // The environment outranks the file.
    assert_eq!(
        config.get("database_url").unwrap().as_str().unwrap().as_str(),
        "postgres://fromenv"
    );
    assert_eq!(config.get("port").unwrap().as_i64(), Some(3000));
}

#[test]
fn test_builder_optional_config_file() {
    let vars = snap(vec![
        ("OPT_DATABASE_URL", "postgres://fromenv"),
        ("OPT_PORT", "8080"),
    ]);

    let config = ConfigBuilder::new()
        .with_file_optional("/non/existent/file.toml", None)
        .unwrap()
        .with_env("OPT")
        .build_value(&vars)
        .unwrap();

    assert_eq!(
        config.get("database_url").unwrap().as_str().unwrap().as_str(),
        "postgres://fromenv"
    );
    assert_eq!(config.get("port").unwrap().as_i64(), Some(8080));
}

#[test]
fn test_builder_priority_order() {
    let content = "\ndatabase_url = \"postgres://fromfile\"\nport = 3000\ndebug = false\n";
    let vars = snap(vec![
        ("PRIO_DATABASE_URL", "postgres://fromenv"),
        ("PRIO_DEBUG", "true"),
    ]);

    let config = ConfigBuilder::new()
        .with_file("prio.toml", content)
        .unwrap()
        .with_env("PRIO")
        .build_value(&vars)
        .unwrap();

    // Environment variables should override the file values.
    assert_eq!(
        config.get("database_url").unwrap().as_str().unwrap().as_str(),
        "postgres://fromenv"
    );
    assert_eq!(config.get("debug").unwrap().as_bool(), Some(true));
    assert_eq!(config.get("port").unwrap().as_i64(), Some(3000));
}

#[test]
fn test_default_values() {
    // No variables are set, so every field falls back to its default.
    let env = Environment::new()
        .with_field_mapping("service_name", "SERVICE_NAME")
        .with_field_mapping("max_connections", "MAX_CONNECTIONS")
        .with_field_mapping("enable_debug", "ENABLE_DEBUG")
        .with_field_mapping("timeout_seconds", "TIMEOUT_SECONDS");
    let defaults = dobj(vec![
        ("service_name", ConfigValue::Text("my-service".to_string())),
        ("max_connections", ConfigValue::Int(100)),
        ("enable_debug", ConfigValue::Bool(false)),
        ("timeout_seconds", ConfigValue::Int(30)),
    ]);

    let config = ConfigBuilder::new()
        .with_env_custom(env)
        .with_defaults(defaults)
        .unwrap()
        .build_value(&Vec::new())
        .unwrap();

    assert_eq!(
        config.get("service_name").unwrap().as_str().unwrap().as_str(),
        "my-service"
    );
    assert_eq!(config.get("max_connections").unwrap().as_i64(), Some(100));
    assert_eq!(config.get("enable_debug").unwrap().as_bool(), Some(false));
    assert_eq!(config.get("timeout_seconds").unwrap().as_i64(), Some(30));
}

#[test]
fn test_defaults_with_builder() {
    let defaults = dobj(vec![
        ("service_name", ConfigValue::Text("builder-service".to_string())),
        ("max_connections", ConfigValue::Int(50)),
        ("enable_debug", ConfigValue::Bool(true)),
        ("timeout_seconds", ConfigValue::Int(60)),
    ]);

    let config = ConfigBuilder::new()
        .with_defaults(defaults)
        .unwrap()
        .with_env("")
        .build_value(&Vec::new())
        .unwrap();

    assert_eq!(
        config.get("service_name").unwrap().as_str().unwrap().as_str(),
        "builder-service"
    );
    assert_eq!(config.get("max_connections").unwrap().as_i64(), Some(50));
    assert_eq!(config.get("enable_debug").unwrap().as_bool(), Some(true));
    assert_eq!(config.get("timeout_seconds").unwrap().as_i64(), Some(60));
}

#[test]
fn test_optional_missing_file_then_env() {
    // A missing optional file raises no error, and the environment source
    // still contributes its values.
    let vars = snap(vec![("X_NAME", "foo")]);
    let config = ConfigBuilder::new()
        .with_file_optional("/nonexistent", None)
        .unwrap()
        .with_env("X")
        .build_value(&vars)
        .unwrap();
    assert_eq!(config.get("name").unwrap().as_str().unwrap().as_str(), "foo");
}

#[test]
fn test_build_twice_identical() {
    // Re-running the identical build on the identical snapshot yields an
    // identical merged value, whatever order the sources were added in.
    let content = "{\"a\": 1, \"b\": {\"c\": true}}";
    let vars = snap(vec![("D_A", "2")]);

    let first = ConfigBuilder::new()
        .with_file("same.json", content)
        .unwrap()
        .with_env("D")
        .build_value(&vars)
        .unwrap();
    let second = ConfigBuilder::new()
        .with_file("same.json", content)
        .unwrap()
        .with_env("D")
        .build_value(&vars)
        .unwrap();

    assert_eq!(first, second);
    assert_eq!(first.get("a").unwrap().as_i64(), Some(2));
}

#[test]
fn test_defaults_always_lowest() {
    // Defaults registered last still cannot outrank an earlier source.
    let vars = snap(vec![("L_K", "env")]);
    let config = ConfigBuilder::new()
        .with_env("L")
        .with_defaults(dobj(vec![("k", ConfigValue::Text("default".to_string()))]))
        .unwrap()
        .build_value(&vars)
        .unwrap();
    assert_eq!(config.get("k").unwrap().as_str().unwrap().as_str(), "env");
}

#[test]
fn test_sources_and_get_source() {
    let builder = ConfigBuilder::new()
        .with_env("S")
        .with_defaults(dobj(vec![("k", ConfigValue::Int(1))]))
        .unwrap();
    assert_eq!(builder.sources().len(), 2);
    assert!(builder.get_source(Source::Default).is_some());
    assert!(builder.get_source(Source::Environment).is_some());
    assert!(builder.get_source(Source::Cli).is_none());

    let src = builder.get_source(Source::Default).unwrap();
    assert_eq!(src.source_type().priority(), 0);
    assert!(src.has_value("k", &Vec::new()));
    assert_eq!(src.get_value("k", &Vec::new()).unwrap().as_i64(), Some(1));
}

#[test]
fn test_empty_builder_yields_empty_object() {
    let config = ConfigBuilder::new().build_value(&Vec::new()).unwrap();
    assert_eq!(config, ConfigValue::Object(Vec::new()));
}

#[test]
fn test_equal_priority_insertion_order() {
    // Two sources of the same kind have equal priority: the one added later
    // wins at a shared key, because the sort is stable.
    let vars = snap(vec![("ONE_K", "first"), ("TWO_K", "second")]);
    let config = ConfigBuilder::new()
        .with_env("ONE")
        .with_env("TWO")
        .build_value(&vars)
        .unwrap();
    assert_eq!(config.get("k").unwrap().as_str().unwrap().as_str(), "second");

    let reversed = ConfigBuilder::new()
        .with_env("TWO")
        .with_env("ONE")
        .build_value(&vars)
        .unwrap();
    assert_eq!(reversed.get("k").unwrap().as_str().unwrap().as_str(), "first");
}

#[test]
fn test_source_priorities_fixed() {
    assert_eq!(Source::Default.priority(), 0);
    assert_eq!(Source::ConfigFile.priority(), 1);
    assert_eq!(Source::Environment.priority(), 2);
    assert_eq!(Source::Cli.priority(), 3);
}
