use gonfig::{Config, ConfigFormat, ConfigValue, Error};
use gonfig::coerce::{coerce, parse_i64};

#[test]
fn test_from_extension() {
    assert!(matches!(ConfigFormat::from_extension("json"), Some(ConfigFormat::Json)));
    assert!(matches!(ConfigFormat::from_extension("yaml"), Some(ConfigFormat::Yaml)));
    assert!(matches!(ConfigFormat::from_extension("yml"), Some(ConfigFormat::Yaml)));
    assert!(matches!(ConfigFormat::from_extension("toml"), Some(ConfigFormat::Toml)));
    assert!(matches!(ConfigFormat::from_extension("JSON"), Some(ConfigFormat::Json)));
    assert_eq!(ConfigFormat::from_extension("unknown"), None);
}

#[test]
fn test_parse_json_document() {
    let value = ConfigFormat::Json.parse("{\"name\": \"test\", \"port\": 8080}").unwrap();
    assert_eq!(value.get("name").unwrap().as_str().unwrap().as_str(), "test");
    assert_eq!(value.get("port").unwrap().as_i64(), Some(8080));
}

#[test]
fn test_parse_yaml_document() {
    let value = ConfigFormat::Yaml.parse("name: test\nport: 8080\n").unwrap();
    assert_eq!(value.get("name").unwrap().as_str().unwrap().as_str(), "test");
    assert_eq!(value.get("port").unwrap().as_i64(), Some(8080));
}

#[test]
fn test_parse_toml_document() {
    let value = ConfigFormat::Toml.parse("name = \"test\"\nport = 8080\n").unwrap();
    assert_eq!(value.get("name").unwrap().as_str().unwrap().as_str(), "test");
    assert_eq!(value.get("port").unwrap().as_i64(), Some(8080));
}

#[test]
fn test_parse_error_is_serialization() {
    assert!(matches!(
        ConfigFormat::Json.parse("{ not json"),
        Err(Error::Serialization(_))
    ));
    assert!(matches!(
        ConfigFormat::Toml.parse("= nonsense ="),
        Err(Error::Serialization(_))
    ));
}

#[test]
fn test_unknown_extension_is_config_error() {
    assert!(matches!(
        Config::from_file("settings.xyz", "{}"),
        Err(Error::Config(_))
    ));
    assert!(matches!(
        Config::from_file("no_extension", "{}"),
        Err(Error::Config(_))
    ));
}

#[test]
fn test_required_reload_without_text_is_io_error() {
    let mut config = Config::from_file("app.json", "{\"a\": 1}").unwrap();
    assert!(matches!(config.reload(None), Err(Error::Io(_))));
    // The document is untouched by the failed reload.
    assert_eq!(config.collect().unwrap().get("a").unwrap().as_i64(), Some(1));
}

#[test]
fn test_optional_file_parse_error_propagates() {
    assert!(matches!(
        Config::from_file_optional("broken.json", Some("{ nope")),
        Err(Error::Serialization(_))
    ));
}

#[test]
fn test_config_dotted_queries() {
    let config = Config::from_file("db.json", "{\"db\": {\"host\": \"h\", \"port\": 1}}").unwrap();
    assert!(config.has_value("db.host"));
    assert!(!config.has_value("db.user"));
    assert_eq!(config.get_value("db.port").unwrap().as_i64(), Some(1));
    assert_eq!(
        config.get_value("db").unwrap().get("host").unwrap().as_str().unwrap().as_str(),
        "h"
    );
}

#[test]
fn test_with_format_overrides_extension() {
    let config = Config::with_format("file.weird", "{\"k\": true}", ConfigFormat::Json).unwrap();
    assert_eq!(config.collect().unwrap().get("k").unwrap().as_bool(), Some(true));
}

#[test]
fn test_reload_replaces_document() {
    let mut config = Config::from_file("app.json", "{\"a\": 1}").unwrap();
    config.reload(Some("{\"a\": 2}")).unwrap();
    assert_eq!(config.collect().unwrap().get("a").unwrap().as_i64(), Some(2));
}

#[test]
fn test_coercion_precedence() {
    assert_eq!(coerce("42"), ConfigValue::Int(42));
    assert_eq!(coerce("3.14"), ConfigValue::Float(3.14f64.to_bits()));
    assert_eq!(coerce("true"), ConfigValue::Bool(true));
    assert_eq!(coerce("false"), ConfigValue::Bool(false));
    assert_eq!(coerce("NaN"), ConfigValue::Text("NaN".to_string()));
    assert_eq!(coerce("hello"), ConfigValue::Text("hello".to_string()));
}

#[test]
fn test_coercion_array_and_object() {
    let arr = coerce("[1,2,3]");
    assert_eq!(
        arr,
        ConfigValue::Array(vec![ConfigValue::Int(1), ConfigValue::Int(2), ConfigValue::Int(3)])
    );
    let obj = coerce("{\"key\":\"value\"}");
    assert_eq!(obj.get("key").unwrap().as_str().unwrap().as_str(), "value");
    // An unparseable bracketed string falls back to the raw string.
    assert_eq!(coerce("[1,2,"), ConfigValue::Text("[1,2,".to_string()));
    assert_eq!(coerce("[1,2)"), ConfigValue::Text("[1,2)".to_string()));
}

#[test]
fn test_coercion_float_grammar() {
    // Fringe decimal-literal shapes coerce as numbers...
    assert_eq!(coerce(".5"), ConfigValue::Float(0.5f64.to_bits()));
    assert_eq!(coerce("+1.5"), ConfigValue::Float(1.5f64.to_bits()));
    assert_eq!(coerce("5."), ConfigValue::Float(5.0f64.to_bits()));
    assert_eq!(coerce("007.5"), ConfigValue::Float(7.5f64.to_bits()));
    assert_eq!(coerce("1.e3"), ConfigValue::Float(1000.0f64.to_bits()));
    assert_eq!(coerce("1E5"), ConfigValue::Float(100000.0f64.to_bits()));
    assert_eq!(coerce("-0.5"), ConfigValue::Float((-0.5f64).to_bits()));
    assert_eq!(coerce("2e-2"), ConfigValue::Float(0.02f64.to_bits()));
    // ...while whitespace, overflow to infinity and stray characters fall
    // back to the literal string.
    assert_eq!(coerce(" 3.14"), ConfigValue::Text(" 3.14".to_string()));
    assert_eq!(coerce("3.14 "), ConfigValue::Text("3.14 ".to_string()));
    assert_eq!(coerce("1e999"), ConfigValue::Text("1e999".to_string()));
    assert_eq!(coerce("1.2.3"), ConfigValue::Text("1.2.3".to_string()));
    assert_eq!(coerce("inf"), ConfigValue::Text("inf".to_string()));
    assert_eq!(coerce("1e"), ConfigValue::Text("1e".to_string()));
}

#[test]
fn test_parse_i64_exact() {
    assert_eq!(parse_i64("42"), Some(42));
    assert_eq!(parse_i64("+42"), Some(42));
    assert_eq!(parse_i64("-42"), Some(-42));
    assert_eq!(parse_i64("0"), Some(0));
    assert_eq!(parse_i64("007"), Some(7));
    assert_eq!(parse_i64("9223372036854775807"), Some(i64::MAX));
    assert_eq!(parse_i64("-9223372036854775808"), Some(i64::MIN));
    assert_eq!(parse_i64("9223372036854775808"), None);
    assert_eq!(parse_i64("-9223372036854775809"), None);
    assert_eq!(parse_i64(""), None);
    assert_eq!(parse_i64("-"), None);
    assert_eq!(parse_i64("+"), None);
    assert_eq!(parse_i64("4 2"), None);
    assert_eq!(parse_i64("12a"), None);
    assert_eq!(parse_i64("99999999999999999999999999"), None);
}

#[test]
fn test_error_messages() {
    assert_eq!(Error::Cli("bad flag".to_string()).message().as_str(), "bad flag");
    assert_eq!(Error::Environment("bad var".to_string()).message().as_str(), "bad var");
    assert_eq!(Error::Validation("too big".to_string()).message().as_str(), "too big");
    assert_eq!(Error::MergeConflict("clash".to_string()).message().as_str(), "clash");
    assert_eq!(Error::Config("shape".to_string()).message().as_str(), "shape");
    assert_eq!(Error::Io("gone".to_string()).message().as_str(), "gone");
    assert_eq!(Error::Serialization("syntax".to_string()).message().as_str(), "syntax");
}

#[test]
fn test_prefix_roundtrip() {
    let p = gonfig::Prefix::new("APP".to_string());
    assert_eq!(p.as_str(), "APP");
}
