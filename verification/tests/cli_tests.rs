use gonfig::Cli;

#[test]
fn test_cli_basic_parsing() {
    let args = vec![
        "program".to_string(),
        "--database-url".to_string(),
        "postgres://localhost".to_string(),
        "--port".to_string(),
        "8080".to_string(),
    ];

    let cli = Cli::from_vec(args);
    let result = cli.collect().unwrap();

    assert_eq!(
        result.get("database-url").unwrap().as_str().unwrap().as_str(),
        "postgres://localhost"
    );
    assert_eq!(result.get("port").unwrap().as_i64(), Some(8080));
}

#[test]
fn test_cli_boolean_flags() {
    let args = vec![
        "program".to_string(),
        "--debug".to_string(),
        "--verbose".to_string(),
        "false".to_string(),
    ];

    let cli = Cli::from_vec(args);
    let result = cli.collect().unwrap();

    assert_eq!(result.get("debug").unwrap().as_bool(), Some(true));
    assert_eq!(result.get("verbose").unwrap().as_bool(), Some(false));
}

#[test]
fn test_cli_type_parsing() {
    let args = vec![
        "program".to_string(),
        "--int".to_string(),
        "42".to_string(),
        "--float".to_string(),
        std::f64::consts::PI.to_string(),
        "--bool".to_string(),
        "true".to_string(),
        "--array".to_string(),
        "[1,2,3]".to_string(),
    ];

    let cli = Cli::from_vec(args);
    let result = cli.collect().unwrap();

    assert_eq!(result.get("int").unwrap().as_i64(), Some(42));
    let bits = result.get("float").unwrap().as_float_bits().unwrap();
    assert_eq!(f64::from_bits(bits), std::f64::consts::PI);
    assert_eq!(result.get("bool").unwrap().as_bool(), Some(true));
    assert!(result.get("array").unwrap().is_array());
}

#[test]
fn test_cli_field_mapping() {
    let args = vec![
        "program".to_string(),
        "--custom-db".to_string(),
        "postgres://custom".to_string(),
    ];

    let cli = Cli::from_vec(args).with_field_mapping("database_url", "custom-db");

    let result = cli.collect().unwrap();

    // The field mapping should allow accessing via the field name
    assert!(result.get("custom-db").is_some());
}

#[test]
fn test_cli_safe_float_parsing() {
    let args = vec![
        "program".to_string(),
        "--valid-float".to_string(),
        "123.45".to_string(),
    ];

    let cli = Cli::from_vec(args);
    let result = cli.collect().unwrap();

    // Should parse valid float
    let bits = result.get("valid-float").unwrap().as_float_bits().unwrap();
    assert_eq!(f64::from_bits(bits), 123.45);

    // NaN and infinity are handled gracefully by falling back to string
    let args_nan = vec![
        "program".to_string(),
        "--invalid-float".to_string(),
        "NaN".to_string(),
    ];

    let cli_nan = Cli::from_vec(args_nan);
    let result_nan = cli_nan.collect().unwrap();

    // Should fallback to string for NaN
    assert_eq!(
        result_nan.get("invalid-float").unwrap().as_str().unwrap().as_str(),
        "NaN"
    );
}

#[test]
fn test_cli_equals_form() {
    let args = vec![
        "program".to_string(),
        "--database-url=postgres://localhost".to_string(),
        "--port=8080".to_string(),
        "--debug".to_string(),
    ];

    let cli = Cli::from_vec(args);
    let result = cli.collect().unwrap();

    assert_eq!(
        result.get("database-url").unwrap().as_str().unwrap().as_str(),
        "postgres://localhost"
    );
    assert_eq!(result.get("port").unwrap().as_i64(), Some(8080));
    assert_eq!(result.get("debug").unwrap().as_bool(), Some(true));
}

#[test]
fn test_cli_equals_form_splits_at_first_equals() {
    // Only the first equals sign splits; the rest belongs to the value, and
    // an empty value is the empty string.
    let args = vec![
        "program".to_string(),
        "--expr=a=b".to_string(),
        "--empty=".to_string(),
        "--key=1".to_string(),
        "next".to_string(),
    ];

    let cli = Cli::from_vec(args);
    let result = cli.collect().unwrap();

    assert_eq!(result.get("expr").unwrap().as_str().unwrap().as_str(), "a=b");
    assert_eq!(result.get("empty").unwrap().as_str().unwrap().as_str(), "");
    // The token after an `=` form is not consumed as its value.
    assert_eq!(result.get("key").unwrap().as_i64(), Some(1));
    assert!(result.get("next").is_none());
}

#[test]
fn test_cli_short_flag_and_queries() {
    let args = vec![
        "program".to_string(),
        "-p".to_string(),
        "8080".to_string(),
        "--flag".to_string(),
    ];
    let cli = Cli::from_vec(args);
    assert!(cli.has_value("p"));
    assert_eq!(cli.get_value("p").unwrap().as_i64(), Some(8080));
    assert_eq!(cli.get_value("flag").unwrap().as_bool(), Some(true));
    assert!(!cli.has_value("missing"));
    assert_eq!(cli.get_matches().len(), 2);
}
